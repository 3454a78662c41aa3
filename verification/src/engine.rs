//! The board: nine cells in row-major order, each holding `X`, `O` or
//! `Empty`, together with win detection, the list of empty cells, a single
//! mutation (place a symbol), and a cursor used by an input layer to mark one
//! cell as selected.

use vstd::prelude::*;

verus! {

/// The symbol a cell holds. A plain value: copyable and equality-comparable.
#[derive(Clone, Copy, Debug, PartialEq, Eq, Structural)]
pub enum ItemSymbol {
    X,
    O,
    Empty,
}

/// The failures the board and the search surface to their callers.
#[derive(Clone, Copy, Debug, PartialEq, Eq, Structural)]
pub enum EngineError {
    /// A cell query received an index outside the board.
    InvalidIndex,
    /// The search was asked for a move on a board with no empty cell.
    NoMoveAvailable,
}

/// Whether the cursor of the input layer rests on a cell.
#[derive(Clone, Copy, Debug, PartialEq, Eq, Structural)]
enum ItemState {
    Selected,
    Unselected,
}

/// One cell: its symbol and whether the cursor rests on it.
#[derive(Clone, Copy, Debug)]
struct StateFullItem {
    symbol: ItemSymbol,
    state: ItemState,
}

/// The board. Its mathematical view (`self@`) is the sequence of the nine
/// cell symbols, indexed 0 to 8 in row-major order (row = index / 3,
/// column = index % 3).
pub struct Engine {
    items: Vec<StateFullItem>,
}

impl View for Engine {
    type V = Seq<ItemSymbol>;

    closed spec fn view(&self) -> Seq<ItemSymbol> {
        self.items@.map_values(|it: StateFullItem| it.symbol)
    }
}

/// The cells of win line `k`, for `k` in 0..8: the three rows, then the three
/// columns, then the two diagonals.
pub open spec fn win_line(k: int) -> (int, int, int) {
    if k == 0 { (0, 1, 2) }
    else if k == 1 { (3, 4, 5) }
    else if k == 2 { (6, 7, 8) }
    else if k == 3 { (0, 3, 6) }
    else if k == 4 { (1, 4, 7) }
    else if k == 5 { (2, 5, 8) }
    else if k == 6 { (0, 4, 8) }
    else { (2, 4, 6) }
}

/// The symbol that occupies win line `k` of board `s` completely, or `Empty`
/// when the line holds no three equal non-`Empty` symbols.
pub open spec fn line_winner(s: Seq<ItemSymbol>, k: int) -> ItemSymbol {
    let (a, b, c) = win_line(k);
    if s[a] != ItemSymbol::Empty && s[a] == s[b] && s[a] == s[c] { s[a] }
    else { ItemSymbol::Empty }
}

/// The winner found by scanning the win lines from `k` on: the symbol of the
/// first completed line, or `Empty` when no line from `k` on is complete.
pub open spec fn winner_from(s: Seq<ItemSymbol>, k: int) -> ItemSymbol
    decreases 8 - k,
{
    if k < 0 || k >= 8 { ItemSymbol::Empty }
    else if line_winner(s, k) != ItemSymbol::Empty { line_winner(s, k) }
    else { winner_from(s, k + 1) }
}

/// The winner of board `s`: the symbol of the first completed win line, rows
/// checked before columns before diagonals; `Empty` when no line is complete.
pub open spec fn winner(s: Seq<ItemSymbol>) -> ItemSymbol {
    winner_from(s, 0)
}

/// Lines before `k` decide nothing when none of them is complete.
proof fn lemma_winner_from_skip(s: Seq<ItemSymbol>, j: int, k: int)
    requires
        0 <= j <= k <= 8,
        forall|k2: int| j <= k2 < k ==> line_winner(s, k2) == ItemSymbol::Empty,
    ensures
        winner_from(s, j) == winner_from(s, k),
    decreases k - j,
{
    if j < k {
        lemma_winner_from_skip(s, j + 1, k);
    }
}

/// Winner detection finds a completed line: when win line `k` is filled with
/// the non-`Empty` symbol `sym` and every other completed line (if any) also
/// shows `sym`, the board's winner is `sym`.
pub proof fn lemma_winner_detects_line(s: Seq<ItemSymbol>, k: int, sym: ItemSymbol)
    requires
        0 <= k < 8,
        sym != ItemSymbol::Empty,
        line_winner(s, k) == sym,
        forall|k2: int| 0 <= k2 < 8 ==> line_winner(s, k2) == sym
            || line_winner(s, k2) == ItemSymbol::Empty,
    ensures
        winner(s) == sym,
{
    if line_winner(s, 0) == sym {
        assert(winner_from(s, 0) == sym);
    } else {
        assert(line_winner(s, 0) == ItemSymbol::Empty);
        assert(winner_from(s, 0) == winner_from(s, 1));
        lemma_winner_detects_line_from(s, 1, k, sym);
    }
}

/// The scan from `j` on reports `sym` when some line at or after `j` shows it
/// and no completed line shows anything else.
proof fn lemma_winner_detects_line_from(s: Seq<ItemSymbol>, j: int, k: int, sym: ItemSymbol)
    requires
        0 <= j <= k < 8,
        sym != ItemSymbol::Empty,
        line_winner(s, k) == sym,
        forall|k2: int| 0 <= k2 < 8 ==> line_winner(s, k2) == sym
            || line_winner(s, k2) == ItemSymbol::Empty,
    ensures
        winner_from(s, j) == sym,
    decreases 8 - j,
{
    if line_winner(s, j) == sym {
        assert(winner_from(s, j) == sym);
    } else {
        assert(line_winner(s, j) == ItemSymbol::Empty);
        assert(j < k);
        lemma_winner_detects_line_from(s, j + 1, k, sym);
    }
}

/// A board with no completed win line has no winner.
pub proof fn lemma_no_line_no_winner(s: Seq<ItemSymbol>)
    requires
        forall|k: int| 0 <= k < 8 ==> line_winner(s, k) == ItemSymbol::Empty,
    ensures
        winner(s) == ItemSymbol::Empty,
{
    lemma_winner_from_skip(s, 0, 8);
}

impl Engine {
    /// The board invariant: exactly nine cells.
    pub open spec fn wf(&self) -> bool {
        self@.len() == 9
    }

    /// Which cells the cursor rests on, as a sequence of nine flags.
    pub closed spec fn sel(&self) -> Seq<bool> {
        self.items@.map_values(|it: StateFullItem| it.state is Selected)
    }

    /// A fresh board: all nine cells `Empty`, the cursor on cell 0.
    pub fn new() -> (r: Engine)
        ensures
            r.wf(),
            forall|j: int| 0 <= j < 9 ==> r@[j] == ItemSymbol::Empty,
            r.sel().len() == 9,
            r.sel()[0] == true,
            forall|j: int| 1 <= j < 9 ==> r.sel()[j] == false,
    {
        let mut items: Vec<StateFullItem> = Vec::new();
        items.push(StateFullItem { symbol: ItemSymbol::Empty, state: ItemState::Selected });
        let mut k: usize = 1;
        while k < 9
            invariant
                1 <= k <= 9,
                items@.len() == k,
                items@[0] == (StateFullItem { symbol: ItemSymbol::Empty, state: ItemState::Selected }),
                forall|j: int| 1 <= j < k ==> items@[j]
                    == (StateFullItem { symbol: ItemSymbol::Empty, state: ItemState::Unselected }),
            decreases 9 - k,
        {
            items.push(StateFullItem { symbol: ItemSymbol::Empty, state: ItemState::Unselected });
            k += 1;
        }
        let r = Engine { items };
        proof {
            assert(forall|j: int| 0 <= j < 9 ==> r@[j] == ItemSymbol::Empty);
            assert(r.sel()[0] == true);
            assert(forall|j: int| 1 <= j < 9 ==> r.sel()[j] == false);
        }
        r
    }

    /// The symbol at `index`, for callers inside the crate that have already
    /// established the index is on the board.
    pub(crate) fn cell(&self, index: usize) -> (r: ItemSymbol)
        requires
            self.wf(),
            index < 9,
        ensures
            r == self@[index as int],
    {
        self.items[index].symbol
    }

    /// The symbol at `index`: the read-only per-cell query of the rendering
    /// layer. An index outside the board is a caller bug, surfaced as
    /// `InvalidIndex`.
    pub fn get_item_symbol(&self, index: usize) -> (r: Result<ItemSymbol, EngineError>)
        requires
            self.wf(),
        ensures
            index < 9 ==> r == Ok::<ItemSymbol, EngineError>(self@[index as int]),
            index >= 9 ==> r == Err::<ItemSymbol, EngineError>(EngineError::InvalidIndex),
    {
        if index < 9 {
            Ok(self.cell(index))
        } else {
            Err(EngineError::InvalidIndex)
        }
    }

    /// The three cell indices of win line `k`.
    fn line_cells(&self, k: usize) -> (r: (usize, usize, usize))
        requires
            k < 8,
        ensures
            (r.0 as int, r.1 as int, r.2 as int) == win_line(k as int),
            r.0 < 9 && r.1 < 9 && r.2 < 9,
    {
        match k {
            0 => (0, 1, 2),
            1 => (3, 4, 5),
            2 => (6, 7, 8),
            3 => (0, 3, 6),
            4 => (1, 4, 7),
            5 => (2, 5, 8),
            6 => (0, 4, 8),
            _ => (2, 4, 6),
        }
    }

    /// The symbol occupying a completed win line, rows checked before columns
    /// before diagonals; `Empty` when no line is complete.
    pub fn win(&self) -> (r: ItemSymbol)
        requires
            self.wf(),
        ensures
            r == winner(self@),
    {
        let mut k: usize = 0;
        while k < 8
            invariant
                self.wf(),
                k <= 8,
                forall|k2: int| 0 <= k2 < k ==> line_winner(self@, k2) == ItemSymbol::Empty,
            decreases 8 - k,
        {
            let (a, b, c) = self.line_cells(k);
            let sa = self.cell(a);
            if sa != ItemSymbol::Empty && sa == self.cell(b) && sa == self.cell(c) {
                proof {
                    assert(line_winner(self@, k as int) == sa);
                    lemma_winner_from_skip(self@, 0, k as int);
                }
                return sa;
            }
            proof {
                assert(line_winner(self@, k as int) == ItemSymbol::Empty);
            }
            k += 1;
        }
        proof {
            lemma_no_line_no_winner(self@);
        }
        ItemSymbol::Empty
    }

    /// True exactly when some win line is complete.
    pub fn check_win(&self) -> (r: bool)
        requires
            self.wf(),
        ensures
            r == (winner(self@) != ItemSymbol::Empty),
    {
        self.win() != ItemSymbol::Empty
    }

    /// Places `symbol` at `index`: an unconditional overwrite of that cell.
    /// Legality (the cell being empty) is the caller's business; the cursor
    /// and every other cell are untouched.
    pub fn set_item_symbol(&mut self, index: usize, symbol: ItemSymbol)
        requires
            old(self).wf(),
            index < 9,
        ensures
            final(self).wf(),
            final(self)@ == old(self)@.update(index as int, symbol),
            final(self).sel() == old(self).sel(),
    {
        let it = self.items[index];
        self.items.set(index, StateFullItem { symbol: symbol, state: it.state });
        proof {
            assert(self@ =~= old(self)@.update(index as int, symbol));
            assert(self.sel() =~= old(self).sel());
        }
    }

    /// Moves the cursor to `index`: afterwards that cell alone is selected.
    /// The symbols are untouched.
    pub fn select_item(&mut self, index: usize)
        requires
            old(self).wf(),
            index < 9,
        ensures
            final(self).wf(),
            final(self)@ == old(self)@,
            final(self).sel().len() == 9,
            forall|j: int| 0 <= j < 9 ==> final(self).sel()[j] == (j == index as int),
    {
        let mut j: usize = 0;
        while j < 9
            invariant
                self.wf(),
                index < 9,
                j <= 9,
                self@ == old(self)@,
                self.sel().len() == 9,
                forall|t: int| 0 <= t < j ==> self.sel()[t] == (t == index as int),
            decreases 9 - j,
        {
            let ghost prev = *self;
            let it = self.items[j];
            let state = if j == index { ItemState::Selected } else { ItemState::Unselected };
            self.items.set(j, StateFullItem { symbol: it.symbol, state: state });
            proof {
                assert(self@ =~= prev@);
                assert(self.sel() =~= prev.sel().update(j as int, j == index));
            }
            j += 1;
        }
    }

    /// The symbol of the cell the cursor rests on, or `None` when no cell is
    /// selected. When several cells are marked, the lowest index wins.
    pub fn get_selected_item_symbol(&self) -> (r: Option<ItemSymbol>)
        requires
            self.wf(),
        ensures
            first_selected(self.sel(), 0) < 9
                ==> r == Some(self@[first_selected(self.sel(), 0)]),
            first_selected(self.sel(), 0) == 9 ==> r is None,
    {
        proof {
            assert(self.sel().len() == 9);
        }
        let mut j: usize = 0;
        while j < 9
            invariant
                self.wf(),
                j <= 9,
                self.sel().len() == 9,
                first_selected(self.sel(), 0) == first_selected(self.sel(), j as int),
            decreases 9 - j,
        {
            let it = self.items[j];
            match it.state {
                ItemState::Selected => {
                    proof {
                        assert(self.sel()[j as int]);
                        assert(first_selected(self.sel(), j as int) == j);
                    }
                    return Some(it.symbol);
                },
                ItemState::Unselected => {
                    proof {
                        assert(!self.sel()[j as int]);
                    }
                },
            }
            j += 1;
        }
        None
    }

    /// The indices of all currently empty cells, in ascending order,
    /// recomputed fresh on each call.
    pub fn get_empty_items(&self) -> (r: Vec<usize>)
        requires
            self.wf(),
        ensures
            forall|k: int| 0 <= k < r@.len()
                ==> (#[trigger] r@[k]) < 9 && self@[r@[k] as int] == ItemSymbol::Empty,
            forall|k1: int, k2: int| 0 <= k1 < k2 < r@.len() ==> r@[k1] < r@[k2],
            forall|j: int| 0 <= j < 9 && self@[j] == ItemSymbol::Empty
                ==> r@.contains(j as usize),
    {
        let ghost s = self@;
        let mut r: Vec<usize> = Vec::new();
        let mut i: usize = 0;
        while i < 9
            invariant
                self.wf(),
                s == self@,
                i <= 9,
                forall|k: int| 0 <= k < r@.len()
                    ==> (#[trigger] r@[k]) < i && s[r@[k] as int] == ItemSymbol::Empty,
                forall|k1: int, k2: int| 0 <= k1 < k2 < r@.len() ==> r@[k1] < r@[k2],
                forall|j: int| 0 <= j < i && s[j] == ItemSymbol::Empty
                    ==> r@.contains(j as usize),
            decreases 9 - i,
        {
            let ghost prev = r@;
            if self.cell(i) == ItemSymbol::Empty {
                r.push(i);
                proof {
                    assert forall|j: int| 0 <= j < i + 1 && s[j] == ItemSymbol::Empty
                        implies r@.contains(j as usize) by {
                        if j < i {
                            let k = choose|k: int| 0 <= k < prev.len() && prev[k] == j as usize;
                            assert(r@[k] == j as usize);
                        } else {
                            assert(r@[r@.len() - 1] == i);
                        }
                    }
                }
            }
            i += 1;
        }
        r
    }
}

/// The lowest index at or after `i` whose flag is set, or 9 when none is.
pub open spec fn first_selected(sel: Seq<bool>, i: int) -> int
    decreases 9 - i,
{
    if i < 0 || i >= 9 { 9 }
    else if sel[i] { i }
    else { first_selected(sel, i + 1) }
}

impl Clone for Engine {
    /// A deep, independent copy: the clone shows the same nine symbols and
    /// the same cursor as the original and shares no storage with it, so
    /// later mutation of either board never affects the other.
    fn clone(&self) -> (r: Self)
        ensures
            r@ == self@,
            r.sel() == self.sel(),
            self.wf() ==> r.wf(),
    {
        let mut items: Vec<StateFullItem> = Vec::new();
        let mut k: usize = 0;
        while k < self.items.len()
            invariant
                k <= self.items@.len(),
                items@ == self.items@.subrange(0, k as int),
            decreases self.items@.len() - k,
        {
            items.push(self.items[k]);
            proof {
                assert(items@ =~= self.items@.subrange(0, k as int + 1));
            }
            k += 1;
        }
        let r = Engine { items: items };
        proof {
            assert(r.items@ =~= self.items@);
            assert(r@ =~= self@);
            assert(r.sel() =~= self.sel());
        }
        r
    }
}

/// Mutating a copied board changes the copy alone: placing `symbol` at
/// `index` on a copy whose cells equal the original's yields a board that
/// shows `symbol` there, while every cell of the original, `index` included,
/// still holds what it held before.
pub proof fn lemma_clone_isolation(
    original: Seq<ItemSymbol>,
    copy: Seq<ItemSymbol>,
    index: int,
    symbol: ItemSymbol,
)
    requires
        copy == original,
        original.len() == 9,
        0 <= index < 9,
    ensures
        copy.update(index, symbol)[index] == symbol,
        forall|j: int| 0 <= j < 9 && j != index
            ==> copy.update(index, symbol)[j] == original[j],
        original[index] == copy[index],
{
}

} // verus!
