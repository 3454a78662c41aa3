//! The search: depth-limited minimax with alpha-beta pruning over private
//! copies of the board. Scoring is always from the point of view of one fixed
//! symbol, the maximizer reference; the side to move is passed explicitly
//! through every recursive call.

use vstd::prelude::*;
use crate::engine::{Engine, EngineError, ItemSymbol, winner};

verus! {

/// The fixed symbol whose viewpoint the evaluation always scores from.
pub const MAXIMIZER_REFERENCE: ItemSymbol = ItemSymbol::X;

/// The score a side starts from when maximizing: below every reachable value.
pub const MIN_SCORE: i32 = -1000;

/// The score a side starts from when minimizing: above every reachable value.
pub const MAX_SCORE: i32 = 1000;

/// The symbol that moves after `player` in the two-symbol alternation.
pub open spec fn opponent(player: ItemSymbol) -> ItemSymbol {
    if player == MAXIMIZER_REFERENCE { ItemSymbol::O } else { MAXIMIZER_REFERENCE }
}

/// Whether `player` is the side that maximizes the evaluation.
pub open spec fn maximizing(player: ItemSymbol) -> bool {
    player == MAXIMIZER_REFERENCE
}

/// Whether score `a` is strictly better than score `b` for `player`.
pub open spec fn better_for(player: ItemSymbol, a: int, b: int) -> bool {
    if maximizing(player) { a > b } else { a < b }
}

/// The better of the two scores for `player`; the incumbent wins ties.
pub open spec fn pick_best(player: ItemSymbol, challenger: int, incumbent: int) -> int {
    if better_for(player, challenger, incumbent) { challenger } else { incumbent }
}

/// The terminal evaluation of a board from `player`'s point of view:
/// 1 when `player` has won, 0 when nobody has, -1 when the other side has.
pub open spec fn score_for(s: Seq<ItemSymbol>, player: ItemSymbol) -> int {
    if winner(s) == player { 1 } else if winner(s) == ItemSymbol::Empty { 0 } else { -1 }
}

/// The terminal evaluation from the maximizer reference's point of view.
pub open spec fn evaluate_position(s: Seq<ItemSymbol>) -> int {
    score_for(s, MAXIMIZER_REFERENCE)
}

/// The exhaustive (unpruned) minimax value of board `s` with `player` to
/// move and `depth` plies left: the terminal evaluation when the depth is
/// exhausted or the board is decided, else the best value over all empty
/// cells, each child searched one ply shallower with the opposite symbol.
pub open spec fn minimax(s: Seq<ItemSymbol>, player: ItemSymbol, depth: nat) -> int
    decreases depth, 0int,
{
    if depth == 0 || winner(s) != ItemSymbol::Empty {
        evaluate_position(s)
    } else {
        minimax_from(s, player, (depth - 1) as nat, 0)
    }
}

/// The best value for `player` over the empty cells with index at or after
/// `i`, each child searched to `child_depth`; the starting extreme when no
/// such cell is left.
pub open spec fn minimax_from(
    s: Seq<ItemSymbol>,
    player: ItemSymbol,
    child_depth: nat,
    i: int,
) -> int
    decreases child_depth, 10 - i,
{
    if i < 0 || i >= 9 {
        if maximizing(player) { MIN_SCORE as int } else { MAX_SCORE as int }
    } else if s[i] == ItemSymbol::Empty {
        pick_best(
            player,
            minimax(s.update(i, player), opponent(player), child_depth),
            minimax_from(s, player, child_depth, i + 1),
        )
    } else {
        minimax_from(s, player, child_depth, i + 1)
    }
}

/// The best value for `player` over the empty cells with index below `i`:
/// what a left-to-right scan has gathered when it stands at `i`.
pub open spec fn minimax_upto(
    s: Seq<ItemSymbol>,
    player: ItemSymbol,
    child_depth: nat,
    i: int,
) -> int
    decreases i,
{
    if i <= 0 {
        if maximizing(player) { MIN_SCORE as int } else { MAX_SCORE as int }
    } else if s[i - 1] == ItemSymbol::Empty {
        pick_best(
            player,
            minimax(s.update(i - 1, player), opponent(player), child_depth),
            minimax_upto(s, player, child_depth, i - 1),
        )
    } else {
        minimax_upto(s, player, child_depth, i - 1)
    }
}

/// Every minimax value lies between the two starting extremes.
pub proof fn lemma_minimax_bounds(s: Seq<ItemSymbol>, player: ItemSymbol, depth: nat)
    ensures
        MIN_SCORE <= minimax(s, player, depth) <= MAX_SCORE,
    decreases depth, 0int,
{
    if depth == 0 || winner(s) != ItemSymbol::Empty {
    } else {
        lemma_minimax_from_bounds(s, player, (depth - 1) as nat, 0);
    }
}

/// The fold over the remaining cells stays between the two extremes.
pub proof fn lemma_minimax_from_bounds(
    s: Seq<ItemSymbol>,
    player: ItemSymbol,
    child_depth: nat,
    i: int,
)
    ensures
        MIN_SCORE <= minimax_from(s, player, child_depth, i) <= MAX_SCORE,
    decreases child_depth, 10 - i,
{
    if i < 0 || i >= 9 {
    } else if s[i] == ItemSymbol::Empty {
        lemma_minimax_bounds(s.update(i, player), opponent(player), child_depth);
        lemma_minimax_from_bounds(s, player, child_depth, i + 1);
    } else {
        lemma_minimax_from_bounds(s, player, child_depth, i + 1);
    }
}

/// The fold over the scanned prefix stays between the two extremes.
pub proof fn lemma_minimax_upto_bounds(
    s: Seq<ItemSymbol>,
    player: ItemSymbol,
    child_depth: nat,
    i: int,
)
    ensures
        MIN_SCORE <= minimax_upto(s, player, child_depth, i) <= MAX_SCORE,
    decreases i,
{
    if i <= 0 {
    } else if s[i - 1] == ItemSymbol::Empty {
        lemma_minimax_bounds(s.update(i - 1, player), opponent(player), child_depth);
        lemma_minimax_upto_bounds(s, player, child_depth, i - 1);
    } else {
        lemma_minimax_upto_bounds(s, player, child_depth, i - 1);
    }
}

/// A left-to-right scan splits the exhaustive fold: the better of (best over
/// cells below `i`, best over cells at or after `i`) is the best over all
/// cells.
pub proof fn lemma_minimax_split(
    s: Seq<ItemSymbol>,
    player: ItemSymbol,
    child_depth: nat,
    i: int,
)
    requires
        0 <= i <= 9,
    ensures
        pick_best(
            player,
            minimax_upto(s, player, child_depth, i),
            minimax_from(s, player, child_depth, i),
        ) == minimax_from(s, player, child_depth, 0),
    decreases i,
{
    if i == 0 {
        lemma_minimax_from_bounds(s, player, child_depth, 0);
    } else {
        lemma_minimax_split(s, player, child_depth, i - 1);
        assert(minimax_from(s, player, child_depth, i - 1) == if s[i - 1] == ItemSymbol::Empty {
            pick_best(
                player,
                minimax(s.update(i - 1, player), opponent(player), child_depth),
                minimax_from(s, player, child_depth, i),
            )
        } else {
            minimax_from(s, player, child_depth, i)
        });
    }
}

/// Pruning is sound: any result that meets the alpha-beta contract of
/// [`compute_score`] over the full window equals the exhaustive (unpruned)
/// minimax value of the same board, side and depth — pruning never changes
/// the score.
pub proof fn lemma_full_window_is_exact(
    s: Seq<ItemSymbol>,
    player: ItemSymbol,
    depth: nat,
    r: int,
)
    requires
        MIN_SCORE <= r <= MAX_SCORE,
        r <= MIN_SCORE ==> minimax(s, player, depth) <= r,
        r >= MAX_SCORE ==> minimax(s, player, depth) >= r,
        MIN_SCORE < r < MAX_SCORE ==> r == minimax(s, player, depth),
    ensures
        r == minimax(s, player, depth),
{
    lemma_minimax_bounds(s, player, depth);
}

/// The value for `player` of placing at cell `j` and searching the reply to
/// `child_depth` plies: what the root compares between candidate moves.
pub open spec fn candidate_score(
    s: Seq<ItemSymbol>,
    player: ItemSymbol,
    child_depth: nat,
    j: int,
) -> int {
    minimax(s.update(j, player), opponent(player), child_depth)
}

/// The terminal evaluation of the board from `player`'s point of view.
fn evaluate(engine: &Engine, player: ItemSymbol) -> (r: i32)
    requires
        engine.wf(),
    ensures
        r as int == score_for(engine@, player),
{
    let w = engine.win();
    if w == player {
        1
    } else if w == ItemSymbol::Empty {
        0
    } else {
        -1
    }
}

/// Alpha-beta search. The result `r` relates to the exhaustive minimax value
/// `v` of the same board, side and depth in the fail-soft way: inside the
/// window `r` equals `v` exactly; at or below `alpha` it bounds `v` from
/// above; at or above `beta` it bounds `v` from below. With the full window
/// the result therefore equals the unpruned value.
#[verifier::loop_isolation(false)]
pub fn compute_score(
    engine: &Engine,
    player: ItemSymbol,
    depth: u8,
    alpha: i32,
    beta: i32,
) -> (r: i32)
    requires
        engine.wf(),
        player != ItemSymbol::Empty,
        MIN_SCORE <= alpha < beta <= MAX_SCORE,
    ensures
        MIN_SCORE <= r <= MAX_SCORE,
        r <= alpha ==> minimax(engine@, player, depth as nat) <= r as int,
        r >= beta ==> minimax(engine@, player, depth as nat) >= r as int,
        alpha < r < beta ==> r as int == minimax(engine@, player, depth as nat),
    decreases depth,
{
    let w = engine.win();
    if depth == 0 || w != ItemSymbol::Empty {
        return evaluate(engine, MAXIMIZER_REFERENCE);
    }
    let ghost s = engine@;
    let ghost cd = (depth - 1) as nat;
    proof {
        assert(minimax(s, player, depth as nat) == minimax_from(s, player, cd, 0));
        lemma_minimax_split(s, player, cd, 0);
        lemma_minimax_upto_bounds(s, player, cd, 0);
    }
    let mut best: i32 = if player == MAXIMIZER_REFERENCE { MIN_SCORE } else { MAX_SCORE };
    let mut a = alpha;
    let mut b = beta;
    let mut pruned = false;
    let mut i: usize = 0;
    while i < 9 && !pruned
        invariant
            i <= 9,
            MIN_SCORE <= best <= MAX_SCORE,
            !pruned ==> a < b,
            maximizing(player) ==> b == beta && a == (if best > alpha { best } else { alpha }),
            !maximizing(player) ==> a == alpha && b == (if best < beta { best } else { beta }),
            !pruned && maximizing(player) && best <= alpha
                ==> minimax_upto(s, player, cd, i as int) <= best as int,
            !pruned && maximizing(player) && best > alpha
                ==> best as int == minimax_upto(s, player, cd, i as int),
            !pruned && !maximizing(player) && best >= beta
                ==> minimax_upto(s, player, cd, i as int) >= best as int,
            !pruned && !maximizing(player) && best < beta
                ==> best as int == minimax_upto(s, player, cd, i as int),
            pick_best(
                player,
                minimax_upto(s, player, cd, i as int),
                minimax_from(s, player, cd, i as int),
            ) == minimax_from(s, player, cd, 0),
            MIN_SCORE <= minimax_upto(s, player, cd, i as int) <= MAX_SCORE,
            pruned && maximizing(player)
                ==> best >= beta && minimax_from(s, player, cd, 0) >= best as int,
            pruned && !maximizing(player)
                ==> best <= alpha && minimax_from(s, player, cd, 0) <= best as int,
        decreases 9 - i,
    {
        let sym = engine.cell(i);
        if sym == ItemSymbol::Empty {
            let mut child = engine.clone();
            child.set_item_symbol(i, player);
            let opp = if player == MAXIMIZER_REFERENCE { ItemSymbol::O } else { MAXIMIZER_REFERENCE };
            let sc = compute_score(&child, opp, depth - 1, a, b);
            let ghost v = minimax(s.update(i as int, player), opponent(player), cd);
            proof {
                assert(child@ == s.update(i as int, player));
                lemma_minimax_bounds(s.update(i as int, player), opponent(player), cd);
            }
            if (player == MAXIMIZER_REFERENCE && sc > best)
                || (player != MAXIMIZER_REFERENCE && sc < best) {
                best = sc;
            }
            if player == MAXIMIZER_REFERENCE {
                if best > a {
                    a = best;
                }
            } else {
                if best < b {
                    b = best;
                }
            }
            proof {
                lemma_minimax_split(s, player, cd, i as int + 1);
                lemma_minimax_upto_bounds(s, player, cd, i as int + 1);
                assert(minimax_upto(s, player, cd, i as int + 1)
                    == pick_best(player, v, minimax_upto(s, player, cd, i as int)));
            }
            if b <= a {
                proof {
                    if maximizing(player) {
                        assert(best >= beta);
                        assert(v >= sc as int);
                        assert(minimax_from(s, player, cd, 0)
                            >= minimax_upto(s, player, cd, i as int + 1));
                    } else {
                        assert(best <= alpha);
                        assert(v <= sc as int);
                        assert(minimax_from(s, player, cd, 0)
                            <= minimax_upto(s, player, cd, i as int + 1));
                    }
                }
                pruned = true;
            }
        }
        i += 1;
    }
    proof {
        if !pruned {
            assert(i == 9);
            assert(minimax_from(s, player, cd, 9) == if maximizing(player) {
                MIN_SCORE as int
            } else {
                MAX_SCORE as int
            });
        }
    }
    best
}

/// The optimal move for `player` on the given board: the first empty cell
/// (in ascending order) whose candidate score no other empty cell strictly
/// beats for `player`; `NoMoveAvailable` exactly when no cell is empty. The
/// board itself is never mutated: all exploration happens on private copies.
#[verifier::loop_isolation(false)]
pub fn compute_best_move(engine: &Engine, player: ItemSymbol, depth: u8) -> (r: Result<
    usize,
    EngineError,
>)
    requires
        engine.wf(),
        player != ItemSymbol::Empty,
        depth >= 1,
    ensures
        (r is Ok) <==> (exists|j: int| 0 <= j < 9 && engine@[j] == ItemSymbol::Empty),
        (match r {
            Ok(m) => m < 9 && engine@[m as int] == ItemSymbol::Empty
                && (forall|j: int| 0 <= j < 9 && engine@[j] == ItemSymbol::Empty
                    ==> !better_for(
                        player,
                        candidate_score(engine@, player, (depth - 1) as nat, j),
                        candidate_score(engine@, player, (depth - 1) as nat, m as int),
                    ))
                && (forall|j: int| 0 <= j < m as int && engine@[j] == ItemSymbol::Empty
                    ==> better_for(
                        player,
                        candidate_score(engine@, player, (depth - 1) as nat, m as int),
                        candidate_score(engine@, player, (depth - 1) as nat, j),
                    )),
            Err(e) => e == EngineError::NoMoveAvailable
                && (forall|j: int| 0 <= j < 9 ==> engine@[j] != ItemSymbol::Empty),
        }),
{
    let ghost s = engine@;
    let ghost cd = (depth - 1) as nat;
    let mut best: i32 = if player == MAXIMIZER_REFERENCE { MIN_SCORE } else { MAX_SCORE };
    let mut found = false;
    let mut mv: usize = 0;
    let mut i: usize = 0;
    while i < 9
        invariant
            i <= 9,
            !found ==> forall|j: int| 0 <= j < i ==> s[j] != ItemSymbol::Empty,
            found ==> mv < i && s[mv as int] == ItemSymbol::Empty,
            found ==> best as int == candidate_score(s, player, cd, mv as int),
            found ==> MIN_SCORE <= best <= MAX_SCORE,
            found ==> forall|j: int| 0 <= j < i && s[j] == ItemSymbol::Empty
                ==> !better_for(player, candidate_score(s, player, cd, j), best as int),
            found ==> forall|j: int| 0 <= j < mv as int && s[j] == ItemSymbol::Empty
                ==> better_for(player, best as int, candidate_score(s, player, cd, j)),
        decreases 9 - i,
    {
        let sym = engine.cell(i);
        if sym == ItemSymbol::Empty {
            let mut child = engine.clone();
            child.set_item_symbol(i, player);
            let opp = if player == MAXIMIZER_REFERENCE { ItemSymbol::O } else { MAXIMIZER_REFERENCE };
            let sc = compute_score(&child, opp, depth - 1, MIN_SCORE, MAX_SCORE);
            proof {
                assert(child@ == s.update(i as int, player));
                lemma_minimax_bounds(s.update(i as int, player), opponent(player), cd);
                assert(sc as int == candidate_score(s, player, cd, i as int));
            }
            if !found
                || (player == MAXIMIZER_REFERENCE && sc > best)
                || (player != MAXIMIZER_REFERENCE && sc < best) {
                best = sc;
                mv = i;
                found = true;
            }
        }
        i += 1;
    }
    if found {
        proof {
            assert(s[mv as int] == ItemSymbol::Empty);
        }
        Ok(mv)
    } else {
        Err(EngineError::NoMoveAvailable)
    }
}

} // verus!
