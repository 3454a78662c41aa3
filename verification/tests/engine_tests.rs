use tictactoe::engine::{Engine, EngineError, ItemSymbol};

const LINES: [[usize; 3]; 8] = [
    [0, 1, 2],
    [3, 4, 5],
    [6, 7, 8],
    [0, 3, 6],
    [1, 4, 7],
    [2, 5, 8],
    [0, 4, 8],
    [2, 4, 6],
];

fn board_from(cells: [ItemSymbol; 9]) -> Engine {
    let mut e = Engine::new();
    for (i, c) in cells.iter().enumerate() {
        e.set_item_symbol(i, *c);
    }
    e
}

fn symbols_of(e: &Engine) -> Vec<ItemSymbol> {
    (0..9).map(|i| e.get_item_symbol(i).unwrap()).collect()
}

#[test]
fn fresh_board_is_empty_with_cursor_on_zero() {
    let e = Engine::new();
    for i in 0..9 {
        assert_eq!(e.get_item_symbol(i), Ok(ItemSymbol::Empty));
    }
    assert_eq!(e.win(), ItemSymbol::Empty);
    assert!(!e.check_win());
    assert_eq!(e.get_empty_items(), vec![0, 1, 2, 3, 4, 5, 6, 7, 8]);
    assert_eq!(e.get_selected_item_symbol(), Some(ItemSymbol::Empty));
}

#[test]
fn winner_found_on_each_line_for_x() {
    for line in LINES {
        let mut e = Engine::new();
        for i in line {
            e.set_item_symbol(i, ItemSymbol::X);
        }
        assert_eq!(e.win(), ItemSymbol::X, "line {:?}", line);
        assert!(e.check_win());
    }
}

#[test]
fn winner_found_on_each_line_for_o() {
    for line in LINES {
        let mut e = Engine::new();
        for i in line {
            e.set_item_symbol(i, ItemSymbol::O);
        }
        assert_eq!(e.win(), ItemSymbol::O, "line {:?}", line);
        assert!(e.check_win());
    }
}

#[test]
fn winner_found_on_mixed_board() {
    // Row 1 is all X; the rest is occupied but aligns nowhere.
    let e = board_from([
        ItemSymbol::O,
        ItemSymbol::Empty,
        ItemSymbol::O,
        ItemSymbol::X,
        ItemSymbol::X,
        ItemSymbol::X,
        ItemSymbol::Empty,
        ItemSymbol::O,
        ItemSymbol::Empty,
    ]);
    assert_eq!(e.win(), ItemSymbol::X);
}

#[test]
fn no_winner_on_empty_or_nonaligned_board() {
    let e = Engine::new();
    assert_eq!(e.win(), ItemSymbol::Empty);
    // A full board where no line is uniform: a genuine draw.
    let draw = board_from([
        ItemSymbol::X,
        ItemSymbol::O,
        ItemSymbol::X,
        ItemSymbol::X,
        ItemSymbol::O,
        ItemSymbol::O,
        ItemSymbol::O,
        ItemSymbol::X,
        ItemSymbol::X,
    ]);
    assert_eq!(draw.win(), ItemSymbol::Empty);
    assert!(!draw.check_win());
}

#[test]
fn rows_are_checked_before_columns() {
    // Row 0 is all X and row 2 all O: the scan meets row 0 first.
    let e = board_from([
        ItemSymbol::X,
        ItemSymbol::X,
        ItemSymbol::X,
        ItemSymbol::Empty,
        ItemSymbol::Empty,
        ItemSymbol::Empty,
        ItemSymbol::O,
        ItemSymbol::O,
        ItemSymbol::O,
    ]);
    assert_eq!(e.win(), ItemSymbol::X);
}

#[test]
fn empty_items_track_placements_in_ascending_order() {
    let mut e = Engine::new();
    e.set_item_symbol(4, ItemSymbol::X);
    e.set_item_symbol(0, ItemSymbol::O);
    e.set_item_symbol(8, ItemSymbol::X);
    assert_eq!(e.get_empty_items(), vec![1, 2, 3, 5, 6, 7]);
    // Overwriting an occupied cell never duplicates or removes others.
    e.set_item_symbol(4, ItemSymbol::O);
    assert_eq!(e.get_empty_items(), vec![1, 2, 3, 5, 6, 7]);
}

#[test]
fn place_overwrites_one_cell_and_keeps_the_rest() {
    let mut e = Engine::new();
    e.set_item_symbol(3, ItemSymbol::O);
    e.set_item_symbol(3, ItemSymbol::X);
    assert_eq!(e.get_item_symbol(3), Ok(ItemSymbol::X));
    for i in 0..9 {
        if i != 3 {
            assert_eq!(e.get_item_symbol(i), Ok(ItemSymbol::Empty));
        }
    }
}

#[test]
fn cell_query_rejects_out_of_range_index() {
    let e = Engine::new();
    assert_eq!(e.get_item_symbol(9), Err(EngineError::InvalidIndex));
    assert_eq!(e.get_item_symbol(usize::MAX), Err(EngineError::InvalidIndex));
    assert_eq!(e.get_item_symbol(8), Ok(ItemSymbol::Empty));
}

#[test]
fn cursor_moves_and_reads_the_selected_cell() {
    let mut e = Engine::new();
    e.set_item_symbol(4, ItemSymbol::O);
    e.select_item(4);
    assert_eq!(e.get_selected_item_symbol(), Some(ItemSymbol::O));
    e.select_item(5);
    assert_eq!(e.get_selected_item_symbol(), Some(ItemSymbol::Empty));
    // Moving the cursor never touches the symbols.
    assert_eq!(e.get_item_symbol(4), Ok(ItemSymbol::O));
}

#[test]
fn clone_isolation_mutating_the_copy() {
    let mut original = Engine::new();
    original.set_item_symbol(0, ItemSymbol::X);
    let before = symbols_of(&original);
    let mut copy = original.clone();
    assert_eq!(symbols_of(&copy), before);
    copy.set_item_symbol(0, ItemSymbol::O);
    copy.set_item_symbol(5, ItemSymbol::O);
    // The original still holds what it held before, at every index.
    assert_eq!(symbols_of(&original), before);
    assert_eq!(copy.get_item_symbol(0), Ok(ItemSymbol::O));
}

#[test]
fn clone_isolation_mutating_the_original() {
    let mut original = Engine::new();
    let copy = original.clone();
    original.set_item_symbol(7, ItemSymbol::X);
    assert_eq!(copy.get_item_symbol(7), Ok(ItemSymbol::Empty));
}
