use ptree::TreeBuilder;
use tictactoe::{Board, Evaluation, Size, Tile, Turn};

fn empty_board(w: usize, h: usize) -> Board {
    Board::new(Size::new(w, h), None)
}

#[test]
fn search_on_one_cell_board_is_a_fastest_loss() {
    // the minimizer acts first at the root, fills the sole cell, and wins
    let mut board = empty_board(1, 1);
    let (evaluation, tree) = Evaluation::game(&mut board, Some(2), false);
    assert_eq!(evaluation.result, isize::MIN + 1);
    assert_eq!(evaluation.get(0), Some(&Turn::new(0, 0, Tile::X)));
    assert!(tree.is_none());
}

#[test]
fn search_at_depth_zero_reports_a_draw() {
    let mut board = empty_board(2, 2);
    let (evaluation, _) = Evaluation::game(&mut board, Some(0), false);
    assert_eq!(evaluation.result, 0);
    assert_eq!(evaluation.get(0), None);
}

#[test]
fn search_completes_an_open_line() {
    // O O _      O to move completes the top row at (2, 0)
    // X X _
    // _ _ _
    let mut board = empty_board(3, 3);
    for turn in [
        Turn::new(0, 0, Tile::O),
        Turn::new(0, 1, Tile::X),
        Turn::new(1, 0, Tile::O),
        Turn::new(1, 1, Tile::X),
    ] {
        board = board.play(turn).expect("legal move");
    }
    let mut tree = TreeBuilder::new(String::from("start"));
    let evaluation = Evaluation::game_inner(&mut board, &mut tree, false, true, 9);
    assert_eq!(evaluation.result, isize::MAX - 5);
    assert_eq!(evaluation.get(4), Some(&Turn::new(2, 0, Tile::O)));
}

#[test]
fn search_blocks_where_it_cannot_win() {
    // O O _      X to move must take (2, 0), else O wins next ply
    // X _ _
    // _ _ _
    let mut board = empty_board(3, 3);
    for turn in [
        Turn::new(0, 0, Tile::O),
        Turn::new(0, 1, Tile::X),
        Turn::new(1, 0, Tile::O),
    ] {
        board = board.play(turn).expect("legal move");
    }
    let (evaluation, _) = Evaluation::game(&mut board, Some(10), false);
    assert_eq!(evaluation.get(3), Some(&Turn::new(2, 0, Tile::X)));
}

#[test]
fn perfect_game_from_empty_board_is_a_draw() {
    let mut board = empty_board(3, 3);
    let (evaluation, _) = Evaluation::game(&mut board, Some(10), false);
    assert_eq!(evaluation.result, 0);
}

#[test]
fn optimal_playout_fills_the_board_and_draws() {
    let mut board = empty_board(3, 3);
    let mut is_o = true;
    while board.evaluate().is_none() {
        let mut tree = TreeBuilder::new(String::from("start"));
        let evaluation = Evaluation::game_inner(&mut board, &mut tree, false, is_o, 10);
        assert_eq!(evaluation.result, 0);
        let index = board.trace().len() as usize;
        let turn = *evaluation.get(index).expect("a further move");
        board = board.play(turn).expect("legal move");
        is_o = !is_o;
    }
    assert!(board.is_filled());
    assert_eq!(board.evaluate().expect("terminal").result, 0);
}

#[test]
fn printed_search_returns_the_tree_of_boards() {
    let mut board = empty_board(1, 1);
    let root_label = board.current_position();
    let (evaluation, tree) = Evaluation::game(&mut board, Some(2), true);
    assert_eq!(evaluation.result, isize::MIN + 1);
    let item = tree.expect("a tree was asked for");
    assert_eq!(item.text, root_label);
    assert_eq!(item.children.len(), 1);
    assert_eq!(item.children[0].text, root_label);
    assert_eq!(item.children[0].children.len(), 1);
    assert_eq!(item.children[0].children[0].text, "\n X");
}
