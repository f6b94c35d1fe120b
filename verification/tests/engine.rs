use tictactoe::{Board, Evaluation, Position, Prune, Size, Tile, Trace, Turn};

fn empty_board(w: usize, h: usize) -> Board {
    Board::new(Size::new(w, h), None)
}

#[test]
fn tile_from_bool_picks_side() {
    assert_eq!(Tile::from_bool(true), Tile::O);
    assert_eq!(Tile::from_bool(false), Tile::X);
}

#[test]
fn size_max_depth_is_cells_plus_one() {
    for n in 1..=4usize {
        assert_eq!(Size::new(n, n).max_depth(), n * n + 1);
    }
    assert_eq!(Size::new(2, 3).max_depth(), 7);
    assert_eq!(empty_board(3, 3).max_depth(), 10);
}

#[test]
fn size_is_between_checks_both_coordinates() {
    let size = Size::new(2, 3);
    assert!(size.is_between(&Turn::new(1, 2, Tile::O)));
    assert!(!size.is_between(&Turn::new(2, 0, Tile::O)));
    assert!(!size.is_between(&Turn::new(0, 3, Tile::O)));
}

#[test]
fn size_indices_are_row_major() {
    let indices = Size::new(2, 2).indices();
    assert_eq!(indices, vec![(0, 0), (1, 0), (0, 1), (1, 1)]);
    assert_eq!(Size::new(3, 2).indices().len(), 6);
}

#[test]
fn trace_push_len_get() {
    let mut trace = Trace::new();
    assert_eq!(trace.len(), 0);
    trace.push(Turn::new(1, 0, Tile::O));
    trace.push(Turn::new(0, 1, Tile::X));
    assert_eq!(trace.len(), 2);
    assert_eq!(trace.get(0), Some(&Turn::new(1, 0, Tile::O)));
    assert_eq!(trace.get(1), Some(&Turn::new(0, 1, Tile::X)));
    assert_eq!(trace.get(2), None);
}

#[test]
fn position_set_and_get() {
    let mut position = Position::new(Size::new(2, 2));
    assert_eq!(position.get(Turn::new(1, 1, Tile::O)), Tile::Empty);
    position.set(Turn::new(1, 1, Tile::O));
    assert_eq!(position.get(Turn::new(1, 1, Tile::O)), Tile::O);
    assert_eq!(position.get(Turn::new(0, 1, Tile::O)), Tile::Empty);
}

#[test]
fn prune_raises_both_thresholds_with_max() {
    let mut p = Prune::new();
    assert_eq!(p.alpha, isize::MIN);
    assert_eq!(p.beta, isize::MAX);
    p.apply(&Evaluation::new(5, Trace::new()), true);
    assert_eq!(p.alpha, 5);
    p.apply(&Evaluation::new(3, Trace::new()), true);
    assert_eq!(p.alpha, 5);
    // the beta side also uses max: a fresh beta never comes down
    p.apply(&Evaluation::new(3, Trace::new()), false);
    assert_eq!(p.beta, isize::MAX);

    let mut low = Prune { alpha: 0, beta: 0 };
    low.apply(&Evaluation::new(5, Trace::new()), false);
    assert_eq!(low.beta, 5);
    assert!(low.is_pruning(&Evaluation::new(7, Trace::new()), true));
    assert!(!low.is_pruning(&Evaluation::new(5, Trace::new()), true));
    assert!(!low.is_pruning(&Evaluation::new(1, Trace::new()), false));
}

#[test]
fn play_legal_move_extends_trace_by_one() {
    let board = empty_board(3, 3);
    assert_eq!(board.trace().len(), 0);
    let played = board.play(Turn::new(1, 1, Tile::O)).expect("legal move");
    assert_eq!(played.trace().len(), 1);
    assert_eq!(board.trace().len(), 0);
    let again = played.play(Turn::new(0, 2, Tile::X)).expect("legal move");
    assert_eq!(again.trace().len(), 2);
}

#[test]
fn play_occupied_or_out_of_range_fails() {
    let board = empty_board(2, 2);
    let played = board.play(Turn::new(0, 0, Tile::O)).expect("legal move");
    assert!(played.play(Turn::new(0, 0, Tile::X)).is_none());
    assert!(played.play(Turn::new(0, 0, Tile::O)).is_none());
    assert!(board.play(Turn::new(2, 0, Tile::O)).is_none());
    assert!(board.play(Turn::new(0, 2, Tile::O)).is_none());
    assert!(!board.is_legal(&Turn::new(5, 5, Tile::X)));
}

#[test]
fn empty_boards_are_not_terminal() {
    for (w, h) in [(1usize, 2usize), (2, 1), (2, 2), (3, 3), (4, 4), (3, 2)] {
        let board = empty_board(w, h);
        assert!(board.evaluate().is_none());
        assert!(!board.is_filled());
    }
}

#[test]
fn filled_board_without_line_draws() {
    // O X O
    // X X O
    // X O X
    let cells = [
        (0, 0, Tile::O),
        (1, 0, Tile::X),
        (2, 0, Tile::O),
        (0, 1, Tile::X),
        (1, 1, Tile::X),
        (2, 1, Tile::O),
        (0, 2, Tile::X),
        (1, 2, Tile::O),
        (2, 2, Tile::X),
    ];
    let mut board = empty_board(3, 3);
    for (x, y, tile) in cells {
        board = board.play(Turn::new(x, y, tile)).expect("legal move");
    }
    assert!(board.is_filled());
    let evaluation = board.evaluate().expect("terminal");
    assert_eq!(evaluation.result, 0);
}

#[test]
fn completed_row_column_and_diagonal_win() {
    // a row of O on a 3x3 board, with two X marks elsewhere
    let mut board = empty_board(3, 3);
    for turn in [
        Turn::new(0, 0, Tile::O),
        Turn::new(0, 1, Tile::X),
        Turn::new(1, 0, Tile::O),
        Turn::new(1, 1, Tile::X),
        Turn::new(2, 0, Tile::O),
    ] {
        board = board.play(turn).expect("legal move");
    }
    let evaluation = board.evaluate().expect("terminal");
    assert_eq!(evaluation.result, isize::MAX - 5);

    // a column of X on a 2x3 board
    let mut board = empty_board(2, 3);
    for turn in [
        Turn::new(0, 0, Tile::X),
        Turn::new(1, 0, Tile::O),
        Turn::new(0, 1, Tile::X),
        Turn::new(1, 1, Tile::O),
        Turn::new(0, 2, Tile::X),
    ] {
        board = board.play(turn).expect("legal move");
    }
    let evaluation = board.evaluate().expect("terminal");
    assert_eq!(evaluation.result, isize::MIN + 5);

    // the anti-diagonal of O on a 2x2 board
    let mut board = empty_board(2, 2);
    for turn in [
        Turn::new(1, 0, Tile::O),
        Turn::new(0, 0, Tile::X),
        Turn::new(0, 1, Tile::O),
    ] {
        board = board.play(turn).expect("legal move");
    }
    let evaluation = board.evaluate().expect("terminal");
    assert_eq!(evaluation.result, isize::MAX - 3);
}

#[test]
fn one_by_one_board_fills_and_wins_on_one_move() {
    let board = empty_board(1, 1);
    assert!(board.evaluate().is_none());
    let played = board.play(Turn::new(0, 0, Tile::O)).expect("legal move");
    assert!(played.is_filled());
    // a row (and column) of length one is complete, so the sole mark wins
    let evaluation = played.evaluate().expect("terminal");
    assert_eq!(evaluation.result, isize::MAX - 1);
}

#[test]
fn rendering_shows_each_cell() {
    let board = empty_board(2, 2);
    assert_eq!(board.current_position(), "\n _ _\n _ _");
    let played = board.play(Turn::new(1, 0, Tile::O)).expect("legal move");
    assert_eq!(played.current_position(), "\n _ O\n _ _");
    let more = played.play(Turn::new(0, 1, Tile::X)).expect("legal move");
    assert_eq!(more.current_position(), "\n _ O\n X _");
}

#[test]
fn rendering_round_trips_legality() {
    let mut board = empty_board(3, 3);
    for turn in [
        Turn::new(1, 1, Tile::O),
        Turn::new(0, 2, Tile::X),
        Turn::new(2, 0, Tile::O),
    ] {
        board = board.play(turn).expect("legal move");
    }
    let text = board.current_position();
    let chars: Vec<char> = text.chars().collect();
    let (w, h) = (board.width(), board.height());
    for y in 0..h {
        for x in 0..w {
            let shown_empty = chars[y * (1 + 2 * w) + 2 * x + 2] == '_';
            assert_eq!(shown_empty, board.is_legal(&Turn::new(x, y, Tile::O)));
            assert_eq!(shown_empty, board.is_legal(&Turn::new(x, y, Tile::X)));
        }
    }
}

#[test]
fn evaluation_keeps_result_and_trace() {
    let mut trace = Trace::new();
    trace.push(Turn::new(0, 0, Tile::O));
    trace.push(Turn::new(1, 1, Tile::X));
    let evaluation = Evaluation::new(42, trace);
    assert_eq!(evaluation.result, 42);
    assert_eq!(evaluation.get(0), Some(&Turn::new(0, 0, Tile::O)));
    assert_eq!(evaluation.get(1), Some(&Turn::new(1, 1, Tile::X)));
    assert_eq!(evaluation.get(2), None);
}
