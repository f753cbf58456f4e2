use connect_x::{minimax, Board, GameState, Pieces, TieBreaker, Turn};

struct KeepFirst;

impl TieBreaker for KeepFirst {
    fn pick(&mut self, n: usize) -> usize {
        n - 1
    }
}

struct TakeLatest;

impl TieBreaker for TakeLatest {
    fn pick(&mut self, _n: usize) -> usize {
        0
    }
}

fn configured(rows: usize, cols: usize, win: usize) -> Board {
    let mut board = Board::new(rows, cols);
    board.verify(rows, cols, win);
    board
}

/// Plain minimax without pruning, written against the public board API.
fn plain_minimax(board: &Board, depth: u32, maximizing: bool, root: Turn) -> i32 {
    if depth == 0 {
        return board.score_position(&root);
    }
    match board.game_state() {
        GameState::P1Win => {
            return if root == Turn::Player1 { i32::MAX } else { i32::MIN };
        }
        GameState::P2Win => {
            return if root == Turn::Player2 { i32::MAX } else { i32::MIN };
        }
        GameState::Tie => return 0,
        GameState::OnGoing => {}
    }
    let moves = board.moves();
    if moves.is_empty() {
        return 0;
    }
    let mover = if maximizing { root } else { root.next() };
    let mut value = if maximizing { i32::MIN } else { i32::MAX };
    for col in moves {
        let v = plain_minimax(&board.result(col, &mover), depth - 1, !maximizing, root);
        value = if maximizing { value.max(v) } else { value.min(v) };
    }
    value
}

fn sample_board() -> Board {
    let mut board = configured(5, 5, 3);
    let cols = [2, 1, 2, 3, 0, 2];
    let mut turn = Turn::Player1;
    for c in cols {
        assert!(board.place(c, &turn));
        turn = turn.next();
    }
    board
}

#[test]
fn pruning_keeps_the_minimax_value() {
    let board = sample_board();
    for depth in 0..4 {
        for root in [Turn::Player1, Turn::Player2] {
            for maximizing in [true, false] {
                let expected = plain_minimax(&board, depth, maximizing, root);
                let (_, v) =
                    minimax(&board, depth, i32::MIN, i32::MAX, maximizing, &root, &mut KeepFirst);
                assert_eq!(v, expected);
                let (_, w) =
                    minimax(&board, depth, i32::MIN, i32::MAX, maximizing, &root, &mut TakeLatest);
                assert_eq!(w, expected);
            }
        }
    }
}

#[test]
fn pruning_keeps_the_value_on_an_empty_board() {
    let board = configured(4, 5, 3);
    for depth in 1..4 {
        let expected = plain_minimax(&board, depth, true, Turn::Player1);
        let (_, v) = minimax(&board, depth, i32::MIN, i32::MAX, true, &Turn::Player1, &mut KeepFirst);
        assert_eq!(v, expected);
    }
}

#[test]
fn depth_zero_returns_the_heuristic() {
    let board = sample_board();
    let (col, v) = minimax(&board, 0, i32::MIN, i32::MAX, true, &Turn::Player2, &mut KeepFirst);
    assert_eq!(col, None);
    assert_eq!(v, board.score_position(&Turn::Player2));
}

#[test]
fn search_on_empty_board_never_returns_a_full_column() {
    let board = configured(6, 7, 4);
    for depth in 1..4 {
        let (col, _) =
            minimax(&board, depth, i32::MIN, i32::MAX, true, &Turn::Player1, &mut TakeLatest);
        let c = col.expect("a move");
        assert!(c < 7);
        assert_eq!(board.piece_at(0, c), Pieces::Empty);
    }
}

#[test]
fn search_avoids_full_columns() {
    let mut board = configured(4, 4, 4);
    let mut turn = Turn::Player1;
    for _ in 0..4 {
        board.place(1, &turn);
        turn = turn.next();
    }
    for depth in 1..4 {
        let (col, _) = minimax(&board, depth, i32::MIN, i32::MAX, true, &turn, &mut TakeLatest);
        let c = col.expect("a move");
        assert_ne!(c, 1);
        assert!(board.moves().contains(&c));
    }
}

#[test]
fn search_takes_the_immediate_win() {
    let mut board = configured(6, 7, 4);
    for c in 0..3 {
        board.set_piece(5, c, Pieces::P1);
    }
    board.set_piece(5, 5, Pieces::P2);
    board.set_piece(5, 6, Pieces::P2);
    for depth in 1..6 {
        let (col, _) =
            minimax(&board, depth, i32::MIN, i32::MAX, true, &Turn::Player1, &mut TakeLatest);
        assert_eq!(col, Some(3));
    }
}

#[test]
fn finished_game_has_no_move() {
    let mut board = configured(6, 7, 4);
    for c in 0..4 {
        board.set_piece(5, c, Pieces::P2);
    }
    let (col, v) = minimax(&board, 3, i32::MIN, i32::MAX, true, &Turn::Player1, &mut KeepFirst);
    assert_eq!(col, None);
    assert_eq!(v, i32::MIN);
    let (col, v) = minimax(&board, 3, i32::MIN, i32::MAX, false, &Turn::Player2, &mut KeepFirst);
    assert_eq!(col, None);
    assert_eq!(v, i32::MAX);
}

#[test]
fn tie_is_worth_zero() {
    let mut board = configured(3, 3, 3);
    let layout = [
        [Pieces::P1, Pieces::P2, Pieces::P1],
        [Pieces::P1, Pieces::P2, Pieces::P1],
        [Pieces::P2, Pieces::P1, Pieces::P2],
    ];
    for r in (0..3).rev() {
        for c in 0..3 {
            board.set_piece(r, c, layout[r][c]);
        }
    }
    assert_eq!(minimax(&board, 2, i32::MIN, i32::MAX, true, &Turn::Player1, &mut KeepFirst), (None, 0));
}

#[test]
fn tie_break_follows_the_injected_source() {
    // the centre column is full; columns 0 and 2 mirror each other
    let mut board = configured(3, 3, 3);
    board.place(1, &Turn::Player2);
    board.place(1, &Turn::Player1);
    board.place(1, &Turn::Player2);
    assert_eq!(board.moves(), vec![0, 2]);
    let left = board.result(0, &Turn::Player1).score_position(&Turn::Player1);
    let right = board.result(2, &Turn::Player1).score_position(&Turn::Player1);
    assert_eq!(left, right);
    let (first, v1) = minimax(&board, 1, i32::MIN, i32::MAX, true, &Turn::Player1, &mut KeepFirst);
    let (latest, v2) = minimax(&board, 1, i32::MIN, i32::MAX, true, &Turn::Player1, &mut TakeLatest);
    assert_eq!(v1, left);
    assert_eq!(v2, left);
    assert_eq!(first, Some(0));
    assert_eq!(latest, Some(2));
}
