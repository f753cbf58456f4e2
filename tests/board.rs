use connect_x::{Board, GameState, Pieces, Turn};

fn configured(rows: usize, cols: usize, win: usize) -> Board {
    let mut board = Board::new(rows, cols);
    board.verify(rows, cols, win);
    board
}

fn occupied(board: &Board) -> usize {
    let mut n = 0;
    for r in 0..board.rows() {
        for c in 0..board.cols() {
            if board.piece_at(r, c) != Pieces::Empty {
                n += 1;
            }
        }
    }
    n
}

#[test]
fn new_board_is_empty() {
    let board = Board::new(6, 7);
    assert_eq!(board.rows(), 6);
    assert_eq!(board.cols(), 7);
    assert_eq!(board.win_length(), 0);
    for r in 0..6 {
        for c in 0..7 {
            assert_eq!(board.piece_at(r, c), Pieces::Empty);
        }
    }
}

#[test]
fn verify_resizes_only_on_dimension_change() {
    let mut board = configured(6, 7, 4);
    assert!(board.place(3, &Turn::Player1));
    board.verify(6, 7, 3);
    assert_eq!(board.win_length(), 3);
    assert_eq!(board.piece_at(5, 3), Pieces::P1);
    board.verify(6, 7, 3);
    assert_eq!(board.piece_at(5, 3), Pieces::P1);
    board.verify(5, 8, 4);
    assert_eq!(board.rows(), 5);
    assert_eq!(board.cols(), 8);
    assert_eq!(board.win_length(), 4);
    assert_eq!(occupied(&board), 0);
}

#[test]
fn place_drops_to_lowest_empty_cell() {
    let mut board = configured(6, 7, 4);
    assert!(board.place(2, &Turn::Player1));
    assert_eq!(board.piece_at(5, 2), Pieces::P1);
    assert!(board.place(2, &Turn::Player2));
    assert_eq!(board.piece_at(4, 2), Pieces::P2);
    assert_eq!(board.piece_at(5, 2), Pieces::P1);
    assert_eq!(occupied(&board), 2);
}

#[test]
fn place_adds_exactly_one_piece() {
    let mut board = configured(6, 7, 4);
    let mut turn = Turn::Player1;
    for step in 0..20 {
        let col = (step * 3) % 7;
        let before = occupied(&board);
        let landing = (0..6).rev().find(|&r| board.piece_at(r, col) == Pieces::Empty);
        let ok = board.place(col, &turn);
        assert_eq!(ok, landing.is_some());
        if let Some(r) = landing {
            assert_eq!(occupied(&board), before + 1);
            assert_eq!(board.piece_at(r, col), turn.piece());
            for below in r + 1..6 {
                assert_ne!(board.piece_at(below, col), Pieces::Empty);
            }
            turn = turn.next();
        } else {
            assert_eq!(occupied(&board), before);
        }
    }
}

#[test]
fn place_in_full_column_fails_without_change() {
    let mut board = configured(3, 3, 3);
    assert!(board.place(0, &Turn::Player1));
    assert!(board.place(0, &Turn::Player2));
    assert!(board.place(0, &Turn::Player1));
    assert!(!board.place(0, &Turn::Player2));
    assert_eq!(board.piece_at(0, 0), Pieces::P1);
    assert_eq!(board.piece_at(1, 0), Pieces::P2);
    assert_eq!(board.piece_at(2, 0), Pieces::P1);
    assert_eq!(occupied(&board), 3);
}

#[test]
fn place_off_the_board_fails_without_change() {
    let mut board = configured(6, 7, 4);
    assert!(!board.place(7, &Turn::Player1));
    assert!(!board.place(100, &Turn::Player2));
    assert_eq!(occupied(&board), 0);
}

#[test]
fn result_leaves_the_original_untouched() {
    let board = configured(6, 7, 4);
    let next = board.result(4, &Turn::Player2);
    assert_eq!(next.piece_at(5, 4), Pieces::P2);
    assert_eq!(board.piece_at(5, 4), Pieces::Empty);
    let copy = next.clone();
    assert_eq!(copy.piece_at(5, 4), Pieces::P2);
}

#[test]
fn set_piece_overwrites_one_cell() {
    let mut board = configured(6, 7, 4);
    board.set_piece(5, 6, Pieces::P2);
    assert_eq!(board.piece_at(5, 6), Pieces::P2);
    assert_eq!(occupied(&board), 1);
}

#[test]
fn moves_lists_open_columns_ascending() {
    let mut board = configured(2, 5, 2);
    assert_eq!(board.moves(), vec![0, 1, 2, 3, 4]);
    board.place(1, &Turn::Player1);
    board.place(1, &Turn::Player2);
    board.place(3, &Turn::Player1);
    board.place(3, &Turn::Player2);
    board.place(4, &Turn::Player1);
    assert_eq!(board.moves(), vec![0, 2, 4]);
}

#[test]
fn reset_then_moves_gives_every_column() {
    let mut board = configured(4, 5, 3);
    for c in 0..5 {
        for _ in 0..4 {
            board.place(c, &Turn::Player1);
        }
    }
    assert!(board.moves().is_empty());
    board.reset();
    assert_eq!(board.moves(), vec![0, 1, 2, 3, 4]);
    assert_eq!(board.rows(), 4);
    assert_eq!(board.win_length(), 3);
    assert_eq!(occupied(&board), 0);
}

#[test]
fn empty_board_is_ongoing() {
    let board = configured(6, 7, 4);
    assert_eq!(board.game_state(), GameState::OnGoing);
}

#[test]
fn horizontal_run_wins() {
    let mut board = configured(6, 7, 4);
    for c in 0..4 {
        board.set_piece(5, c, Pieces::P1);
    }
    assert_eq!(board.game_state(), GameState::P1Win);
}

#[test]
fn horizontal_run_at_right_edge_wins() {
    let mut board = configured(6, 7, 4);
    for c in 3..7 {
        board.set_piece(5, c, Pieces::P2);
    }
    assert_eq!(board.game_state(), GameState::P2Win);
}

#[test]
fn three_in_a_row_is_not_a_win() {
    let mut board = configured(6, 7, 4);
    for c in 0..3 {
        board.set_piece(5, c, Pieces::P1);
    }
    assert_eq!(board.game_state(), GameState::OnGoing);
}

#[test]
fn vertical_run_wins() {
    let mut board = configured(6, 7, 4);
    for r in 2..6 {
        board.set_piece(r, 0, Pieces::P2);
    }
    assert_eq!(board.game_state(), GameState::P2Win);
}

#[test]
fn up_diagonal_run_wins() {
    let mut board = configured(6, 7, 4);
    board.set_piece(5, 0, Pieces::P1);
    board.set_piece(5, 1, Pieces::P2);
    board.set_piece(4, 1, Pieces::P1);
    board.set_piece(5, 2, Pieces::P2);
    board.set_piece(4, 2, Pieces::P2);
    board.set_piece(3, 2, Pieces::P1);
    board.set_piece(5, 3, Pieces::P2);
    board.set_piece(4, 3, Pieces::P2);
    board.set_piece(3, 3, Pieces::P2);
    assert_eq!(board.game_state(), GameState::OnGoing);
    board.set_piece(2, 3, Pieces::P1);
    assert_eq!(board.game_state(), GameState::P1Win);
}

#[test]
fn up_diagonal_run_reaching_top_row_wins() {
    let mut board = configured(4, 4, 4);
    board.set_piece(3, 0, Pieces::P2);
    board.set_piece(3, 1, Pieces::P1);
    board.set_piece(2, 1, Pieces::P2);
    board.set_piece(3, 2, Pieces::P1);
    board.set_piece(2, 2, Pieces::P1);
    board.set_piece(1, 2, Pieces::P2);
    board.set_piece(3, 3, Pieces::P1);
    board.set_piece(2, 3, Pieces::P1);
    board.set_piece(1, 3, Pieces::P1);
    assert_eq!(board.game_state(), GameState::OnGoing);
    board.set_piece(0, 3, Pieces::P2);
    assert_eq!(board.game_state(), GameState::P2Win);
}

#[test]
fn down_diagonal_run_wins() {
    let mut board = configured(6, 7, 4);
    board.set_piece(5, 0, Pieces::P1);
    board.set_piece(4, 0, Pieces::P1);
    board.set_piece(3, 0, Pieces::P1);
    board.set_piece(2, 0, Pieces::P2);
    board.set_piece(5, 1, Pieces::P1);
    board.set_piece(4, 1, Pieces::P1);
    board.set_piece(3, 1, Pieces::P2);
    board.set_piece(5, 2, Pieces::P1);
    board.set_piece(4, 2, Pieces::P2);
    board.set_piece(5, 3, Pieces::P2);
    assert_eq!(board.game_state(), GameState::P2Win);
}

#[test]
fn full_board_without_run_is_a_tie() {
    let mut board = configured(3, 3, 3);
    let layout = [
        [Pieces::P1, Pieces::P2, Pieces::P1],
        [Pieces::P1, Pieces::P2, Pieces::P1],
        [Pieces::P2, Pieces::P1, Pieces::P2],
    ];
    for r in (0..3).rev() {
        for c in 0..3 {
            board.set_piece(r, c, layout[r][c]);
        }
    }
    assert_eq!(board.game_state(), GameState::Tie);
}

#[test]
fn full_board_with_run_is_a_win_not_a_tie() {
    let mut board = configured(2, 2, 2);
    board.set_piece(1, 0, Pieces::P1);
    board.set_piece(1, 1, Pieces::P1);
    board.set_piece(0, 0, Pieces::P2);
    board.set_piece(0, 1, Pieces::P2);
    assert_eq!(board.game_state(), GameState::P2Win);
}

#[test]
fn first_run_in_row_major_order_decides() {
    let mut board = configured(6, 7, 4);
    for c in 0..4 {
        board.set_piece(5, c, Pieces::P1);
        board.set_piece(4, c, Pieces::P2);
    }
    assert_eq!(board.game_state(), GameState::P2Win);
}

#[test]
fn win_length_one_makes_any_piece_a_win() {
    let mut board = configured(3, 3, 1);
    assert_eq!(board.game_state(), GameState::OnGoing);
    board.place(2, &Turn::Player2);
    assert_eq!(board.game_state(), GameState::P2Win);
}

#[test]
fn turn_alternates() {
    assert_eq!(Turn::Player1.next(), Turn::Player2);
    assert_eq!(Turn::Player2.next(), Turn::Player1);
    assert_eq!(Turn::Player1.piece(), Pieces::P1);
    assert_eq!(Turn::Player2.piece(), Pieces::P2);
}
