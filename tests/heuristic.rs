use connect_x::{Board, Pieces, Turn};

fn configured(rows: usize, cols: usize, win: usize) -> Board {
    let mut board = Board::new(rows, cols);
    board.verify(rows, cols, win);
    board
}

#[test]
fn empty_board_scores_zero() {
    let board = configured(6, 7, 4);
    assert_eq!(board.score_position(&Turn::Player1), 0);
    assert_eq!(board.score_position(&Turn::Player2), 0);
}

#[test]
fn centre_piece_scores_three() {
    let mut board = configured(6, 7, 4);
    board.place(3, &Turn::Player1);
    assert_eq!(board.score_position(&Turn::Player1), 3);
    assert_eq!(board.score_position(&Turn::Player2), 0);
}

#[test]
fn two_adjacent_pieces_score_windows() {
    let mut board = configured(6, 7, 4);
    board.place(2, &Turn::Player1);
    board.place(3, &Turn::Player1);
    // centre 3, and three horizontal windows holding both pieces at 5 each
    assert_eq!(board.score_position(&Turn::Player1), 18);
    assert_eq!(board.score_position(&Turn::Player2), 0);
}

#[test]
fn opponent_threat_is_penalised() {
    let mut board = configured(6, 7, 4);
    for c in 0..3 {
        board.place(c, &Turn::Player1);
    }
    assert_eq!(board.score_position(&Turn::Player1), 10);
    assert_eq!(board.score_position(&Turn::Player2), -4);
}

#[test]
fn threat_threshold_is_three_quarters_of_win_length() {
    // with win length 5 three opposing pieces stay below 0.75 * 5
    let mut board = configured(6, 7, 5);
    for c in 0..3 {
        board.place(c, &Turn::Player1);
    }
    assert_eq!(board.score_position(&Turn::Player2), 0);
    board.place(3, &Turn::Player1);
    // the window over columns 0..5 now holds four opposing pieces
    assert_eq!(board.score_position(&Turn::Player2), -4);
}

#[test]
fn complete_window_scores_hundred() {
    let mut board = configured(4, 4, 4);
    for c in 0..4 {
        board.set_piece(3, c, Pieces::P2);
    }
    // centre column 2 holds one P2 piece: 3, plus the one full window: 100
    assert_eq!(board.score_position(&Turn::Player2), 103);
    assert_eq!(board.score_position(&Turn::Player1), -4);
}

#[test]
fn single_cell_windows_with_win_length_one() {
    // every empty window has own = 0 >= 1 / 2 and scores 5
    let board = configured(2, 2, 1);
    assert_eq!(board.score_position(&Turn::Player1), 4 * 4 * 5);
}
