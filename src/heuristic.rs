//! The positional heuristic used at the search's depth cutoff: centre control
//! plus a score for every window of `win` cells along the four directions.
use crate::board::{
    dir_col, dir_row, piece_of, Board, BoardView, Pieces, Turn, MAX_CELLS,
};
use vstd::prelude::*;

verus! {

/// The opponent's piece (an empty cell has none).
pub open spec fn opponent(p: Pieces) -> Pieces {
    match p {
        Pieces::P1 => Pieces::P2,
        Pieces::P2 => Pieces::P1,
        Pieces::Empty => Pieces::Empty,
    }
}

/// Value of a window of `k` cells holding `own` of the scoring piece and `opp`
/// of its opponent.
pub open spec fn window_value(own: int, opp: int, k: int) -> int {
    if opp == 0 {
        if own == k {
            100
        } else if own >= k / 2 {
            5
        } else if own > 1 {
            2
        } else {
            0
        }
    } else if own == 0 && 4 * opp >= 3 * k {
        -4
    } else {
        0
    }
}

impl BoardView {
    /// The `n` cells from `(r, c)` in direction `d` all lie on the board.
    pub open spec fn fits(self, r: int, c: int, d: int, n: int) -> bool {
        &&& 0 <= r < self.rows
        &&& 0 <= c < self.cols
        &&& dir_col(d) == 1 ==> c + n <= self.cols
        &&& dir_row(d) == 1 ==> r + n <= self.rows
        &&& dir_row(d) == -1 ==> r - n + 1 >= 0
    }

    /// Value for `p` of the window of `win` cells from `(r, c)` in direction `d`.
    pub open spec fn window_score(self, p: Pieces, r: int, c: int, d: int) -> int {
        window_value(
            self.line_count(p, r, c, dir_row(d), dir_col(d), self.win as nat) as int,
            self.line_count(opponent(p), r, c, dir_row(d), dir_col(d), self.win as nat) as int,
            self.win,
        )
    }

    /// Sum of the windows in direction `d` starting at `(r, 0)` .. `(r, n - 1)`.
    pub open spec fn row_windows(self, p: Pieces, d: int, r: int, n: int) -> int
        decreases n,
    {
        if n <= 0 {
            0
        } else {
            self.row_windows(p, d, r, n - 1) + self.window_score(p, r, n - 1, d)
        }
    }

    /// Sum of the windows in direction `d` starting in rows `r0 .. r0 + m` and
    /// columns `0 .. n`.
    pub open spec fn block_windows(self, p: Pieces, d: int, r0: int, m: int, n: int) -> int
        decreases m,
    {
        if m <= 0 {
            0
        } else {
            self.block_windows(p, d, r0, m - 1, n) + self.row_windows(p, d, r0 + m - 1, n)
        }
    }

    /// Number of cells of the centre column among rows `0 .. m` that hold `p`.
    pub open spec fn center_count(self, p: Pieces, m: int) -> int
        decreases m,
    {
        if m <= 0 {
            0
        } else {
            self.center_count(p, m - 1) + if self.cell(m - 1, self.cols / 2) == p {
                1int
            } else {
                0int
            }
        }
    }

    /// The heuristic value of the board for `p`: three per piece of `p` in the
    /// centre column, plus every full window along rows, columns, down-right
    /// diagonals and up-right diagonals.
    pub open spec fn score(self, p: Pieces) -> int {
        let nr = self.rows - self.win + 1;
        let nc = self.cols - self.win + 1;
        3 * self.center_count(p, self.rows) + self.block_windows(p, 0, 0, self.rows, nc)
            + self.block_windows(p, 1, 0, nr, self.cols) + self.block_windows(p, 3, 0, nr, nc)
            + self.block_windows(p, 2, self.win - 1, nr, nc)
    }
}

pub proof fn lemma_window_value_bounds(own: int, opp: int, k: int)
    ensures
        -4 <= window_value(own, opp, k) <= 100,
{
}

pub proof fn lemma_row_windows_bounds(b: BoardView, p: Pieces, d: int, r: int, n: int)
    requires
        0 <= n,
    ensures
        -4 * n <= b.row_windows(p, d, r, n) <= 100 * n,
    decreases n,
{
    if n > 0 {
        lemma_row_windows_bounds(b, p, d, r, n - 1);
        lemma_window_value_bounds(
            b.line_count(p, r, n - 1, dir_row(d), dir_col(d), b.win as nat) as int,
            b.line_count(opponent(p), r, n - 1, dir_row(d), dir_col(d), b.win as nat) as int,
            b.win,
        );
    }
}

pub proof fn lemma_block_windows_bounds(b: BoardView, p: Pieces, d: int, r0: int, m: int, n: int)
    requires
        0 <= m,
        0 <= n,
    ensures
        -4 * (m * n) <= b.block_windows(p, d, r0, m, n) <= 100 * (m * n),
    decreases m,
{
    if m > 0 {
        lemma_block_windows_bounds(b, p, d, r0, m - 1, n);
        lemma_row_windows_bounds(b, p, d, r0 + m - 1, n);
        assert((m - 1) * n + n == m * n) by (nonlinear_arith);
        assert(-4 * ((m - 1) * n) - 4 * n == -4 * (m * n));
        assert(100 * ((m - 1) * n) + 100 * n == 100 * (m * n));
    } else {
        assert(m * n == 0) by (nonlinear_arith)
            requires
                m == 0,
        ;
    }
}

pub proof fn lemma_center_count_bounds(b: BoardView, p: Pieces, m: int)
    requires
        0 <= m,
    ensures
        0 <= b.center_count(p, m) <= m,
    decreases m,
{
    if m > 0 {
        lemma_center_count_bounds(b, p, m - 1);
    }
}

proof fn lemma_product_le(m: int, n: int, rows: int, cols: int)
    requires
        0 <= m <= rows,
        0 <= n <= cols,
    ensures
        m * n <= rows * cols,
{
    assert(m * n <= rows * cols) by (nonlinear_arith)
        requires
            0 <= m <= rows,
            0 <= n <= cols,
    ;
}

/// On a well-shaped board every score fits strictly inside `i32`.
pub proof fn lemma_score_bounds(b: BoardView, p: Pieces)
    requires
        b.shaped(),
        1 <= b.win,
    ensures
        i32::MIN < b.score(p) < i32::MAX,
{
    let nr = b.rows - b.win + 1;
    let nc = b.cols - b.win + 1;
    lemma_center_count_bounds(b, p, b.rows);
    lemma_block_windows_bounds(b, p, 0, 0, b.rows, nc);
    lemma_block_windows_bounds(b, p, 1, 0, nr, b.cols);
    lemma_block_windows_bounds(b, p, 3, 0, nr, nc);
    lemma_block_windows_bounds(b, p, 2, b.win - 1, nr, nc);
    lemma_product_le(b.rows, nc, b.rows, b.cols);
    lemma_product_le(nr, b.cols, b.rows, b.cols);
    lemma_product_le(nr, nc, b.rows, b.cols);
    assert(b.rows <= b.rows * b.cols) by (nonlinear_arith)
        requires
            1 <= b.cols,
            1 <= b.rows,
    ;
}

/// The score of one window, from the counts of the scoring piece and of its
/// opponent in it.
fn window_points(own: usize, opp: usize, x: usize) -> (r: i32)
    requires
        own <= MAX_CELLS,
        opp <= MAX_CELLS,
        x <= MAX_CELLS,
    ensures
        r == window_value(own as int, opp as int, x as int),
{
    if opp == 0 {
        if own == x {
            100
        } else if own >= x / 2 {
            5
        } else if own > 1 {
            2
        } else {
            0
        }
    } else if own == 0 && 4 * opp >= 3 * x {
        -4
    } else {
        0
    }
}

/// Counts the pieces of `piece` and of its opponent in the window of `win`
/// cells from `(r, c)` in direction `d`, and scores that window.
fn evaluate_window(board: &Board, r: usize, c: usize, d: usize, piece: Pieces) -> (s: i32)
    requires
        board.wf(),
        1 <= board@.win,
        d < 4,
        piece != Pieces::Empty,
        board@.fits(r as int, c as int, d as int, board@.win),
    ensures
        s == board@.window_score(piece, r as int, c as int, d as int),
{
    let opp_piece = match piece {
        Pieces::P1 => Pieces::P2,
        Pieces::P2 => Pieces::P1,
        Pieces::Empty => Pieces::Empty,
    };
    let x = board.win_length();
    let ghost b = board@;
    let ghost dr = dir_row(d as int);
    let ghost dc = dir_col(d as int);
    let ghost k = b.win as nat;
    let mut piece_count: usize = 0;
    let mut opp_count: usize = 0;
    let mut rr = r;
    let mut cc = c;
    let mut left = x;
    proof {
        assert(b.cols <= b.rows * b.cols) by (nonlinear_arith)
            requires
                1 <= b.rows,
                1 <= b.cols,
        ;
        assert(b.rows <= b.rows * b.cols) by (nonlinear_arith)
            requires
                1 <= b.rows,
                1 <= b.cols,
        ;
    }
    while left > 0
        invariant
            board.wf(),
            b == board@,
            k == b.win,
            x == k,
            k <= b.cols,
            b.cols <= MAX_CELLS,
            b.rows <= MAX_CELLS,
            dr == dir_row(d as int),
            dc == dir_col(d as int),
            d < 4,
            piece != Pieces::Empty,
            opp_piece == opponent(piece),
            left <= k,
            left > 0 ==> b.fits(rr as int, cc as int, d as int, left as int),
            piece_count + opp_count <= k - left,
            piece_count + b.line_count(piece, rr as int, cc as int, dr, dc, left as nat)
                == b.line_count(piece, r as int, c as int, dr, dc, k),
            opp_count + b.line_count(opp_piece, rr as int, cc as int, dr, dc, left as nat)
                == b.line_count(opp_piece, r as int, c as int, dr, dc, k),
        decreases left,
    {
        let cur = board.piece_at(rr, cc);
        proof {
            assert(b.line_count(piece, rr as int, cc as int, dr, dc, left as nat) == (if cur
                == piece {
                1nat
            } else {
                0nat
            }) + b.line_count(piece, rr + dr, cc + dc, dr, dc, (left - 1) as nat));
            assert(b.line_count(opp_piece, rr as int, cc as int, dr, dc, left as nat) == (if cur
                == opp_piece {
                1nat
            } else {
                0nat
            }) + b.line_count(opp_piece, rr + dr, cc + dc, dr, dc, (left - 1) as nat));
        }
        if cur == piece {
            piece_count += 1;
        } else if cur == opp_piece {
            opp_count += 1;
        }
        if left > 1 {
            if d == 2 {
                rr = rr - 1;
            } else if d != 0 {
                rr = rr + 1;
            }
            if d != 1 {
                cc = cc + 1;
            }
        } else {
            proof {
                assert(b.line_count(piece, rr as int, cc as int, dr, dc, 0) == 0);
                assert(b.line_count(opp_piece, rr as int, cc as int, dr, dc, 0) == 0);
            }
        }
        left = left - 1;
    }
    window_points(piece_count, opp_count, x)
}

/// Sums the windows in direction `d` whose first cells lie in rows
/// `r0 .. r0 + m` and columns `0 .. n`.
fn sum_windows(board: &Board, piece: Pieces, d: usize, r0: usize, m: usize, n: usize) -> (s: i32)
    requires
        board.wf(),
        1 <= board@.win,
        d < 4,
        piece != Pieces::Empty,
        m * n <= MAX_CELLS,
        forall|i: int, j: int|
            r0 <= i < r0 + m && 0 <= j < n ==> #[trigger] board@.fits(i, j, d as int, board@.win),
    ensures
        s == board@.block_windows(piece, d as int, r0 as int, m as int, n as int),
{
    let mut total: i32 = 0;
    let mut i: usize = 0;
    while i < m
        invariant
            board.wf(),
            1 <= board@.win,
            d < 4,
            piece != Pieces::Empty,
            m * n <= MAX_CELLS,
            forall|i: int, j: int|
                r0 <= i < r0 + m && 0 <= j < n ==> #[trigger] board@.fits(i, j, d as int, board@.win),
            i <= m,
            total == board@.block_windows(piece, d as int, r0 as int, i as int, n as int),
        decreases m - i,
    {
        proof {
            lemma_product_le(1, n as int, m as int, n as int);
            lemma_product_le((i + 1) as int, n as int, m as int, n as int);
            lemma_block_windows_bounds(board@, piece, d as int, r0 as int, (i + 1) as int, n as int);
            lemma_block_windows_bounds(board@, piece, d as int, r0 as int, i as int, n as int);
        }
        let mut row_total: i32 = 0;
        let mut j: usize = 0;
        while j < n
            invariant
                board.wf(),
                1 <= board@.win,
                d < 4,
                piece != Pieces::Empty,
                n <= MAX_CELLS,
                forall|i: int, j: int|
                    r0 <= i < r0 + m && 0 <= j < n ==> #[trigger] board@.fits(
                        i,
                        j,
                        d as int,
                        board@.win,
                    ),
                i < m,
                j <= n,
                row_total == board@.row_windows(piece, d as int, (r0 + i) as int, j as int),
            decreases n - j,
        {
            proof {
                assert(board@.fits(r0 + i, j as int, d as int, board@.win));
                lemma_row_windows_bounds(board@, piece, d as int, (r0 + i) as int, (j + 1) as int);
            }
            row_total = row_total + evaluate_window(board, r0 + i, j, d, piece);
            j += 1;
        }
        assert(board@.block_windows(piece, d as int, r0 as int, (i + 1) as int, n as int)
            == board@.block_windows(piece, d as int, r0 as int, i as int, n as int)
            + board@.row_windows(piece, d as int, (r0 + i) as int, n as int));
        total = total + row_total;
        i += 1;
    }
    total
}

impl Board {
    /// The heuristic value of the position for `turn`'s piece.
    pub fn score_position(&self, turn: &Turn) -> (r: i32)
        requires
            self.wf(),
            1 <= self@.win,
        ensures
            r == self@.score(piece_of(*turn)),
    {
        let piece = turn.piece();
        let rows = self.rows();
        let cols = self.cols();
        let x = self.win_length();
        let ghost b = self@;
        let nr = rows - x + 1;
        let nc = cols - x + 1;
        proof {
            lemma_product_le(rows as int, nc as int, b.rows, b.cols);
            lemma_product_le(nr as int, cols as int, b.rows, b.cols);
            lemma_product_le(nr as int, nc as int, b.rows, b.cols);
            lemma_product_le(rows as int, 1, b.rows, b.cols);
            lemma_center_count_bounds(b, piece, b.rows);
            lemma_block_windows_bounds(b, piece, 0, 0, b.rows, nc as int);
            lemma_block_windows_bounds(b, piece, 1, 0, nr as int, b.cols);
            lemma_block_windows_bounds(b, piece, 3, 0, nr as int, nc as int);
            lemma_block_windows_bounds(b, piece, 2, b.win - 1, nr as int, nc as int);
        }
        let mut center_count: i32 = 0;
        let mut row: usize = 0;
        while row < rows
            invariant
                self.wf(),
                b == self@,
                rows == b.rows,
                cols == b.cols,
                rows <= MAX_CELLS,
                row <= rows,
                center_count == b.center_count(piece, row as int),
            decreases rows - row,
        {
            proof {
                lemma_center_count_bounds(b, piece, row as int);
            }
            if self.piece_at(row, cols / 2) == piece {
                center_count += 1;
            }
            row += 1;
        }
        let mut score: i32 = center_count * 3;
        score = score + sum_windows(self, piece, 0, 0, rows, nc);
        score = score + sum_windows(self, piece, 1, 0, nr, cols);
        score = score + sum_windows(self, piece, 3, 0, nr, nc);
        score = score + sum_windows(self, piece, 2, x - 1, nr, nc);
        score
    }
}

} // verus!
