//! The board: cells under gravity, legal moves and the game's outcome.
use crate::grid::{cell_at, cells_of, copy_cells, filled, set_cell, CellArray};
use vstd::prelude::*;

verus! {

/// Upper bound on `rows * cols`; it keeps every heuristic score within `i32`.
pub const MAX_CELLS: usize = 1_000_000;

/// The content of one cell of the board.
#[derive(Debug, Clone, Copy, PartialEq, Eq, Structural)]
pub enum Pieces {
    P1,
    P2,
    Empty,
}

/// Where a game stands.
#[derive(Debug, Clone, Copy, PartialEq, Eq, Structural)]
pub enum GameState {
    OnGoing,
    P1Win,
    P2Win,
    Tie,
}

/// The player whose move it is.
#[derive(Debug, Clone, Copy, PartialEq, Eq, Structural)]
pub enum Turn {
    Player1,
    Player2,
}

/// The piece that a player drops.
pub open spec fn piece_of(t: Turn) -> Pieces {
    match t {
        Turn::Player1 => Pieces::P1,
        Turn::Player2 => Pieces::P2,
    }
}

/// The player who moves after `t`.
pub open spec fn other(t: Turn) -> Turn {
    match t {
        Turn::Player1 => Turn::Player2,
        Turn::Player2 => Turn::Player1,
    }
}

impl Turn {
    pub fn next(&self) -> (r: Turn)
        ensures
            r == other(*self),
    {
        match self {
            Turn::Player1 => Turn::Player2,
            Turn::Player2 => Turn::Player1,
        }
    }

    pub fn piece(&self) -> (r: Pieces)
        ensures
            r == piece_of(*self),
    {
        match self {
            Turn::Player1 => Pieces::P1,
            Turn::Player2 => Pieces::P2,
        }
    }
}

/// Row step of scan direction `d`: 0 horizontal, 1 vertical (downwards),
/// 2 up-right diagonal, 3 down-right diagonal.
pub open spec fn dir_row(d: int) -> int {
    if d == 0 {
        0
    } else if d == 2 {
        -1
    } else {
        1
    }
}

/// Column step of scan direction `d` (see `dir_row`).
pub open spec fn dir_col(d: int) -> int {
    if d == 1 {
        0
    } else {
        1
    }
}

/// Number of non-empty cells in `s`.
pub open spec fn count_filled(s: Seq<Pieces>) -> nat
    decreases s.len(),
{
    if s.len() == 0 {
        0
    } else {
        count_filled(s.drop_last()) + if s.last() != Pieces::Empty {
            1nat
        } else {
            0nat
        }
    }
}

/// The mathematical value of a board: its dimensions, its win length and its
/// cells in row-major order. Row 0 is the top row, row `rows - 1` the bottom.
pub struct BoardView {
    pub rows: int,
    pub cols: int,
    pub win: int,
    pub cells: Seq<Pieces>,
}

/// An all-empty board.
pub open spec fn blank(rows: int, cols: int, win: int) -> BoardView {
    BoardView { rows, cols, win, cells: Seq::new((rows * cols) as nat, |i: int| Pieces::Empty) }
}

impl BoardView {
    pub open spec fn in_bounds(self, r: int, c: int) -> bool {
        0 <= r < self.rows && 0 <= c < self.cols
    }

    pub open spec fn cell(self, r: int, c: int) -> Pieces {
        self.cells[r * self.cols + c]
    }

    /// Dimensions, storage length and win length are consistent.
    pub open spec fn shaped(self) -> bool {
        &&& 1 <= self.rows
        &&& 1 <= self.cols
        &&& self.rows * self.cols <= MAX_CELLS
        &&& self.rows <= MAX_CELLS
        &&& self.cols <= MAX_CELLS
        &&& self.cells.len() == self.rows * self.cols
        &&& 0 <= self.win <= self.rows
        &&& self.win <= self.cols
    }

    /// Gravity: a piece never floats above an empty cell.
    #[verifier::opaque]
    pub open spec fn settled(self) -> bool {
        forall|r1: int, r2: int, c: int|
            #![trigger self.cell(r1, c), self.cell(r2, c)]
            0 <= r1 < r2 < self.rows && 0 <= c < self.cols && self.cell(r1, c) != Pieces::Empty
                ==> self.cell(r2, c) != Pieces::Empty
    }

    pub open spec fn wf(self) -> bool {
        self.shaped() && self.settled()
    }

    pub open spec fn occupied(self) -> nat {
        count_filled(self.cells)
    }

    pub open spec fn with_cell(self, r: int, c: int, p: Pieces) -> BoardView {
        BoardView { cells: self.cells.update(r * self.cols + c, p), ..self }
    }

    /// Columns below `n` whose top cell is empty, ascending.
    pub open spec fn open_columns(self, n: int) -> Seq<int>
        decreases n,
    {
        if n <= 0 {
            Seq::empty()
        } else if self.cell(0, n - 1) == Pieces::Empty {
            self.open_columns(n - 1).push(n - 1)
        } else {
            self.open_columns(n - 1)
        }
    }

    /// The legal moves.
    pub open spec fn moves(self) -> Seq<int> {
        self.open_columns(self.cols)
    }

    /// The lowest empty row of column `c` among rows `0..r`, or -1.
    pub open spec fn drop_row(self, c: int, r: int) -> int
        decreases r,
    {
        if r <= 0 {
            -1
        } else if self.cell(r - 1, c) == Pieces::Empty {
            r - 1
        } else {
            self.drop_row(c, r - 1)
        }
    }

    /// The row that a piece dropped into column `c` lands on, or -1 if full.
    pub open spec fn landing_row(self, c: int) -> int {
        self.drop_row(c, self.rows)
    }

    pub open spec fn can_place(self, c: int) -> bool {
        0 <= c < self.cols && self.landing_row(c) >= 0
    }

    /// The board after dropping `p` into column `c`; unchanged if that fails.
    pub open spec fn placed(self, c: int, p: Pieces) -> BoardView {
        if self.can_place(c) {
            self.with_cell(self.landing_row(c), c, p)
        } else {
            self
        }
    }

    /// How many of the `n` cells from `(r, c)` on, stepping by `(dr, dc)`, lie
    /// on the board and hold `p`.
    pub open spec fn line_count(self, p: Pieces, r: int, c: int, dr: int, dc: int, n: nat) -> nat
        decreases n,
    {
        if n == 0 {
            0
        } else {
            (if self.in_bounds(r, c) && self.cell(r, c) == p {
                1nat
            } else {
                0nat
            }) + self.line_count(p, r + dr, c + dc, dr, dc, (n - 1) as nat)
        }
    }

    /// A run of `win` equal pieces starts at `(r, c)` in direction `d`.
    pub open spec fn run_at(self, r: int, c: int, d: int) -> bool {
        &&& self.cell(r, c) != Pieces::Empty
        &&& self.line_count(self.cell(r, c), r, c, dir_row(d), dir_col(d), self.win as nat)
            == self.win
    }

    /// Some run of `p` lies on the board.
    pub open spec fn has_run(self, p: Pieces) -> bool {
        exists|r: int, c: int, d: int|
            self.in_bounds(r, c) && 0 <= d < 4 && self.cell(r, c) == p && #[trigger] self.run_at(
                r,
                c,
                d,
            )
    }

    /// The owner of the first run met when scanning cells in row-major order
    /// from `(r, c)` and, at each cell, directions from `d` on.
    pub open spec fn scan(self, r: int, c: int, d: int) -> Option<Pieces>
        decreases self.rows - r, self.cols - c, 4 - d,
    {
        if r >= self.rows || r < 0 || c < 0 || d < 0 {
            None
        } else if c >= self.cols {
            self.scan(r + 1, 0, 0)
        } else if d >= 4 {
            self.scan(r, c + 1, 0)
        } else if self.run_at(r, c, d) {
            Some(self.cell(r, c))
        } else {
            self.scan(r, c, d + 1)
        }
    }

    pub open spec fn top_full(self) -> bool {
        forall|c: int| 0 <= c < self.cols ==> #[trigger] self.cell(0, c) != Pieces::Empty
    }

    pub open spec fn outcome(self) -> GameState {
        match self.scan(0, 0, 0) {
            Some(p) => if p == Pieces::P1 {
                GameState::P1Win
            } else {
                GameState::P2Win
            },
            None => if self.top_full() {
                GameState::Tie
            } else {
                GameState::OnGoing
            },
        }
    }
}

pub proof fn lemma_cell_index(r: int, c: int, rows: int, cols: int)
    requires
        0 <= r < rows,
        0 <= c < cols,
    ensures
        0 <= r * cols + c < rows * cols,
{
    assert(r * cols + c < rows * cols) by (nonlinear_arith)
        requires
            0 <= r < rows,
            0 <= c < cols,
    ;
    assert(0 <= r * cols) by (nonlinear_arith)
        requires
            0 <= r,
            0 <= c < cols,
    ;
}

pub proof fn lemma_index_unique(r1: int, c1: int, r2: int, c2: int, cols: int)
    requires
        0 <= r1,
        0 <= r2,
        0 <= c1 < cols,
        0 <= c2 < cols,
        r1 * cols + c1 == r2 * cols + c2,
    ensures
        r1 == r2,
        c1 == c2,
{
    if r1 < r2 {
        assert(r1 * cols + cols <= r2 * cols) by (nonlinear_arith)
            requires
                r1 < r2,
                0 <= c1 < cols,
        ;
    } else if r2 < r1 {
        assert(r2 * cols + cols <= r1 * cols) by (nonlinear_arith)
            requires
                r2 < r1,
                0 <= c1 < cols,
        ;
    }
}


impl BoardView {
    /// `drop_row` finds the lowest empty cell below row `r`, or none.
    pub proof fn lemma_drop_row(self, c: int, r: int)
        requires
            0 <= r,
        ensures
            -1 <= self.drop_row(c, r) < r,
            self.drop_row(c, r) >= 0 ==> self.cell(self.drop_row(c, r), c) == Pieces::Empty,
            forall|q: int| self.drop_row(c, r) < q < r ==> self.cell(q, c) != Pieces::Empty,
        decreases r,
    {
        if r > 0 && self.cell(r - 1, c) != Pieces::Empty {
            self.lemma_drop_row(c, r - 1);
        }
    }

    /// Reading a cell after one cell was overwritten.
    pub proof fn lemma_with_cell(self, r: int, c: int, p: Pieces, r2: int, c2: int)
        requires
            self.shaped(),
            self.in_bounds(r, c),
            self.in_bounds(r2, c2),
        ensures
            self.with_cell(r, c, p).cell(r2, c2) == if r == r2 && c == c2 {
                p
            } else {
                self.cell(r2, c2)
            },
    {
        lemma_cell_index(r, c, self.rows, self.cols);
        lemma_cell_index(r2, c2, self.rows, self.cols);
        if r * self.cols + c == r2 * self.cols + c2 {
            lemma_index_unique(r, c, r2, c2, self.cols);
        }
    }

    /// Gravity depends on the dimensions and the cells only.
    pub proof fn lemma_settled_same_cells(self, other: BoardView)
        requires
            self.settled(),
            other.rows == self.rows,
            other.cols == self.cols,
            other.cells == self.cells,
        ensures
            other.settled(),
    {
        reveal(BoardView::settled);
        assert forall|r1: int, r2: int, k: int|
            #![trigger other.cell(r1, k), other.cell(r2, k)]
            0 <= r1 < r2 < other.rows && 0 <= k < other.cols && other.cell(r1, k)
                != Pieces::Empty implies other.cell(r2, k) != Pieces::Empty by {
            assert(self.cell(r1, k) == other.cell(r1, k));
            assert(self.cell(r2, k) == other.cell(r2, k));
        }
    }

    /// Dropping a piece keeps a well-formed board well-formed.
    pub proof fn lemma_placed_wf(self, c: int, p: Pieces)
        requires
            self.wf(),
            p != Pieces::Empty,
        ensures
            self.placed(c, p).wf(),
            self.placed(c, p).rows == self.rows,
            self.placed(c, p).cols == self.cols,
            self.placed(c, p).win == self.win,
    {
        reveal(BoardView::settled);
        if self.can_place(c) {
            let l = self.landing_row(c);
            self.lemma_drop_row(c, self.rows);
            let n = self.with_cell(l, c, p);
            lemma_cell_index(l, c, self.rows, self.cols);
            assert(self.placed(c, p) == n);
            assert forall|r1: int, r2: int, k: int|
                #![trigger n.cell(r1, k), n.cell(r2, k)]
                0 <= r1 < r2 < n.rows && 0 <= k < n.cols && n.cell(r1, k)
                    != Pieces::Empty implies n.cell(r2, k) != Pieces::Empty by {
                self.lemma_with_cell(l, c, p, r1, k);
                self.lemma_with_cell(l, c, p, r2, k);
                if !(r1 == l && k == c) && !(r2 == l && k == c) {
                    assert(self.cell(r1, k) != Pieces::Empty);
                    assert(self.cell(r2, k) != Pieces::Empty);
                }
            }
            assert(n.shaped());
            assert(n.settled());
        }
    }
}

/// A blank board is well-formed.
pub proof fn lemma_blank_wf(rows: int, cols: int, win: int)
    requires
        1 <= rows,
        1 <= cols,
        rows * cols <= MAX_CELLS,
        0 <= win <= rows,
        win <= cols,
    ensures
        blank(rows, cols, win).wf(),
{
    reveal(BoardView::settled);
    let b = blank(rows, cols, win);
    assert(rows <= rows * cols && cols <= rows * cols) by (nonlinear_arith)
        requires
            1 <= rows,
            1 <= cols,
    ;
    assert forall|r1: int, r2: int, k: int|
        #![trigger b.cell(r1, k), b.cell(r2, k)]
        0 <= r1 < r2 < b.rows && 0 <= k < b.cols && b.cell(r1, k)
            != Pieces::Empty implies b.cell(r2, k) != Pieces::Empty by {
        lemma_cell_index(r1, k, rows, cols);
    }
}

/// A game board with `rows * cols` cells stored row-major in an `ndarray` array.
pub struct Board {
    rows: usize,
    cols: usize,
    x_to_win: usize,
    board: CellArray,
}

impl View for Board {
    type V = BoardView;

    closed spec fn view(&self) -> BoardView {
        BoardView {
            rows: self.rows as int,
            cols: self.cols as int,
            win: self.x_to_win as int,
            cells: cells_of(self.board),
        }
    }
}

impl Clone for Board {
    fn clone(&self) -> (r: Self)
        ensures
            r@ == self@,
    {
        Board {
            rows: self.rows,
            cols: self.cols,
            x_to_win: self.x_to_win,
            board: copy_cells(&self.board),
        }
    }
}

impl Board {
    pub open spec fn wf(&self) -> bool {
        self@.wf()
    }

    /// An empty board; its win length is set by `verify`.
    pub fn new(rows: usize, cols: usize) -> (r: Board)
        requires
            1 <= rows,
            1 <= cols,
            rows * cols <= MAX_CELLS,
        ensures
            r@ == blank(rows as int, cols as int, 0),
            r.wf(),
    {
        let r = Board { rows, cols, x_to_win: 0, board: filled(rows * cols, Pieces::Empty) };
        proof {
            lemma_blank_wf(rows as int, cols as int, 0);
            assert(r@.cells =~= blank(rows as int, cols as int, 0).cells);
        }
        r
    }

    /// Applies a configuration: a change of `rows` or `cols` replaces the grid
    /// by an empty one; the win length is set in any case.
    pub fn verify(&mut self, rows: usize, cols: usize, x_to_win: usize)
        requires
            old(self).wf(),
            1 <= rows,
            1 <= cols,
            rows * cols <= MAX_CELLS,
            1 <= x_to_win <= rows,
            x_to_win <= cols,
        ensures
            final(self).wf(),
            old(self)@.rows != rows || old(self)@.cols != cols ==> final(self)@ == blank(
                rows as int,
                cols as int,
                x_to_win as int,
            ),
            old(self)@.rows == rows && old(self)@.cols == cols ==> final(self)@ == (BoardView {
                win: x_to_win as int,
                ..old(self)@
            }),
    {
        if self.rows != rows || self.cols != cols {
            self.rows = rows;
            self.cols = cols;
            self.board = filled(rows * cols, Pieces::Empty);
            proof {
                assert(self@.cells =~= blank(rows as int, cols as int, x_to_win as int).cells);
            }
        }
        if self.x_to_win != x_to_win {
            self.x_to_win = x_to_win;
        }
        proof {
            lemma_blank_wf(rows as int, cols as int, x_to_win as int);
            if old(self)@.rows == rows && old(self)@.cols == cols {
                old(self)@.lemma_settled_same_cells(self@);
            } else {
                assert(self@ == blank(rows as int, cols as int, x_to_win as int));
            }
        }
    }

    /// Empties every cell; dimensions and win length stay.
    pub fn reset(&mut self)
        requires
            old(self).wf(),
        ensures
            final(self)@ == blank(old(self)@.rows, old(self)@.cols, old(self)@.win),
            final(self).wf(),
    {
        self.board = filled(self.rows * self.cols, Pieces::Empty);
        proof {
            lemma_blank_wf(self@.rows, self@.cols, self@.win);
            assert(self@.cells =~= blank(self@.rows, self@.cols, self@.win).cells);
        }
    }

    pub fn rows(&self) -> (r: usize)
        ensures
            r == self@.rows,
    {
        self.rows
    }

    pub fn cols(&self) -> (r: usize)
        ensures
            r == self@.cols,
    {
        self.cols
    }

    pub fn win_length(&self) -> (r: usize)
        ensures
            r == self@.win,
    {
        self.x_to_win
    }

    pub fn piece_at(&self, row: usize, col: usize) -> (r: Pieces)
        requires
            self.wf(),
            row < self@.rows,
            col < self@.cols,
        ensures
            r == self@.cell(row as int, col as int),
    {
        proof {
            lemma_cell_index(row as int, col as int, self@.rows, self@.cols);
        }
        cell_at(&self.board, row * self.cols + col)
    }

    /// Overwrites one cell; the result must still obey gravity.
    pub fn set_piece(&mut self, row: usize, col: usize, piece: Pieces)
        requires
            old(self).wf(),
            row < old(self)@.rows,
            col < old(self)@.cols,
            old(self)@.with_cell(row as int, col as int, piece).settled(),
        ensures
            final(self)@ == old(self)@.with_cell(row as int, col as int, piece),
            final(self).wf(),
    {
        proof {
            lemma_cell_index(row as int, col as int, self@.rows, self@.cols);
        }
        set_cell(&mut self.board, row * self.cols + col, piece);
    }

    /// Drops `turn`'s piece into `col`: it lands on the lowest empty cell of
    /// that column. Returns false, changing nothing, when `col` is off the
    /// board or full.
    pub fn place(&mut self, col: usize, turn: &Turn) -> (res: bool)
        requires
            old(self).wf(),
        ensures
            res == old(self)@.can_place(col as int),
            final(self)@ == old(self)@.placed(col as int, piece_of(*turn)),
            final(self).wf(),
    {
        proof {
            self@.lemma_placed_wf(col as int, piece_of(*turn));
        }
        if col >= self.cols {
            return false;
        }
        let mut row = self.rows;
        while row > 0
            invariant
                self.wf(),
                self@ == old(self)@,
                row <= self@.rows,
                col < self@.cols,
                self@.landing_row(col as int) == self@.drop_row(col as int, row as int),
            decreases row,
        {
            if self.piece_at(row - 1, col) == Pieces::Empty {
                let p = turn.piece();
                proof {
                    self@.lemma_placed_wf(col as int, p);
                    assert(self@.landing_row(col as int) == row - 1);
                    assert(self@.placed(col as int, p) == self@.with_cell(row - 1, col as int, p));
                }
                self.set_piece(row - 1, col, p);
                return true;
            }
            row = row - 1;
        }
        false
    }

    /// The board after `turn` drops a piece into `col`; `self` is unchanged.
    pub fn result(&self, col: usize, turn: &Turn) -> (r: Board)
        requires
            self.wf(),
        ensures
            r@ == self@.placed(col as int, piece_of(*turn)),
            r.wf(),
    {
        let mut new_board = self.clone();
        new_board.place(col, turn);
        new_board
    }
}


/// At most `n` cells of a line hold a given piece.
pub proof fn lemma_line_count_le(b: BoardView, p: Pieces, r: int, c: int, dr: int, dc: int, n: nat)
    ensures
        b.line_count(p, r, c, dr, dc, n) <= n,
    decreases n,
{
    if n > 0 {
        lemma_line_count_le(b, p, r + dr, c + dc, dr, dc, (n - 1) as nat);
    }
}

impl Board {
    /// The legal moves: the columns whose top cell is empty, ascending.
    pub fn moves(&self) -> (r: Vec<usize>)
        requires
            self.wf(),
        ensures
            r@.map_values(|c: usize| c as int) == self@.moves(),
            forall|i: int, j: int| 0 <= i < j < r.len() ==> r[i] < r[j],
            forall|i: int|
                0 <= i < r.len() ==> r[i] < self@.cols && self@.cell(0, r[i] as int)
                    == Pieces::Empty,
            forall|c: usize|
                c < self@.cols && self@.cell(0, c as int) == Pieces::Empty ==> r@.contains(c),
    {
        let mut moves: Vec<usize> = Vec::new();
        let mut col: usize = 0;
        while col < self.cols
            invariant
                self.wf(),
                col <= self@.cols,
                moves@.map_values(|c: usize| c as int) == self@.open_columns(col as int),
                forall|i: int, j: int| 0 <= i < j < moves.len() ==> moves[i] < moves[j],
                forall|i: int|
                    0 <= i < moves.len() ==> moves[i] < col && self@.cell(0, moves[i] as int)
                        == Pieces::Empty,
                forall|c: usize|
                    c < col && self@.cell(0, c as int) == Pieces::Empty ==> moves@.contains(c),
            decreases self@.cols - col,
        {
            if self.piece_at(0, col) == Pieces::Empty {
                let ghost before = moves@;
                moves.push(col);
                proof {
                    assert(moves@.map_values(|c: usize| c as int) =~= before.map_values(
                        |c: usize| c as int,
                    ).push(col as int));
                    assert forall|c: usize|
                        c < col + 1 && self@.cell(0, c as int)
                            == Pieces::Empty implies moves@.contains(c) by {
                        if c == col {
                            assert(moves@[moves.len() - 1] == col);
                        } else {
                            assert(before.contains(c));
                            let k = choose|k: int| 0 <= k < before.len() && before[k] == c;
                            assert(moves@[k] == c);
                        }
                    }
                }
            }
            col += 1;
        }
        moves
    }

    /// Whether a run of `win` equal pieces starts at `(r, c)` in direction `d`.
    fn run_from(&self, r: usize, c: usize, d: usize) -> (res: bool)
        requires
            self.wf(),
            r < self@.rows,
            c < self@.cols,
            d < 4,
        ensures
            res == self@.run_at(r as int, c as int, d as int),
    {
        let p = self.piece_at(r, c);
        if p == Pieces::Empty {
            return false;
        }
        let ghost dr = dir_row(d as int);
        let ghost dc = dir_col(d as int);
        let ghost win = self@.win as nat;
        let mut rr = r;
        let mut cc = c;
        let mut left = self.x_to_win;
        while left > 0
            invariant
                self.wf(),
                rr < self@.rows,
                cc < self@.cols,
                left <= win,
                win == self@.win,
                dr == dir_row(d as int),
                dc == dir_col(d as int),
                d < 4,
                p == self@.cell(r as int, c as int),
                self@.line_count(p, r as int, c as int, dr, dc, win) == (win - left)
                    + self@.line_count(p, rr as int, cc as int, dr, dc, left as nat),
            decreases left,
        {
            if self.piece_at(rr, cc) != p {
                proof {
                    lemma_line_count_le(self@, p, rr + dr, cc + dc, dr, dc, (left - 1) as nat);
                }
                return false;
            }
            if left == 1 {
                proof {
                    assert(self@.line_count(p, rr as int, cc as int, dr, dc, 1) == 1
                        + self@.line_count(p, rr + dr, cc + dc, dr, dc, 0));
                }
                left = 0;
            } else {
                let ghost (r0, c0) = (rr as int, cc as int);
                proof {
                    let rest = (left - 1) as nat;
                    assert(self@.line_count(p, r0, c0, dr, dc, left as nat) == 1
                        + self@.line_count(p, r0 + dr, c0 + dc, dr, dc, rest));
                    lemma_line_count_le(
                        self@,
                        p,
                        r0 + dr + dr,
                        c0 + dc + dc,
                        dr,
                        dc,
                        (rest - 1) as nat,
                    );
                    if !self@.in_bounds(r0 + dr, c0 + dc) {
                        assert(self@.line_count(p, r0 + dr, c0 + dc, dr, dc, rest)
                            == self@.line_count(p, r0 + dr + dr, c0 + dc + dc, dr, dc, (rest - 1) as nat));
                    }
                }
                if d == 2 {
                    if rr == 0 {
                        return false;
                    }
                    rr = rr - 1;
                } else if d != 0 {
                    if rr + 1 >= self.rows {
                        return false;
                    }
                    rr = rr + 1;
                }
                if d != 1 {
                    if cc + 1 >= self.cols {
                        return false;
                    }
                    cc = cc + 1;
                }
                left = left - 1;
            }
        }
        true
    }

    /// The outcome: the owner of the first run found scanning cells row by
    /// row and, at each cell, horizontal, vertical, up-diagonal and
    /// down-diagonal in turn; with no run, a tie when the top row is full and
    /// an ongoing game otherwise.
    pub fn game_state(&self) -> (r: GameState)
        requires
            self.wf(),
        ensures
            r == self@.outcome(),
    {
        let mut i: usize = 0;
        while i < self.rows
            invariant
                self.wf(),
                i <= self@.rows,
                self@.scan(0, 0, 0) == self@.scan(i as int, 0, 0),
            decreases self@.rows - i,
        {
            let mut j: usize = 0;
            while j < self.cols
                invariant
                    self.wf(),
                    i < self@.rows,
                    j <= self@.cols,
                    self@.scan(0, 0, 0) == self@.scan(i as int, j as int, 0),
                decreases self@.cols - j,
            {
                let mut d: usize = 0;
                while d < 4
                    invariant
                        self.wf(),
                        i < self@.rows,
                        j < self@.cols,
                        d <= 4,
                        self@.scan(0, 0, 0) == self@.scan(i as int, j as int, d as int),
                    decreases 4 - d,
                {
                    if self.run_from(i, j, d) {
                        let cur_piece = self.piece_at(i, j);
                        return if cur_piece == Pieces::P1 {
                            GameState::P1Win
                        } else {
                            GameState::P2Win
                        };
                    }
                    d += 1;
                }
                j += 1;
            }
            i += 1;
        }
        let mut full = true;
        let mut col: usize = 0;
        while col < self.cols
            invariant
                self.wf(),
                col <= self@.cols,
                full <==> forall|k: int| 0 <= k < col ==> #[trigger] self@.cell(0, k)
                    != Pieces::Empty,
            decreases self@.cols - col,
        {
            if self.piece_at(0, col) == Pieces::Empty {
                full = false;
            }
            col += 1;
        }
        if full {
            GameState::Tie
        } else {
            GameState::OnGoing
        }
    }
}

proof fn lemma_count_filled_update(s: Seq<Pieces>, i: int, p: Pieces)
    requires
        0 <= i < s.len(),
        s[i] == Pieces::Empty,
        p != Pieces::Empty,
    ensures
        count_filled(s.update(i, p)) == count_filled(s) + 1,
    decreases s.len(),
{
    let t = s.update(i, p);
    if i == s.len() - 1 {
        assert(t.drop_last() =~= s.drop_last());
    } else {
        assert(t.drop_last() =~= s.drop_last().update(i, p));
        lemma_count_filled_update(s.drop_last(), i, p);
    }
}

/// A successful drop adds exactly one piece to the board, on the lowest empty
/// cell of the column; every other cell keeps its content.
pub proof fn lemma_place_adds_one(b: BoardView, c: int, p: Pieces)
    requires
        b.wf(),
        p != Pieces::Empty,
        b.can_place(c),
    ensures
        b.placed(c, p).occupied() == b.occupied() + 1,
        b.cell(b.landing_row(c), c) == Pieces::Empty,
        b.placed(c, p).cell(b.landing_row(c), c) == p,
        forall|r: int| b.landing_row(c) < r < b.rows ==> b.cell(r, c) != Pieces::Empty,
        forall|r: int, k: int|
            b.in_bounds(r, k) && !(r == b.landing_row(c) && k == c) ==> #[trigger] b.placed(
                c,
                p,
            ).cell(r, k) == b.cell(r, k),
{
    let l = b.landing_row(c);
    b.lemma_drop_row(c, b.rows);
    lemma_cell_index(l, c, b.rows, b.cols);
    lemma_count_filled_update(b.cells, l * b.cols + c, p);
    b.lemma_with_cell(l, c, p, l, c);
    assert forall|r: int, k: int|
        b.in_bounds(r, k) && !(r == l && k == c) implies #[trigger] b.placed(c, p).cell(r, k)
        == b.cell(r, k) by {
        b.lemma_with_cell(l, c, p, r, k);
    }
}

impl BoardView {
    /// What `scan` reports is found where the scan looks: a reported owner
    /// has a run, and a `None` means no run at or after `(r, c, d)`.
    proof fn lemma_scan(self, r: int, c: int, d: int)
        requires
            0 <= r,
            0 <= c,
            0 <= d,
        ensures
            self.scan(r, c, d) matches Some(p) ==> p != Pieces::Empty && self.has_run(p),
            self.scan(r, c, d) is None ==> forall|r2: int, c2: int, d2: int|
                self.in_bounds(r2, c2) && 0 <= d2 < 4 && (r2 > r || (r2 == r && (c2 > c || (c2
                    == c && d2 >= d)))) ==> !#[trigger] self.run_at(r2, c2, d2),
        decreases self.rows - r, self.cols - c, 4 - d,
    {
        if r >= self.rows {
        } else if c >= self.cols {
            self.lemma_scan(r + 1, 0, 0);
        } else if d >= 4 {
            self.lemma_scan(r, c + 1, 0);
        } else if self.run_at(r, c, d) {
            assert(self.in_bounds(r, c) && 0 <= d < 4 && self.cell(r, c) == self.cell(r, c)
                && self.run_at(r, c, d));
        } else {
            self.lemma_scan(r, c, d + 1);
        }
    }
}

/// The outcome names the right winner wherever the winning run lies and
/// whichever of the four directions it takes: a board on which only one
/// player has a run of `win` pieces is a win for that player, and the game is
/// a tie exactly when nobody has a run and the top row is full.
pub proof fn lemma_outcome_correct(b: BoardView)
    ensures
        b.has_run(Pieces::P1) && !b.has_run(Pieces::P2) ==> b.outcome() == GameState::P1Win,
        b.has_run(Pieces::P2) && !b.has_run(Pieces::P1) ==> b.outcome() == GameState::P2Win,
        b.outcome() == GameState::Tie <==> (!b.has_run(Pieces::P1) && !b.has_run(Pieces::P2)
            && b.top_full()),
        b.outcome() == GameState::OnGoing <==> (!b.has_run(Pieces::P1) && !b.has_run(
            Pieces::P2,
        ) && !b.top_full()),
{
    b.lemma_scan(0, 0, 0);
    if b.scan(0, 0, 0) is None {
        if b.has_run(Pieces::P1) {
            let (r, c, d) = choose|r: int, c: int, d: int|
                b.in_bounds(r, c) && 0 <= d < 4 && b.cell(r, c) == Pieces::P1 && #[trigger] b.run_at(
                    r,
                    c,
                    d,
                );
            assert(!b.run_at(r, c, d));
        }
        if b.has_run(Pieces::P2) {
            let (r, c, d) = choose|r: int, c: int, d: int|
                b.in_bounds(r, c) && 0 <= d < 4 && b.cell(r, c) == Pieces::P2 && #[trigger] b.run_at(
                    r,
                    c,
                    d,
                );
            assert(!b.run_at(r, c, d));
        }
    }
}

proof fn lemma_blank_open_columns(rows: int, cols: int, win: int, n: int)
    requires
        1 <= rows,
        0 <= n <= cols,
    ensures
        blank(rows, cols, win).open_columns(n) == Seq::new(n as nat, |i: int| i),
    decreases n,
{
    if n > 0 {
        lemma_blank_open_columns(rows, cols, win, n - 1);
        lemma_cell_index(0, n - 1, rows, cols);
        assert(blank(rows, cols, win).open_columns(n) =~= Seq::new(n as nat, |i: int| i));
    }
}

/// A cleared board offers every column, in ascending order.
pub proof fn lemma_blank_moves(rows: int, cols: int, win: int)
    requires
        1 <= rows,
        1 <= cols,
    ensures
        blank(rows, cols, win).moves() == Seq::new(cols as nat, |i: int| i),
{
    lemma_blank_open_columns(rows, cols, win, cols);
}

} // verus!
