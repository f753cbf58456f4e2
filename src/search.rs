//! Depth-limited minimax with alpha-beta pruning. Values are seen from the
//! root player's side: `i32::MAX` is a won game, `i32::MIN` a lost one.
use crate::board::{other, piece_of, Board, BoardView, GameState, Turn};
use crate::heuristic::lemma_score_bounds;
use vstd::prelude::*;

verus! {

/// A source of tie-break choices for the search.
pub trait TieBreaker {
    /// An index below `n`.
    fn pick(&mut self, n: usize) -> (r: usize)
        requires
            n >= 1,
        ensures
            r < n,
    ;
}

/// The value of a finished game for `root`.
pub open spec fn terminal_value(g: GameState, root: Turn) -> int {
    match g {
        GameState::P1Win => if root == Turn::Player1 {
            i32::MAX as int
        } else {
            i32::MIN as int
        },
        GameState::P2Win => if root == Turn::Player2 {
            i32::MAX as int
        } else {
            i32::MIN as int
        },
        _ => 0,
    }
}

/// The player who moves at a node: the root player at maximizing nodes.
pub open spec fn mover(maximizing: bool, root: Turn) -> Turn {
    if maximizing {
        root
    } else {
        other(root)
    }
}

/// The board after the mover plays the `i`-th legal move.
pub open spec fn child(b: BoardView, i: int, maximizing: bool, root: Turn) -> BoardView {
    b.placed(b.moves()[i], piece_of(mover(maximizing, root)))
}

/// The value a node starts from before any child is seen.
pub open spec fn initial_value(maximizing: bool) -> int {
    if maximizing {
        i32::MIN as int
    } else {
        i32::MAX as int
    }
}

/// `(value, alpha, beta)` after a child returned `v`.
pub open spec fn ab_step(s: (int, int, int), v: int, maximizing: bool) -> (int, int, int) {
    if maximizing {
        let value = if v > s.0 {
            v
        } else {
            s.0
        };
        (value, if value > s.1 {
            value
        } else {
            s.1
        }, s.2)
    } else {
        let value = if v < s.0 {
            v
        } else {
            s.0
        };
        (value, s.1, if value < s.2 {
            value
        } else {
            s.2
        })
    }
}

/// The value that alpha-beta search returns for `b`.
pub open spec fn search_value(
    b: BoardView,
    depth: nat,
    alpha: int,
    beta: int,
    maximizing: bool,
    root: Turn,
) -> int
    decreases depth, b.moves().len() + 1,
{
    if depth == 0 {
        b.score(piece_of(root))
    } else if b.outcome() != GameState::OnGoing {
        terminal_value(b.outcome(), root)
    } else if b.moves().len() == 0 {
        0
    } else {
        search_state(b, depth, alpha, beta, maximizing, root, b.moves().len()).0
    }
}

/// `(value, alpha, beta)` of the search at `b` once `i` children were
/// considered; after a cut-off (alpha >= beta) the remaining children are
/// skipped and the state stays.
pub open spec fn search_state(
    b: BoardView,
    depth: nat,
    alpha: int,
    beta: int,
    maximizing: bool,
    root: Turn,
    i: nat,
) -> (int, int, int)
    decreases depth, i,
{
    if i == 0 || depth == 0 {
        (initial_value(maximizing), alpha, beta)
    } else {
        let s = search_state(b, depth, alpha, beta, maximizing, root, (i - 1) as nat);
        if i >= 2 && s.1 >= s.2 {
            s
        } else {
            ab_step(
                s,
                search_value(
                    child(b, i - 1, maximizing, root),
                    (depth - 1) as nat,
                    s.1,
                    s.2,
                    !maximizing,
                    root,
                ),
                maximizing,
            )
        }
    }
}

/// Child `j` is searched: no cut-off happened before it.
pub open spec fn searched(
    b: BoardView,
    depth: nat,
    alpha: int,
    beta: int,
    maximizing: bool,
    root: Turn,
    j: int,
) -> bool {
    &&& 0 <= j < b.moves().len()
    &&& (j == 0 || search_state(b, depth, alpha, beta, maximizing, root, j as nat).1 < search_state(
        b,
        depth,
        alpha,
        beta,
        maximizing,
        root,
        j as nat,
    ).2)
}

/// What the search of child `j` returns, inside the window current then.
pub open spec fn child_result(
    b: BoardView,
    depth: nat,
    alpha: int,
    beta: int,
    maximizing: bool,
    root: Turn,
    j: int,
) -> int {
    let s = search_state(b, depth, alpha, beta, maximizing, root, j as nat);
    search_value(child(b, j, maximizing, root), (depth - 1) as nat, s.1, s.2, !maximizing, root)
}

/// The plain minimax value of `b`, every child searched.
pub open spec fn minimax_value(b: BoardView, depth: nat, maximizing: bool, root: Turn) -> int
    decreases depth, b.moves().len() + 1,
{
    if depth == 0 {
        b.score(piece_of(root))
    } else if b.outcome() != GameState::OnGoing {
        terminal_value(b.outcome(), root)
    } else if b.moves().len() == 0 {
        0
    } else {
        minimax_fold(b, depth, maximizing, root, b.moves().len())
    }
}

/// The best value among the first `i` children, starting from `initial_value`.
pub open spec fn minimax_fold(b: BoardView, depth: nat, maximizing: bool, root: Turn, i: nat) -> int
    decreases depth, i,
{
    if i == 0 || depth == 0 {
        initial_value(maximizing)
    } else {
        let m = minimax_fold(b, depth, maximizing, root, (i - 1) as nat);
        let v = minimax_value(child(b, i - 1, maximizing, root), (depth - 1) as nat, !maximizing, root);
        if maximizing {
            if v > m {
                v
            } else {
                m
            }
        } else {
            if v < m {
                v
            } else {
                m
            }
        }
    }
}

/// Once a cut-off happened at child `k`, the state no longer changes.
proof fn lemma_cut_stable(
    b: BoardView,
    depth: nat,
    alpha: int,
    beta: int,
    maximizing: bool,
    root: Turn,
    k: nat,
    i: nat,
)
    requires
        1 <= k <= i,
        search_state(b, depth, alpha, beta, maximizing, root, k).1 >= search_state(
            b,
            depth,
            alpha,
            beta,
            maximizing,
            root,
            k,
        ).2,
    ensures
        search_state(b, depth, alpha, beta, maximizing, root, i) == search_state(
            b,
            depth,
            alpha,
            beta,
            maximizing,
            root,
            k,
        ),
    decreases i,
{
    if i > k {
        lemma_cut_stable(b, depth, alpha, beta, maximizing, root, k, (i - 1) as nat);
    }
}

/// Alpha-beta search. Returns the value `search_value` gives and, unless the
/// depth is 0, the game is over or no move is left, a searched column whose
/// result equals that value; among equally good columns each later one
/// replaces the choice with probability 1/n, n being the number seen so far.
pub fn minimax<R: TieBreaker>(
    board: &Board,
    depth: u32,
    alpha: i32,
    beta: i32,
    maximizing_player: bool,
    turn: &Turn,
    rng: &mut R,
) -> (r: (Option<usize>, i32))
    requires
        board.wf(),
        1 <= board@.win,
    ensures
        r.1 == search_value(
            board@,
            depth as nat,
            alpha as int,
            beta as int,
            maximizing_player,
            *turn,
        ),
        r.0 is None <==> (depth == 0 || board@.outcome() != GameState::OnGoing
            || board@.moves().len() == 0),
        r.0 matches Some(c) ==> exists|j: int|
            searched(board@, depth as nat, alpha as int, beta as int, maximizing_player, *turn, j)
                && board@.moves()[j] == c && child_result(
                board@,
                depth as nat,
                alpha as int,
                beta as int,
                maximizing_player,
                *turn,
                j,
            ) == r.1,
    decreases depth,
{
    if depth == 0 {
        return (None, board.score_position(turn));
    }
    let board_state = board.game_state();
    if board_state != GameState::OnGoing {
        if board_state == GameState::P1Win {
            return match turn {
                Turn::Player1 => (None, i32::MAX),
                Turn::Player2 => (None, i32::MIN),
            };
        } else if board_state == GameState::P2Win {
            return match turn {
                Turn::Player1 => (None, i32::MIN),
                Turn::Player2 => (None, i32::MAX),
            };
        } else {
            return (None, 0);
        }
    }
    let valid_locations = board.moves();
    if valid_locations.len() == 0 {
        return (None, 0);
    }
    let mover_turn = if maximizing_player {
        *turn
    } else {
        turn.next()
    };
    let ghost b = board@;
    let ghost d = depth as nat;
    let mut value: i32 = if maximizing_player {
        i32::MIN
    } else {
        i32::MAX
    };
    let mut a = alpha;
    let mut bt = beta;
    let mut column: Option<usize> = None;
    let mut ties: usize = 0;
    let mut k: usize = 0;
    while k < valid_locations.len()
        invariant_except_break
            k == 0 || a < bt,
        invariant
            board.wf(),
            1 <= board@.win,
            b == board@,
            d == depth as nat,
            depth >= 1,
            b.outcome() == GameState::OnGoing,
            valid_locations@.map_values(|c: usize| c as int) == b.moves(),
            valid_locations.len() >= 1,
            mover_turn == mover(maximizing_player, *turn),
            k <= valid_locations.len(),
            ties <= k,
            (value as int, a as int, bt as int) == search_state(
                b,
                d,
                alpha as int,
                beta as int,
                maximizing_player,
                *turn,
                k as nat,
            ),
            column is None <==> k == 0,
            column matches Some(c) ==> exists|j: int|
                j < k && searched(b, d, alpha as int, beta as int, maximizing_player, *turn, j)
                    && b.moves()[j] == c && child_result(
                    b,
                    d,
                    alpha as int,
                    beta as int,
                    maximizing_player,
                    *turn,
                    j,
                ) == value,
        ensures
            k >= 1,
            k == valid_locations.len() || a >= bt,
            (value as int, a as int, bt as int) == search_state(
                b,
                d,
                alpha as int,
                beta as int,
                maximizing_player,
                *turn,
                k as nat,
            ),
            column is Some,
            column matches Some(c) ==> exists|j: int|
                j < k && searched(b, d, alpha as int, beta as int, maximizing_player, *turn, j)
                    && b.moves()[j] == c && child_result(
                    b,
                    d,
                    alpha as int,
                    beta as int,
                    maximizing_player,
                    *turn,
                    j,
                ) == value,
        decreases valid_locations.len() - k,
    {
        let col = valid_locations[k];
        proof {
            assert(valid_locations@.map_values(|c: usize| c as int)[k as int] == col as int);
        }
        let b_copy = board.result(col, &mover_turn);
        proof {
            b.lemma_placed_wf(col as int, piece_of(mover_turn));
        }
        let (_, new_score) = minimax(&b_copy, depth - 1, a, bt, !maximizing_player, turn, rng);
        let ghost prev = value;
        let better = if maximizing_player {
            new_score > value
        } else {
            new_score < value
        };
        if column.is_none() || better {
            value = new_score;
            column = Some(col);
            ties = 1;
        } else if new_score == value {
            ties = ties + 1;
            if rng.pick(ties) == 0 {
                column = Some(col);
            }
        }
        if maximizing_player {
            if value > a {
                a = value;
            }
        } else {
            if value < bt {
                bt = value;
            }
        }
        proof {
            assert(searched(b, d, alpha as int, beta as int, maximizing_player, *turn, k as int));
        }
        k += 1;
        if a >= bt {
            break;
        }
    }
    proof {
        if k < valid_locations.len() {
            lemma_cut_stable(
                b,
                d,
                alpha as int,
                beta as int,
                maximizing_player,
                *turn,
                k as nat,
                b.moves().len(),
            );
        }
    }
    (column, value)
}

/// `x` brought into `lo ..= hi`.
pub open spec fn clamp(x: int, lo: int, hi: int) -> int {
    if x < lo {
        lo
    } else if x > hi {
        hi
    } else {
        x
    }
}

/// Inside any window, alpha-beta search agrees with plain minimax once both
/// values are brought into the window.
pub proof fn lemma_window(
    b: BoardView,
    depth: nat,
    alpha: int,
    beta: int,
    maximizing: bool,
    root: Turn,
)
    requires
        i32::MIN <= alpha < beta <= i32::MAX,
    ensures
        clamp(search_value(b, depth, alpha, beta, maximizing, root), alpha, beta) == clamp(
            minimax_value(b, depth, maximizing, root),
            alpha,
            beta,
        ),
    decreases depth, b.moves().len() + 1,
{
    if depth > 0 && b.outcome() == GameState::OnGoing && b.moves().len() > 0 {
        lemma_window_fold(b, depth, alpha, beta, maximizing, root, b.moves().len());
    }
}

/// The loop-level form of `lemma_window`: after `i` children the pruned and
/// the plain folds agree once clamped, and alpha (or beta) is the bound that
/// the pruned value has reached.
proof fn lemma_window_fold(
    b: BoardView,
    depth: nat,
    alpha: int,
    beta: int,
    maximizing: bool,
    root: Turn,
    i: nat,
)
    requires
        i32::MIN <= alpha < beta <= i32::MAX,
        depth >= 1,
    ensures
        ({
            let s = search_state(b, depth, alpha, beta, maximizing, root, i);
            &&& clamp(s.0, alpha, beta) == clamp(
                minimax_fold(b, depth, maximizing, root, i),
                alpha,
                beta,
            )
            &&& maximizing ==> s.1 == (if s.0 > alpha {
                s.0
            } else {
                alpha
            }) && s.2 == beta
            &&& !maximizing ==> s.1 == alpha && s.2 == (if s.0 < beta {
                s.0
            } else {
                beta
            })
        }),
    decreases depth, i,
{
    if i > 0 {
        lemma_window_fold(b, depth, alpha, beta, maximizing, root, (i - 1) as nat);
        let s = search_state(b, depth, alpha, beta, maximizing, root, (i - 1) as nat);
        if !(i >= 2 && s.1 >= s.2) {
            lemma_window(
                child(b, i - 1, maximizing, root),
                (depth - 1) as nat,
                s.1,
                s.2,
                !maximizing,
                root,
            );
        }
    }
}

/// Every value of the search lies in `i32::MIN ..= i32::MAX`.
proof fn lemma_search_range(
    b: BoardView,
    depth: nat,
    alpha: int,
    beta: int,
    maximizing: bool,
    root: Turn,
)
    requires
        b.wf(),
        1 <= b.win,
    ensures
        i32::MIN <= search_value(b, depth, alpha, beta, maximizing, root) <= i32::MAX,
    decreases depth, b.moves().len() + 1,
{
    if depth == 0 {
        lemma_score_bounds(b, piece_of(root));
    } else if b.outcome() == GameState::OnGoing && b.moves().len() > 0 {
        lemma_search_state_range(b, depth, alpha, beta, maximizing, root, b.moves().len());
    }
}

proof fn lemma_search_state_range(
    b: BoardView,
    depth: nat,
    alpha: int,
    beta: int,
    maximizing: bool,
    root: Turn,
    i: nat,
)
    requires
        b.wf(),
        1 <= b.win,
    ensures
        i32::MIN <= search_state(b, depth, alpha, beta, maximizing, root, i).0 <= i32::MAX,
    decreases depth, i,
{
    if i > 0 && depth > 0 {
        lemma_search_state_range(b, depth, alpha, beta, maximizing, root, (i - 1) as nat);
        let s = search_state(b, depth, alpha, beta, maximizing, root, (i - 1) as nat);
        b.lemma_placed_wf(b.moves()[i - 1], piece_of(mover(maximizing, root)));
        lemma_search_range(
            child(b, i - 1, maximizing, root),
            (depth - 1) as nat,
            s.1,
            s.2,
            !maximizing,
            root,
        );
    }
}

/// Every plain minimax value lies in `i32::MIN ..= i32::MAX`.
proof fn lemma_minimax_range(b: BoardView, depth: nat, maximizing: bool, root: Turn)
    requires
        b.wf(),
        1 <= b.win,
    ensures
        i32::MIN <= minimax_value(b, depth, maximizing, root) <= i32::MAX,
    decreases depth, b.moves().len() + 1,
{
    if depth == 0 {
        lemma_score_bounds(b, piece_of(root));
    } else if b.outcome() == GameState::OnGoing && b.moves().len() > 0 {
        lemma_minimax_fold_range(b, depth, maximizing, root, b.moves().len());
    }
}

proof fn lemma_minimax_fold_range(b: BoardView, depth: nat, maximizing: bool, root: Turn, i: nat)
    requires
        b.wf(),
        1 <= b.win,
    ensures
        i32::MIN <= minimax_fold(b, depth, maximizing, root, i) <= i32::MAX,
    decreases depth, i,
{
    if i > 0 && depth > 0 {
        lemma_minimax_fold_range(b, depth, maximizing, root, (i - 1) as nat);
        b.lemma_placed_wf(b.moves()[i - 1], piece_of(mover(maximizing, root)));
        lemma_minimax_range(child(b, i - 1, maximizing, root), (depth - 1) as nat, !maximizing, root);
    }
}

/// Pruning never changes the value: alpha-beta search over the full window
/// `i32::MIN ..= i32::MAX` returns exactly the plain minimax value, for every
/// board, depth, side to move and root player.
pub proof fn lemma_pruning_keeps_value(b: BoardView, depth: nat, maximizing: bool, root: Turn)
    requires
        b.wf(),
        1 <= b.win,
    ensures
        search_value(b, depth, i32::MIN as int, i32::MAX as int, maximizing, root)
            == minimax_value(b, depth, maximizing, root),
{
    lemma_window(b, depth, i32::MIN as int, i32::MAX as int, maximizing, root);
    lemma_search_range(b, depth, i32::MIN as int, i32::MAX as int, maximizing, root);
    lemma_minimax_range(b, depth, maximizing, root);
}

} // verus!
