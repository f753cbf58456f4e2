//! Move sources for the players: external input, a random legal move, or the
//! alpha-beta search.
use crate::board::{other, piece_of, Board, BoardView, GameState, Turn};
use crate::search::{child_result, minimax, search_value, searched, TieBreaker};
use macroquad::rand::ChooseRandom;
use vstd::prelude::*;

verus! {

/// Plies searched by the computer player.
pub const SEARCH_DEPTH: u32 = 5;

/// Who makes a seat's moves.
#[derive(Debug, Clone, Copy, PartialEq, Eq, Structural)]
pub enum Agent {
    /// A person; the column comes from outside the engine.
    Player,
    /// A uniformly random legal column.
    Random,
    /// The alpha-beta search at `SEARCH_DEPTH` plies.
    AlphaBeta,
}

/// Relies on `ChooseRandom::choose` of quad-rand (re-exported as
/// `macroquad::rand`): `None` for an empty slice, otherwise one of its elements.
#[verifier::external_body]
fn choose_column(columns: &Vec<usize>) -> (r: Option<usize>)
    ensures
        r is None <==> columns@.len() == 0,
        r is Some ==> columns@.contains(r->0),
{
    columns.choose().cloned()
}

/// Relies on `macroquad::rand::gen_range` (quad-rand): for the range `0 .. n`
/// it returns a value below `n`.
#[verifier::external_body]
fn random_below(n: usize) -> (r: usize)
    requires
        n >= 1,
    ensures
        r < n,
{
    macroquad::rand::gen_range(0, n)
}

/// Tie-breaks drawn from macroquad's global generator, which
/// `macroquad::rand::srand` seeds.
pub struct GlobalRandom;

impl TieBreaker for GlobalRandom {
    fn pick(&mut self, n: usize) -> (r: usize) {
        random_below(n)
    }
}

/// `c` is a column that the full-window search from `b` can return for `turn`:
/// a searched child whose result is the root value.
pub open spec fn search_choice(b: BoardView, turn: Turn, c: usize) -> bool {
    exists|j: int|
        searched(b, SEARCH_DEPTH as nat, i32::MIN as int, i32::MAX as int, true, turn, j)
            && b.moves()[j] == c && child_result(
            b,
            SEARCH_DEPTH as nat,
            i32::MIN as int,
            i32::MAX as int,
            true,
            turn,
            j,
        ) == search_value(b, SEARCH_DEPTH as nat, i32::MIN as int, i32::MAX as int, true, turn)
}

/// What `agent` may answer for `turn` on board `b`, `hint` being the column
/// that outside input resolved for a person.
pub open spec fn valid_choice(
    b: BoardView,
    turn: Turn,
    agent: Agent,
    hint: Option<usize>,
    r: Option<usize>,
) -> bool {
    match agent {
        Agent::Player => r == hint,
        Agent::Random => {
            &&& (r is Some <==> b.moves().len() > 0)
            &&& r matches Some(c) ==> b.moves().contains(c as int)
        },
        Agent::AlphaBeta => {
            &&& (r is None <==> (b.outcome() != GameState::OnGoing || b.moves().len() == 0))
            &&& r matches Some(c) ==> search_choice(b, turn, c)
        },
    }
}

/// A uniformly random legal column, or `None` when there is none.
pub fn random_turn(board: &Board) -> (r: Option<usize>)
    requires
        board.wf(),
    ensures
        r is Some <==> board@.moves().len() > 0,
        r matches Some(c) ==> board@.moves().contains(c as int),
{
    let moves = board.moves();
    proof {
        assert(moves@.map_values(|c: usize| c as int).len() == moves@.len());
    }
    if !moves.is_empty() {
        let r = choose_column(&moves);
        proof {
            if let Some(c) = r {
                let k = choose|k: int| 0 <= k < moves@.len() && moves@[k] == c;
                assert(moves@.map_values(|c: usize| c as int)[k] == c as int);
            }
        }
        r
    } else {
        None
    }
}

/// The column that the search at `SEARCH_DEPTH` plies picks for `turn`.
pub fn alpha_beta_turn(board: &Board, turn: &Turn) -> (r: Option<usize>)
    requires
        board.wf(),
        1 <= board@.win,
    ensures
        r is None <==> (board@.outcome() != GameState::OnGoing || board@.moves().len() == 0),
        r matches Some(c) ==> search_choice(board@, *turn, c),
{
    let mut rng = GlobalRandom;
    let (col, _) = minimax(board, SEARCH_DEPTH, i32::MIN, i32::MAX, true, turn, &mut rng);
    col
}

/// Asks `agent` for `turn`'s column; the board is not changed. A person's
/// column is `hint`, passed on as it is.
pub fn choose_move(board: &Board, turn: &Turn, agent: &Agent, hint: Option<usize>) -> (r: Option<
    usize,
>)
    requires
        board.wf(),
        1 <= board@.win,
    ensures
        valid_choice(board@, *turn, *agent, hint, r),
{
    match agent {
        Agent::Player => hint,
        Agent::Random => random_turn(board),
        Agent::AlphaBeta => alpha_beta_turn(board, turn),
    }
}

/// Plays one turn: asks `agent` for a column and drops `current_turn`'s piece
/// there; the turn passes to the other player only when the drop succeeds.
/// Returns the column asked for.
pub fn compute_turn(
    current_turn: &mut Turn,
    agent: &Agent,
    board: &mut Board,
    hint: Option<usize>,
) -> (r: Option<usize>)
    requires
        old(board).wf(),
        1 <= old(board)@.win,
    ensures
        valid_choice(old(board)@, *old(current_turn), *agent, hint, r),
        final(board).wf(),
        r is None ==> final(board)@ == old(board)@ && *final(current_turn) == *old(current_turn),
        r matches Some(c) ==> final(board)@ == old(board)@.placed(
            c as int,
            piece_of(*old(current_turn)),
        ) && *final(current_turn) == if old(board)@.can_place(c as int) {
            other(*old(current_turn))
        } else {
            *old(current_turn)
        },
{
    let chosen_move = choose_move(board, current_turn, agent, hint);
    if let Some(col) = chosen_move {
        if board.place(col, current_turn) {
            *current_turn = current_turn.next();
        }
        return chosen_move;
    }
    None
}

} // verus!
