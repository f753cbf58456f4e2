//! A connect-K game engine: board rules, win detection, a windowed heuristic
//! and an alpha-beta search that picks moves for a computer player.

pub mod agent;
pub mod board;
pub mod grid;
pub mod heuristic;
pub mod search;

pub use agent::{
    alpha_beta_turn, choose_move, compute_turn, random_turn, Agent, GlobalRandom, SEARCH_DEPTH,
};
pub use board::{Board, GameState, Pieces, Turn, MAX_CELLS};
pub use search::{minimax, TieBreaker};
