//! Core simulation of the classic Snake game.
//!
//! A [`game::Game`] owns the board dimensions, the snake body, the food
//! position, the current heading, the score and the terminal flag, and is
//! advanced one step at a time by [`game::Game::update`].  A greedy
//! single-step heuristic, [`game::Game::ai_move`], picks the direction whose
//! next cell is closest to the food.  [`leaderboard`] keeps a bounded,
//! descending list of scores.
//!
//! Transport, session handling and serialization are left to the caller; the
//! simulation itself is pure in-memory state manipulation.

pub mod game;
pub mod leaderboard;
