//! A verified Minesweeper game engine.
//!
//! The library models the full game state machine: board generation with
//! randomized mine placement, the reveal cascade, flag handling, chord
//! clicks, win/loss detection, and the elapsed-time tracker. Player actions
//! return the per-cell change notifications and follow-up commands (score
//! submission, the loss-reveal animation) as plain data, so that a UI layer
//! can drive rendering and background tasks without touching the verified
//! state directly.

pub mod game_logic;
pub mod game_settings;
pub mod scores;
pub mod utils;
mod rng;
