//! Core of a falling-block puzzle game.
//!
//! The library owns a fixed 40-row by 10-column grid of cells, a catalog of
//! the seven piece kinds with their compact shapes and side margins, a
//! deterministic seven-bag randomizer that picks the n-th piece kind from a
//! session seed, a per-session controller with a delayed-auto-shift /
//! auto-repeat handling state machine, and the movement engine that shifts
//! the controlled piece one column at a time, respecting the board edges.
//!
//! The surrounding application delivers per-tick key state and consumes the
//! cell coordinate deltas that movement reports; rendering, audio, windowing
//! and configuration persistence stay outside this crate.

pub mod bag;
pub mod board;
pub mod control;
pub mod mino;
