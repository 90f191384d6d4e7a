//! Rules engine for the classic two-player disc-flipping game on an 8x8
//! grid: move legality, capture propagation, turn alternation, and
//! terminal-state scoring. All I/O (prompting, printing) lives outside this
//! crate; callers hand in plain coordinates and receive board snapshots.

pub mod board;
pub mod cell;
pub mod game;
pub mod laws;
pub mod text;
