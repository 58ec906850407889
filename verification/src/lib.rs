//! Core rules engine of a falling-block puzzle game: geometry primitives,
//! piece shapes with shift/rotate and positional correction, the occupancy
//! grid with line-clear detection and compaction, scoring and level
//! progression. Rendering, input handling and persistence are left to the
//! surrounding application, which drives the engine through `Tetris`.
pub mod color;
pub mod game;
pub mod geometry;
pub mod map;
pub mod random;
pub mod score;
pub mod tetrimino;
pub mod tetris;
