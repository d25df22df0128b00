//! A falling-block puzzle engine: pieces, the playing grid, collision,
//! rotation with wall kicks, row compaction, scoring and game over.
pub mod piece;
pub mod grid;
pub mod game;
