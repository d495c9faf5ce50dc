//! Dense codec for the king + three knights versus king endgame: board
//! squares, rotation-canonical states and an overlap-free packed index.

pub mod compaction;
pub mod encoding;
pub mod laws;
pub mod notation;
pub mod position;
pub mod state;
