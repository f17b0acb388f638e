//! Chess move generation: per-piece move enumeration, attack detection,
//! castling and en-passant handling, promotion expansion, a compact move
//! encoding, and a staged move-ordering sequence for search.

pub mod board;
pub mod encoding;
pub mod rules;
pub mod attack;
pub mod gen;
pub mod order;
pub mod laws;
