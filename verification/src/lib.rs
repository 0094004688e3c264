//! Heuristic judging of submitted source code: language detection and three
//! per-line-normalized scores (cleanliness, correctness, structure), each
//! with the notes that explain it.
pub mod models;
pub mod quick;
pub mod scoring;
pub mod state;
pub mod text;
