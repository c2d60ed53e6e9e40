//! A word-guessing game engine: per-letter feedback for a guess against a
//! secret word, the knowledge a round accumulates about the alphabet, the
//! hard-mode legality rule, candidate narrowing and a frequency-based
//! recommender, with the bookkeeping a session keeps around them.

pub mod status;
pub mod word;
pub mod feedback;
pub mod hint;
pub mod hard_mode;
pub mod ranking;
pub mod recommend;
pub mod secret;
pub mod input;
pub mod game;
pub mod render;
pub mod lexical;
pub mod stats;
pub mod wordlist;
pub mod args;
