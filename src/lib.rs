//! A letter-guessing assistant for hangman-style puzzles: it filters a word
//! list against a partly revealed pattern and suggests the most useful letter.

pub mod dictionary;
pub mod lemmas;
pub mod session;
pub mod solver;
