//! A keyboard copy-mode over a terminal dump: the dump's text and colours, a
//! cursor and a selection on it, a search, and what the screen shows of it all.
pub mod app;
pub mod cell;
pub mod class;
pub mod cli;
pub mod dump;
pub mod effects;
pub mod keys;
pub mod screen;
pub mod search;
pub mod seqs;
pub mod sgr;
pub mod spans;
pub mod terminal;
pub mod text;
