//! Scoring engine of a quiz-show scoreboard: players, questions, buzzer
//! events and the rules that turn a question's events into scores.
pub mod data;
pub mod keys;
pub mod rules;
pub mod text;
pub mod terminal;
pub mod round;
pub mod loader;
pub mod advance;
pub mod laws;
pub mod display;
pub mod config;
pub mod fits;
