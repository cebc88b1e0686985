//! The terminal-hacking minigame: a grid of background characters with hidden
//! words, a cursor that highlights either a single character or a whole word,
//! a limited number of attempts, and the menus around the game.
//!
//! Everything that decides what happens lives here and is verified; drawing
//! to the terminal and reading events is left to the program around it.

pub mod cursor;
pub mod text;
pub mod geometry;
pub mod random;
pub mod search;
pub mod wordlists;
pub mod main_widget;
pub mod top_widget;
pub mod right_widget;
pub mod events;
pub mod menu;
pub mod game;
pub mod app;
