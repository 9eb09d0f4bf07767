//! A browser in the terminal, drawn through the kitty graphics protocol.
//!
//! The library holds the logic of the program: the registry that tells
//! which handlers run on which event, the translation of terminal input into
//! browser input, the decisions of the input, capture and render loops, and
//! the framing of screenshots as kitty graphics commands.
pub mod browser;
pub mod handlers;
pub mod image;
pub mod input;
pub mod state;
pub mod ui;
