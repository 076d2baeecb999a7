//! The command-line client: what it makes of its arguments and of the replies.

pub mod device;
pub mod failure;
pub mod keycodes;
pub mod keymap;
pub mod lighting;
pub mod macros;
pub mod parse;
pub mod spelling;
