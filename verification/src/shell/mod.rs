//! The kernel shell's logic: expression evaluation, the editor's text
//! positions, command history, argument parsing and command recognition.

pub mod calc;
pub mod editor;
pub mod history;
pub mod args;
pub mod command;
pub mod line;
pub mod netcmd;
pub mod hexdump;
