//! A controller for a traced debuggee process: software breakpoints patched
//! into the debuggee's memory, resuming with transparent step-over, decoding of
//! wait events, and frame-pointer stack unwinding.

pub mod breakpoints;
pub mod debugger;
pub mod debugger_command;
pub mod hangman;
pub mod inferior;
pub mod protocol;
pub mod status;
pub mod symbols;
pub mod text;
pub mod theorems;
pub mod trace;
mod tracee;
pub mod warmup;
pub mod word;
