//! The Hammerfest autosplitter, as a verified library.
//!
//! Everything that is decided -- when to start, split, reset, or drop a
//! resolution -- and everything that turns the bytes of a Flash heap into a
//! game state lives here, with its contract. Nothing here reads a process or
//! talks to a timer: the host hands values in and executes what comes out.
use vstd::prelude::*;

pub mod atom;
pub mod avm1;
pub mod command;
pub mod diagnostics;
pub mod elf;
pub mod end_sequence;
pub mod hammerfest;
pub mod heap;
pub mod level;
pub mod linear_memory;
pub mod memory;
pub mod names;
pub mod pacing;
pub mod pepper_flash;
pub mod pe;
pub mod replay;
pub mod plugin;
pub mod policy;
pub mod ruffle;
pub mod runtime;
pub mod scan;
pub mod session;
pub mod text;

verus! {

} // verus!
