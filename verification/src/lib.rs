//! Core logic of a source-level debugger for native ELF executables on
//! Linux/x86-64: software-breakpoint bookkeeping and the word-level byte
//! patching it rests on, DWARF debug-information indexing over plain
//! debugging-information-entry records, address arithmetic for frames and
//! locals, and the parsers for hex addresses and location expressions.
//!
//! Process control itself (ptrace, fork/exec, file reading) happens outside
//! this crate; every function here computes decisions and values from plain
//! inputs and is verified.

pub mod debugger;
pub mod debuginfo;
pub mod exprloc;
pub mod gimliwrapper;
pub mod replcommand;
pub mod target;
pub mod util;

pub use util::add_offset;
pub use util::parse_address;
