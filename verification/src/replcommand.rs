//! The commands the read–eval loop can hand in. Reading and tokenising the
//! line itself happens outside this crate; address tokens are parsed by
//! [`crate::util::parse_address`].

use vstd::prelude::*;

verus! {

/// One debugger command.
#[derive(Debug, Clone, PartialEq, Eq)]
pub enum ReplCommand {
    Start,
    Continue,
    Exit,
    Unknown,
    SetBp(usize),
    SetBpName(String),
    DeleteBp(usize),
    ListBps,
    GetRegs,
    SingleStep,
    Backtrace,
    Frame,
    GetVar,
}

/// Whether a command resumes the child, so that the loop must block on the
/// next stop afterwards: resuming and single-stepping do, nothing else does.
pub fn should_wait(cmd: &ReplCommand) -> (r: bool)
    ensures
        r == (cmd is Continue || cmd is SingleStep),
{
    match cmd {
        ReplCommand::Continue => true,
        ReplCommand::SingleStep => true,
        _ => false,
    }
}

} // verus!
