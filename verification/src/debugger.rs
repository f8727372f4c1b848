//! The session's decisions: what a child-stop means for the read–eval loop,
//! and where a breakpoint named by function lands in memory.

use vstd::prelude::*;

use crate::gimliwrapper::{spec_find_function, GimliWrapper};

verus! {

/// Signal numbers the session reacts to.
pub const SIGTRAP_NUM: i32 = 5;

pub const SIGSEGV_NUM: i32 = 11;

/// A child stop as the kernel reports it: exit with a code, a stop by a
/// signal, death by a signal, or anything else.
#[derive(Clone, Copy, PartialEq, Eq, Structural, Debug)]
pub enum TraceeStop {
    Exited(i32),
    Stopped(i32),
    Signaled(i32),
    Other,
}

/// What the loop does after a stop: drop the dead child and report its exit
/// code, report a segmentation fault at the current location, or report the
/// current location.
#[derive(Clone, Copy, PartialEq, Eq, Structural, Debug)]
pub enum StopAction {
    DropTarget(i32),
    ReportSegfault,
    ReportStop,
}

/// Decides what a stop means: an exit drops the child and carries its code;
/// a segmentation-fault stop is reported as such, with the child kept for
/// inspection; every other stop just reports where the child stands.
pub fn stop_disposition(stop: &TraceeStop) -> (r: StopAction)
    ensures
        r == (match *stop {
            TraceeStop::Exited(code) => StopAction::DropTarget(code),
            TraceeStop::Stopped(sig) => if sig == SIGSEGV_NUM {
                StopAction::ReportSegfault
            } else {
                StopAction::ReportStop
            },
            _ => StopAction::ReportStop,
        }),
{
    match stop {
        TraceeStop::Exited(code) => StopAction::DropTarget(*code),
        TraceeStop::Stopped(sig) => {
            if *sig == SIGSEGV_NUM {
                StopAction::ReportSegfault
            } else {
                StopAction::ReportStop
            }
        },
        _ => StopAction::ReportStop,
    }
}

/// Whether a stop is the trap stop that the breakpoint protocol must digest
/// (via `Target::on_trap_stop`): a stop by the trap signal.
pub fn is_trap_stop(stop: &TraceeStop) -> (r: bool)
    ensures
        r == (*stop == TraceeStop::Stopped(SIGTRAP_NUM)),
{
    match stop {
        TraceeStop::Stopped(sig) => *sig == SIGTRAP_NUM,
        _ => false,
    }
}

/// Where a breakpoint set on a function by name lands: the function's first
/// range's low address plus the load base. Nothing when no function has the
/// name, when it has no range, or when the sum leaves the address space.
pub fn breakpoint_target_address(dwarf: &GimliWrapper, name: &str, base_address: usize) -> (r:
    Option<usize>)
    ensures
        r == (match spec_find_function(dwarf.functions_v(), name@) {
            Some(f) => if f.address_range.len() > 0 && f.address_range[0].0 + base_address
                <= usize::MAX {
                Some((f.address_range[0].0 + base_address) as usize)
            } else {
                None::<usize>
            },
            None => None::<usize>,
        }),
{
    match dwarf.get_function_by_name(name) {
        None => None,
        Some(f) => {
            if f.address_range.len() == 0 {
                return None;
            }
            let (low, _high) = f.address_range[0];
            low.checked_add(base_address)
        },
    }
}

} // verus!
