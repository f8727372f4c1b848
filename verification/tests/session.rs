use mini_dbg::debugger::{
    breakpoint_target_address, is_trap_stop, stop_disposition, StopAction, TraceeStop, SIGSEGV_NUM,
    SIGTRAP_NUM,
};
use mini_dbg::gimliwrapper::{AttrName, AttrValue, DieAttr, DieRecord, DieTag, GimliWrapper, UnitDies};
use mini_dbg::replcommand::{should_wait, ReplCommand};
use mini_dbg::target::{get_cfa, get_offset_from_cfa, mask_to_byte_size, Target};
use mini_dbg::util::add_offset;

fn main_index() -> GimliWrapper {
    GimliWrapper::create(&vec![UnitDies {
        dies: vec![DieRecord {
            tag: DieTag::Subprogram,
            offset: 0x1d,
            attrs: vec![
                DieAttr { name: AttrName::Name, value: AttrValue::Name(String::from("main")) },
                DieAttr { name: AttrName::LowPc, value: AttrValue::Addr(0x1129) },
                DieAttr { name: AttrName::HighPc, value: AttrValue::Udata(0x20) },
            ],
        }],
    }])
}

#[test]
fn resume_commands_wait_for_a_stop() {
    assert!(should_wait(&ReplCommand::Continue));
    assert!(should_wait(&ReplCommand::SingleStep));
    assert!(!should_wait(&ReplCommand::Backtrace));
    assert!(!should_wait(&ReplCommand::SetBp(0x1129)));
    assert!(!should_wait(&ReplCommand::Exit));
}

#[test]
fn exit_stop_drops_the_child_with_its_code() {
    // Hit and continue to completion: `int main(){int x=3; return x;}`
    // exits with code 3.
    assert_eq!(stop_disposition(&TraceeStop::Exited(3)), StopAction::DropTarget(3));
    assert_eq!(stop_disposition(&TraceeStop::Exited(0)), StopAction::DropTarget(0));
}

#[test]
fn segfault_stop_is_reported_as_such() {
    // `int main(){*(int*)0=0;}` stops with SIGSEGV; the child is kept for
    // inspection and the fault is flagged.
    assert_eq!(stop_disposition(&TraceeStop::Stopped(SIGSEGV_NUM)), StopAction::ReportSegfault);
    assert_eq!(stop_disposition(&TraceeStop::Stopped(SIGTRAP_NUM)), StopAction::ReportStop);
    assert_eq!(stop_disposition(&TraceeStop::Signaled(9)), StopAction::ReportStop);
}

#[test]
fn only_the_trap_signal_runs_the_breakpoint_protocol() {
    assert!(is_trap_stop(&TraceeStop::Stopped(SIGTRAP_NUM)));
    assert!(!is_trap_stop(&TraceeStop::Stopped(SIGSEGV_NUM)));
    assert!(!is_trap_stop(&TraceeStop::Exited(0)));
}

#[test]
fn named_breakpoint_lands_at_function_entry_plus_base() {
    let index = main_index();
    let base = 0x555555554000;
    assert_eq!(breakpoint_target_address(&index, "main", base), Some(0x555555555129));
    assert_eq!(breakpoint_target_address(&index, "other", base), None);
}

#[test]
fn breakpoint_at_main_entry_stops_at_low_pc_plus_base() {
    // Scenario: `b main; cont` stops with the instruction pointer at
    // main's entry, low_pc + base.
    let index = main_index();
    let base = 0x555555554000;
    let addr = breakpoint_target_address(&index, "main", base).unwrap();

    let mut t = Target::create(base);
    let word = 0x1122334455667788u64;
    assert!(t.set_breakpoint(addr, word).is_some());

    let stop = t.on_trap_stop(addr + 1);
    assert_eq!(stop.rip, addr);
    assert_eq!(stop.rip, 0x1129 + base);
    assert_eq!(t.get_virtual_address(stop.rip), 0x1129);
}

#[test]
fn cfa_is_rbp_plus_sixteen() {
    // The canonical frame address under the standard prologue, with the
    // values of a real frame: rbp 0x7fffffffdde0, previous frame's stack
    // pointer 0x7fffffffddf0.
    assert_eq!(get_cfa(0x7fffffffdde0), 0x7fffffffddf0);
}

#[test]
fn locals_sit_at_cfa_relative_offsets() {
    let rbp = 0x7fffffffdde0usize;
    assert_eq!(get_offset_from_cfa(rbp, -20), 0x7fffffffdddc);
    assert_eq!(get_offset_from_cfa(rbp, -24), 0x7fffffffddd8);
    assert_eq!(add_offset(100, -1), 99);
    assert_eq!(add_offset(100, 28), 128);
}

#[test]
fn backtrace_walk_visits_frames_in_order() {
    // void a(){} void b(){a();} int main(){b();return 0;} — stopped in `a`,
    // the frame-pointer chain yields a, b, main, then the zero base pointer
    // ends the walk. The stack is simulated word by word.
    let base = 0x555555554000usize;
    let mut stack: std::collections::HashMap<usize, u64> = std::collections::HashMap::new();
    let rbp_a = 0x7fffffffdd90usize;
    let rbp_b = 0x7fffffffddb0usize;
    let rbp_main = 0x7fffffffddd0usize;
    // Each frame: [rbp] = caller's rbp, [rbp+8] = return address.
    stack.insert(rbp_a, rbp_b as u64);
    stack.insert(rbp_a + 8, (base + 0x1141) as u64); // inside b
    stack.insert(rbp_b, rbp_main as u64);
    stack.insert(rbp_b + 8, (base + 0x1155) as u64); // inside main
    stack.insert(rbp_main, 0);
    stack.insert(rbp_main + 8, (base + 0x9999) as u64);

    let t = Target::create(base);
    let mut rbp = rbp_a;
    let mut rip = base + 0x1130usize; // inside a
    let mut offsets: Vec<usize> = Vec::new();
    while rbp != 0 {
        offsets.push(t.get_virtual_address(rip));
        rip = stack[&(rbp + 8)] as usize;
        rbp = stack[&rbp] as usize;
    }
    assert_eq!(offsets, vec![0x1130, 0x1141, 0x1155]);
    assert_eq!(offsets.len(), 3);
}

#[test]
fn parameter_readout_is_masked_to_its_type() {
    // int f(int x){return x;} int main(){return f(42);} — stopped in `f`,
    // the 4-byte parameter x at its frame-base offset reads 42, rendered
    // 0x000000000000002a.
    let rbp = 0x7fffffffdde0usize;
    let x_addr = get_offset_from_cfa(rbp, -20);
    let mut stack: std::collections::HashMap<usize, u64> = std::collections::HashMap::new();
    stack.insert(x_addr, 0xffff_ffff_0000_002a); // stale high bytes beyond the int
    let raw = stack[&x_addr];
    let shown = mask_to_byte_size(raw, 4);
    assert_eq!(format!("{} = {:#018x}", "x", shown), "x = 0x000000000000002a");
}
