use mini_dbg::target::{align_addr_to_word, write_byte_in_word, Target, TRAP_BYTE};

/// A toy tracee text segment, addressable word by word like the real one.
struct SimMemory {
    base: usize,
    bytes: Vec<u8>,
}

impl SimMemory {
    fn new(base: usize, bytes: Vec<u8>) -> SimMemory {
        SimMemory { base, bytes }
    }

    fn peek(&self, aligned: usize) -> u64 {
        let off = aligned - self.base;
        let mut w: u64 = 0;
        for k in 0..8 {
            w |= (self.bytes[off + k] as u64) << (8 * k);
        }
        w
    }

    fn poke(&mut self, aligned: usize, word: u64) {
        let off = aligned - self.base;
        for k in 0..8 {
            self.bytes[off + k] = ((word >> (8 * k)) & 0xff) as u8;
        }
    }

    fn byte_at(&self, addr: usize) -> u8 {
        self.bytes[addr - self.base]
    }

    /// Peek-modify-poke one byte, as the tracer does over the kernel.
    fn write_byte(&mut self, addr: usize, byte: u8) -> u8 {
        let aligned = align_addr_to_word(addr);
        let k = (addr - aligned) as u64;
        let (updated, orig) = write_byte_in_word(self.peek(aligned), k, byte);
        self.poke(aligned, updated);
        orig
    }
}

fn fresh_text() -> SimMemory {
    SimMemory::new(0x1000, (0..64u8).map(|b| b.wrapping_mul(7).wrapping_add(3)).collect())
}

#[test]
fn set_breakpoint_installs_trap_and_records_original() {
    let mut mem = fresh_text();
    let mut t = Target::create(0x1000);
    let addr = 0x1005;
    let before = mem.byte_at(addr);

    let aligned = align_addr_to_word(addr);
    let word = mem.peek(aligned);
    let new_word = t.set_breakpoint(addr, word).expect("fresh address");
    mem.poke(aligned, new_word);

    assert_eq!(mem.byte_at(addr), TRAP_BYTE);
    assert_eq!(t.breakpoints.len(), 1);
    assert_eq!(t.breakpoints[0].address, addr);
    assert_eq!(t.breakpoints[0].idx, 0);
    assert_eq!(t.breakpoints[0].original_byte, before);
    assert!(!t.breakpoints[0].set_on_continue);
    // Only the addressed byte changed.
    for a in 0x1000..0x1040 {
        if a != addr {
            assert_eq!(mem.byte_at(a), fresh_text().byte_at(a));
        }
    }
}

#[test]
fn set_breakpoint_twice_is_idempotent() {
    // Second request: no new entry, the recorded original byte is untouched,
    // and no word comes back, so no second trap byte reaches memory.
    let mut mem = fresh_text();
    let mut t = Target::create(0x1000);
    let addr = 0x100B;
    let before = mem.byte_at(addr);

    let aligned = align_addr_to_word(addr);
    let w = t.set_breakpoint(addr, mem.peek(aligned)).unwrap();
    mem.poke(aligned, w);

    let again = t.set_breakpoint(addr, mem.peek(aligned));
    assert!(again.is_none());
    assert_eq!(t.breakpoints.len(), 1);
    assert_eq!(t.breakpoints[0].original_byte, before);
    assert_eq!(t.breakpoints[0].idx, 0);
}

#[test]
fn delete_breakpoint_restores_original_byte() {
    // Set then delete: the text byte is exactly what it was (restore
    // round trip), and a later run would raise neither SIGTRAP nor SIGILL.
    let mut mem = fresh_text();
    let pristine = fresh_text();
    let mut t = Target::create(0x1000);
    let addr = 0x1011;

    let aligned = align_addr_to_word(addr);
    let w = t.set_breakpoint(addr, mem.peek(aligned)).unwrap();
    mem.poke(aligned, w);
    assert_eq!(mem.byte_at(addr), TRAP_BYTE);

    let w = t.delete_breakpoint(addr, mem.peek(aligned)).expect("breakpoint exists");
    mem.poke(aligned, w);

    assert_eq!(t.breakpoints.len(), 0);
    for a in 0x1000..0x1040 {
        assert_eq!(mem.byte_at(a), pristine.byte_at(a));
    }
}

#[test]
fn delete_unknown_breakpoint_changes_nothing() {
    let mem = fresh_text();
    let mut t = Target::create(0x1000);
    let aligned = align_addr_to_word(0x1022);
    assert!(t.delete_breakpoint(0x1022, mem.peek(aligned)).is_none());
    assert_eq!(t.breakpoints.len(), 0);
}

#[test]
fn trap_stop_reports_breakpoint_address() {
    // Breakpoint transparency: the INT3 leaves the program counter one past
    // the trap; the digested stop reports the breakpoint's own address.
    let mut mem = fresh_text();
    let mut t = Target::create(0x1000);
    let addr = 0x1008;
    let before = mem.byte_at(addr);

    let aligned = align_addr_to_word(addr);
    let w = t.set_breakpoint(addr, mem.peek(aligned)).unwrap();
    mem.poke(aligned, w);

    let stop = t.on_trap_stop(addr + 1);
    assert_eq!(stop.rip, addr);
    assert_eq!(stop.hit, Some(before));
    assert!(t.breakpoints[0].set_on_continue);
}

#[test]
fn trap_stop_elsewhere_is_not_ours() {
    let mut t = Target::create(0x1000);
    let stop = t.on_trap_stop(0x1999);
    assert_eq!(stop.rip, 0x1998);
    assert_eq!(stop.hit, None);
}

#[test]
fn hit_and_continue_steps_over_and_rearms() {
    // The step-over-self protocol, end to end on simulated memory: hit the
    // breakpoint, lift the trap, resume from the same address. The resume
    // plan demands one single step first, re-arms the trap byte, and leaves
    // the breakpoint armed with its original byte intact.
    let mut mem = fresh_text();
    let mut t = Target::create(0x1000);
    let addr = 0x100C;
    let before = mem.byte_at(addr);

    let aligned = align_addr_to_word(addr);
    let w = t.set_breakpoint(addr, mem.peek(aligned)).unwrap();
    mem.poke(aligned, w);

    // The child runs into the trap: SIGTRAP with the counter one past it.
    let stop = t.on_trap_stop(addr + 1);
    let restore = stop.hit.expect("our breakpoint");
    mem.write_byte(stop.rip, restore);
    assert_eq!(mem.byte_at(addr), before, "trap lifted for re-execution");

    // Resume from the breakpoint's address.
    let plan = t.begin_continue(addr);
    assert!(plan.need_single_step, "must step over the re-armed trap first");
    assert_eq!(plan.rearm, vec![addr]);
    for a in plan.rearm.iter() {
        let al = align_addr_to_word(*a);
        let word = mem.peek(al);
        let k = (*a - al) as u64;
        let (updated, _) = write_byte_in_word(word, k, TRAP_BYTE);
        mem.poke(al, updated);
    }
    assert_eq!(mem.byte_at(addr), TRAP_BYTE, "armed again after resume");
    assert!(!t.breakpoints[0].set_on_continue);
    assert_eq!(t.breakpoints[0].original_byte, before);

    // A second resume from elsewhere needs no single step.
    let plan = t.begin_continue(0x1030);
    assert!(!plan.need_single_step);
    assert!(plan.rearm.is_empty());
}

#[test]
fn continue_from_other_address_rearms_without_step() {
    let mut mem = fresh_text();
    let mut t = Target::create(0x1000);
    let addr = 0x1014;

    let aligned = align_addr_to_word(addr);
    let w = t.set_breakpoint(addr, mem.peek(aligned)).unwrap();
    mem.poke(aligned, w);

    let stop = t.on_trap_stop(addr + 1);
    mem.write_byte(stop.rip, stop.hit.unwrap());

    // The user single-stepped past the breakpoint before resuming.
    let plan = t.begin_continue(addr + 1);
    assert_eq!(plan.rearm, vec![addr]);
    assert!(!plan.need_single_step);
}

#[test]
fn breakpoint_numbers_grow_monotonically() {
    let mut mem = fresh_text();
    let mut t = Target::create(0x1000);
    for (n, addr) in [0x1003usize, 0x1009, 0x1021].iter().enumerate() {
        let aligned = align_addr_to_word(*addr);
        let w = t.set_breakpoint(*addr, mem.peek(aligned)).unwrap();
        mem.poke(aligned, w);
        assert_eq!(t.breakpoints[n].idx, n as u32);
    }
    // Deleting does not recycle numbers.
    let aligned = align_addr_to_word(0x1009);
    let w = t.delete_breakpoint(0x1009, mem.peek(aligned)).unwrap();
    mem.poke(aligned, w);
    let aligned = align_addr_to_word(0x1030);
    let w = t.set_breakpoint(0x1030, mem.peek(aligned)).unwrap();
    mem.poke(aligned, w);
    assert_eq!(t.breakpoints.last().unwrap().idx, 3);
}

#[test]
fn module_offset_subtracts_load_base() {
    let t = Target::create(0x555555554000);
    assert_eq!(t.get_virtual_address(0x555555555129), 0x1129);
}
