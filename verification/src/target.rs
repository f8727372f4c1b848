//! The breakpoint engine: word-granular byte patching and the table of
//! software breakpoints with its two-state protocol (armed / transient).
//!
//! The tracee's memory is only reachable word by word, so installing the
//! one-byte trap opcode means read a word, splice the byte in, write the
//! word back. The splice itself is pure arithmetic and is verified here;
//! the caller performs the actual peek and poke around it.

use vstd::prelude::*;

verus! {

/// The single-byte x86 opcode that raises SIGTRAP (INT3).
pub const TRAP_BYTE: u8 = 0xCC;

/// The `k`-th byte (little-endian, `k < 8`) of a 64-bit word.
pub open spec fn byte_of_word(word: u64, k: u64) -> u8 {
    ((word >> ((8 * k) as u64)) & 0xff) as u8
}

/// `word` with its `k`-th byte (little-endian, `k < 8`) replaced by `byte`.
pub open spec fn patched_word(word: u64, k: u64, byte: u8) -> u64 {
    (word & !(0xffu64 << ((8 * k) as u64))) | ((byte as u64) << ((8 * k) as u64))
}

/// Start of the aligned word that `addr` falls in.
pub open spec fn word_base(addr: usize) -> usize {
    addr & !(7usize)
}

/// Position of `addr`'s byte within its aligned word.
pub open spec fn word_index(addr: usize) -> u64 {
    (addr % 8) as u64
}

/// Rounds an address down to its containing word.
pub fn align_addr_to_word(addr: usize) -> (r: usize)
    ensures
        r == word_base(addr),
        r <= addr,
        addr - r == word_index(addr),
        word_index(addr) < 8,
{
    proof {
        assert(addr & !(7usize) <= addr && addr - (addr & !(7usize)) == addr % 8 && addr % 8 < 8)
            by (bit_vector);
    }
    addr & !(7usize)
}

/// Splices `byte` into position `k` of `word`; returns the updated word and
/// the byte it displaced.
pub fn write_byte_in_word(word: u64, k: u64, byte: u8) -> (r: (u64, u8))
    requires
        k < 8,
    ensures
        r.0 == patched_word(word, k, byte),
        r.1 == byte_of_word(word, k),
{
    let shift: u64 = 8 * k;
    let orig: u8 = ((word >> shift) & 0xff) as u8;
    let masked: u64 = word & !(0xffu64 << shift);
    let updated: u64 = masked | ((byte as u64) << shift);
    (updated, orig)
}

/// Patching replaces exactly the addressed byte: position `k` reads back as
/// the new byte, every other position is untouched.
pub proof fn lemma_patched_word_bytes(word: u64, k: u64, byte: u8, j: u64)
    requires
        k < 8,
        j < 8,
    ensures
        byte_of_word(patched_word(word, k, byte), j) == if j == k {
            byte
        } else {
            byte_of_word(word, j)
        },
{
    assert(((((word & !(0xffu64 << ((8 * k) as u64))) | ((byte as u64) << ((8 * k) as u64)))
        >> ((8 * j) as u64)) & 0xff) as u8 == if j == k {
        byte
    } else {
        ((word >> ((8 * j) as u64)) & 0xff) as u8
    }) by (bit_vector)
        requires
            k < 8,
            j < 8,
    ;
}

/// Law: installing the trap byte and then writing back the byte it displaced
/// restores the original word exactly, and right after installing, the
/// addressed byte reads back as the trap byte. Setting then deleting a
/// breakpoint therefore restores the original instruction byte.
pub proof fn lemma_write_byte_round_trip(word: u64, k: u64, trap: u8)
    requires
        k < 8,
    ensures
        byte_of_word(patched_word(word, k, trap), k) == trap,
        patched_word(patched_word(word, k, trap), k, byte_of_word(word, k)) == word,
{
    assert({
        let p = (word & !(0xffu64 << ((8 * k) as u64))) | ((trap as u64) << ((8 * k) as u64));
        let orig = ((word >> ((8 * k) as u64)) & 0xff) as u8;
        &&& ((p >> ((8 * k) as u64)) & 0xff) as u8 == trap
        &&& (p & !(0xffu64 << ((8 * k) as u64))) | ((orig as u64) << ((8 * k) as u64)) == word
    }) by (bit_vector)
        requires
            k < 8,
    ;
}

/// A software breakpoint: where it sits, its human-facing number, the
/// instruction byte the trap opcode displaced, and whether the trap has been
/// lifted and must be re-armed before the tracee next makes forward progress.
#[derive(Clone, Copy, PartialEq, Eq, Structural, Debug)]
pub struct Breakpoint {
    pub address: usize,
    pub idx: u32,
    pub original_byte: u8,
    pub set_on_continue: bool,
}

/// The address-keyed breakpoint mapping that a breakpoint sequence denotes.
pub open spec fn bp_map(s: Seq<Breakpoint>) -> Map<usize, Breakpoint>
    decreases s.len(),
{
    if s.len() == 0 {
        Map::empty()
    } else {
        bp_map(s.drop_last()).insert(s.last().address, s.last())
    }
}

/// No two breakpoints in the sequence share an address.
pub open spec fn addrs_distinct(s: Seq<Breakpoint>) -> bool {
    forall|i: int, j: int|
        0 <= i < j < s.len() ==> s[i].address != s[j].address
}

pub proof fn lemma_bp_map_contains(s: Seq<Breakpoint>, a: usize)
    ensures
        bp_map(s).contains_key(a) <==> exists|i: int| 0 <= i < s.len() && s[i].address == a,
    decreases s.len(),
{
    if s.len() > 0 {
        lemma_bp_map_contains(s.drop_last(), a);
        if s.last().address != a && bp_map(s).contains_key(a) {
            let i = choose|i: int| 0 <= i < s.drop_last().len() && s.drop_last()[i].address == a;
            assert(s[i].address == a);
        }
        if exists|i: int| 0 <= i < s.len() && s[i].address == a {
            let i = choose|i: int| 0 <= i < s.len() && s[i].address == a;
            if i < s.len() - 1 {
                assert(s.drop_last()[i].address == a);
            }
        }
    }
}

/// Every breakpoint is keyed by its own address (invariant I2).
pub proof fn lemma_bp_map_keyed_by_address(s: Seq<Breakpoint>, a: usize)
    requires
        addrs_distinct(s),
        bp_map(s).contains_key(a),
    ensures
        bp_map(s)[a].address == a,
{
    lemma_bp_map_contains(s, a);
    let i = choose|i: int| 0 <= i < s.len() && s[i].address == a;
    lemma_bp_map_index(s, i);
}

pub proof fn lemma_bp_map_index(s: Seq<Breakpoint>, i: int)
    requires
        addrs_distinct(s),
        0 <= i < s.len(),
    ensures
        bp_map(s).contains_key(s[i].address),
        bp_map(s)[s[i].address] == s[i],
    decreases s.len(),
{
    if i == s.len() - 1 {
    } else {
        assert(s.drop_last()[i] == s[i]);
        lemma_bp_map_index(s.drop_last(), i);
        assert(s[i].address != s.last().address);
    }
}

/// Removing the breakpoint at position `i` removes exactly its address from
/// the denoted mapping.
pub proof fn lemma_bp_map_remove(s: Seq<Breakpoint>, i: int)
    requires
        addrs_distinct(s),
        0 <= i < s.len(),
    ensures
        bp_map(s.remove(i)) == bp_map(s).remove(s[i].address),
    decreases s.len(),
{
    let a = s[i].address;
    if i == s.len() - 1 {
        assert(s.remove(i) =~= s.drop_last());
        lemma_bp_map_contains(s.drop_last(), a);
        assert forall|j: int| 0 <= j < s.drop_last().len() implies s.drop_last()[j].address != a by {
            assert(s[j].address == s.drop_last()[j].address);
        }
        assert(!bp_map(s.drop_last()).contains_key(a));
        assert(bp_map(s.drop_last()).insert(a, s.last()).remove(a) =~= bp_map(s.drop_last()));
    } else {
        assert(s.remove(i).drop_last() =~= s.drop_last().remove(i));
        assert(s.remove(i).last() == s.last());
        lemma_bp_map_remove(s.drop_last(), i);
        assert(s.drop_last()[i] == s[i]);
        assert(s.last().address != a);
        assert(bp_map(s.drop_last()).remove(a).insert(s.last().address, s.last()) =~= bp_map(
            s.drop_last(),
        ).insert(s.last().address, s.last()).remove(a));
    }
}

/// Replacing the breakpoint at position `i` by one with the same address
/// overwrites exactly that address in the denoted mapping.
pub proof fn lemma_bp_map_update(s: Seq<Breakpoint>, i: int, b: Breakpoint)
    requires
        addrs_distinct(s),
        0 <= i < s.len(),
        b.address == s[i].address,
    ensures
        bp_map(s.update(i, b)) == bp_map(s).insert(b.address, b),
    decreases s.len(),
{
    let a = b.address;
    if i == s.len() - 1 {
        assert(s.update(i, b).drop_last() =~= s.drop_last());
        assert(s.update(i, b).last() == b);
    } else {
        assert(s.update(i, b).drop_last() =~= s.drop_last().update(i, b));
        assert(s.update(i, b).last() == s.last());
        assert(s.drop_last()[i] == s[i]);
        lemma_bp_map_update(s.drop_last(), i, b);
        assert(s.last().address != a);
        assert(bp_map(s.drop_last()).insert(a, b).insert(s.last().address, s.last()) =~= bp_map(
            s.drop_last(),
        ).insert(s.last().address, s.last()).insert(a, b));
    }
}

/// A breakpoint with its transient flag lowered.
pub open spec fn cleared_bp(b: Breakpoint) -> Breakpoint {
    Breakpoint { set_on_continue: false, ..b }
}

/// A breakpoint marked as just hit: its trap byte has been lifted and must be
/// re-armed on the next resume.
pub open spec fn hit_bp(b: Breakpoint) -> Breakpoint {
    Breakpoint { set_on_continue: true, ..b }
}

/// The breakpoint mapping after a resume: every transient flag lowered.
pub open spec fn clear_flags(m: Map<usize, Breakpoint>) -> Map<usize, Breakpoint> {
    Map::new(|a: usize| m.contains_key(a), |a: usize| cleared_bp(m[a]))
}

/// The breakpoint mapping after a trap at address `a`: if `a` is ours, it is
/// marked as hit; otherwise nothing changes.
pub open spec fn mark_hit(m: Map<usize, Breakpoint>, a: usize) -> Map<usize, Breakpoint> {
    if m.contains_key(a) {
        m.insert(a, hit_bp(m[a]))
    } else {
        m
    }
}

/// Whether the mapping holds a just-hit breakpoint at `a`.
pub open spec fn flagged_at(m: Map<usize, Breakpoint>, a: usize) -> bool {
    m.contains_key(a) && m[a].set_on_continue
}

/// The addresses of the just-hit breakpoints, in table order.
pub open spec fn flagged_addrs(s: Seq<Breakpoint>) -> Seq<usize>
    decreases s.len(),
{
    if s.len() == 0 {
        Seq::empty()
    } else if s.last().set_on_continue {
        flagged_addrs(s.drop_last()).push(s.last().address)
    } else {
        flagged_addrs(s.drop_last())
    }
}

/// What one breakpoint-set request does to the table: an address that is
/// already taken leaves everything as it is; a fresh one gets the next
/// human-facing number and records the displaced instruction byte.
pub open spec fn set_bp_step(
    m: Map<usize, Breakpoint>,
    next: u32,
    addr: usize,
    orig: u8,
) -> (Map<usize, Breakpoint>, u32) {
    if m.contains_key(addr) {
        (m, next)
    } else {
        (
            m.insert(
                addr,
                Breakpoint { address: addr, idx: next, original_byte: orig, set_on_continue: false },
            ),
            (next + 1) as u32,
        )
    }
}

/// Lowering every transient flag on the table, element by element, denotes
/// `clear_flags` of the denoted mapping.
proof fn lemma_bp_map_pointwise_clear(s: Seq<Breakpoint>, t: Seq<Breakpoint>)
    requires
        s.len() == t.len(),
        forall|i: int| 0 <= i < s.len() ==> t[i] == cleared_bp(s[i]),
    ensures
        bp_map(t) == clear_flags(bp_map(s)),
    decreases s.len(),
{
    if s.len() == 0 {
        assert(bp_map(t) =~= clear_flags(bp_map(s)));
    } else {
        assert(forall|i: int|
            0 <= i < s.drop_last().len() ==> s.drop_last()[i] == s[i] && t.drop_last()[i] == t[i]);
        lemma_bp_map_pointwise_clear(s.drop_last(), t.drop_last());
        assert(t.last() == cleared_bp(s.last()));
        assert(clear_flags(bp_map(s.drop_last())).insert(
            s.last().address,
            cleared_bp(s.last()),
        ) =~= clear_flags(bp_map(s.drop_last()).insert(s.last().address, s.last())));
    }
}

/// The verified core of the tracee: the load base and the breakpoint table.
/// The process identity and its memory live with the caller, which performs
/// the peeks and pokes that the methods here decide on and compute.
pub struct Target {
    pub base_address: usize,
    pub next_bp_num: u32,
    pub breakpoints: Vec<Breakpoint>,
}

/// What the caller must do to resume the tracee: re-install the trap byte at
/// each of these addresses, and single-step once first when the current
/// instruction pointer sits on one of them.
pub struct ContinuePlan {
    pub rearm: Vec<usize>,
    pub need_single_step: bool,
}

/// Outcome of a SIGTRAP stop: the corrected instruction pointer, and, when
/// the trap was one of ours, the instruction byte to write back over it.
pub struct TrapStop {
    pub rip: usize,
    pub hit: Option<u8>,
}

impl Target {
    /// The address-keyed breakpoint mapping this table denotes.
    pub open spec fn bps(self) -> Map<usize, Breakpoint> {
        bp_map(self.breakpoints@)
    }

    /// Well-formed: one breakpoint per address, and every assigned number is
    /// below the next free one.
    pub open spec fn wf(self) -> bool {
        &&& addrs_distinct(self.breakpoints@)
        &&& forall|i: int|
            0 <= i < self.breakpoints@.len() ==> self.breakpoints@[i].idx < self.next_bp_num
    }

    /// A fresh target with no breakpoints, loaded at `base_address`.
    pub fn create(base_address: usize) -> (t: Target)
        ensures
            t.wf(),
            t.base_address == base_address,
            t.next_bp_num == 0,
            t.bps() == Map::<usize, Breakpoint>::empty(),
    {
        Target { base_address, next_bp_num: 0, breakpoints: Vec::new() }
    }

    /// Position of the breakpoint at `addr` in the table, if any.
    fn find_bp_index(&self, addr: usize) -> (r: Option<usize>)
        ensures
            match r {
                Some(i) => i < self.breakpoints@.len() && self.breakpoints@[i as int].address
                    == addr,
                None => forall|i: int|
                    0 <= i < self.breakpoints@.len() ==> self.breakpoints@[i].address != addr,
            },
    {
        let mut i: usize = 0;
        while i < self.breakpoints.len()
            invariant
                i <= self.breakpoints@.len(),
                forall|j: int| 0 <= j < i ==> self.breakpoints@[j].address != addr,
            decreases self.breakpoints@.len() - i,
        {
            if self.breakpoints[i].address == addr {
                return Some(i);
            }
            i = i + 1;
        }
        None
    }

    /// Whether a breakpoint is set at `addr`.
    pub fn has_breakpoint(&self, addr: usize) -> (r: bool)
        ensures
            r == self.bps().contains_key(addr),
    {
        proof {
            lemma_bp_map_contains(self.breakpoints@, addr);
        }
        self.find_bp_index(addr).is_some()
    }

    /// Module offset of an instruction pointer: the form all debug
    /// information expresses addresses in.
    pub fn get_virtual_address(&self, rip: usize) -> (r: usize)
        requires
            self.base_address <= rip,
        ensures
            r == rip - self.base_address,
    {
        rip - self.base_address
    }

    /// Requests a breakpoint at `addr`. `word_at_addr` is the tracee memory
    /// word containing `addr`. An address already taken changes nothing and
    /// yields `None`; otherwise the table gains the entry and the result is
    /// the word, with the trap byte spliced in, for the caller to write back.
    pub fn set_breakpoint(&mut self, addr: usize, word_at_addr: u64) -> (r: Option<u64>)
        requires
            old(self).wf(),
            old(self).next_bp_num < u32::MAX,
        ensures
            final(self).wf(),
            final(self).base_address == old(self).base_address,
            (final(self).bps(), final(self).next_bp_num) == set_bp_step(
                old(self).bps(),
                old(self).next_bp_num,
                addr,
                byte_of_word(word_at_addr, word_index(addr)),
            ),
            r == if old(self).bps().contains_key(addr) {
                None::<u64>
            } else {
                Some(patched_word(word_at_addr, word_index(addr), TRAP_BYTE))
            },
    {
        proof {
            lemma_bp_map_contains(self.breakpoints@, addr);
        }
        match self.find_bp_index(addr) {
            Some(_) => None,
            None => {
                let aligned = align_addr_to_word(addr);
                let k: u64 = (addr - aligned) as u64;
                let (updated, orig) = write_byte_in_word(word_at_addr, k, TRAP_BYTE);
                let bp = Breakpoint {
                    address: addr,
                    idx: self.next_bp_num,
                    original_byte: orig,
                    set_on_continue: false,
                };
                self.next_bp_num = self.next_bp_num + 1;
                self.breakpoints.push(bp);
                proof {
                    assert(self.breakpoints@.drop_last() =~= old(self).breakpoints@);
                }
                Some(updated)
            },
        }
    }

    /// Deletes the breakpoint at `addr`. `word_at_addr` is the tracee memory
    /// word containing `addr`. If the breakpoint exists, the entry goes away
    /// and the result is the word with the displaced instruction byte
    /// restored, for the caller to write back; otherwise nothing changes.
    pub fn delete_breakpoint(&mut self, addr: usize, word_at_addr: u64) -> (r: Option<u64>)
        requires
            old(self).wf(),
        ensures
            final(self).wf(),
            final(self).base_address == old(self).base_address,
            final(self).next_bp_num == old(self).next_bp_num,
            old(self).bps().contains_key(addr) ==> {
                &&& r == Some(
                    patched_word(
                        word_at_addr,
                        word_index(addr),
                        old(self).bps()[addr].original_byte,
                    ),
                )
                &&& final(self).bps() == old(self).bps().remove(addr)
            },
            !old(self).bps().contains_key(addr) ==> {
                &&& r == None::<u64>
                &&& final(self).breakpoints@ == old(self).breakpoints@
            },
    {
        proof {
            lemma_bp_map_contains(self.breakpoints@, addr);
        }
        match self.find_bp_index(addr) {
            None => None,
            Some(i) => {
                let bp = self.breakpoints[i];
                proof {
                    lemma_bp_map_index(self.breakpoints@, i as int);
                    lemma_bp_map_remove(self.breakpoints@, i as int);
                }
                let aligned = align_addr_to_word(addr);
                let k: u64 = (addr - aligned) as u64;
                let (updated, _) = write_byte_in_word(word_at_addr, k, bp.original_byte);
                self.breakpoints.remove(i);
                proof {
                    let so = old(self).breakpoints@;
                    assert forall|x: int, y: int|
                        0 <= x < y < self.breakpoints@.len() implies self.breakpoints@[x].address
                        != self.breakpoints@[y].address by {
                        let xo: int = if x < i { x } else { x + 1 };
                        let yo: int = if y < i { y } else { y + 1 };
                        assert(self.breakpoints@[x] == so[xo] && self.breakpoints@[y] == so[yo]);
                    }
                }
                Some(updated)
            },
        }
    }

    /// Prepares to resume the tracee whose instruction pointer is `rip`:
    /// lowers every transient flag and hands back the addresses whose trap
    /// byte must be re-installed, plus whether a single step over the current
    /// instruction has to happen before the actual continue.
    pub fn begin_continue(&mut self, rip: usize) -> (plan: ContinuePlan)
        requires
            old(self).wf(),
        ensures
            final(self).wf(),
            final(self).base_address == old(self).base_address,
            final(self).next_bp_num == old(self).next_bp_num,
            plan.rearm@ == flagged_addrs(old(self).breakpoints@),
            plan.need_single_step == flagged_at(old(self).bps(), rip),
            final(self).bps() == clear_flags(old(self).bps()),
    {
        let ghost so = self.breakpoints@;
        let mut rearm: Vec<usize> = Vec::new();
        let mut need: bool = false;
        let mut i: usize = 0;
        while i < self.breakpoints.len()
            invariant
                so == old(self).breakpoints@,
                addrs_distinct(so),
                forall|j: int| 0 <= j < so.len() ==> so[j].idx < old(self).next_bp_num,
                self.base_address == old(self).base_address,
                self.next_bp_num == old(self).next_bp_num,
                i <= so.len(),
                self.breakpoints@.len() == so.len(),
                forall|j: int| 0 <= j < i ==> self.breakpoints@[j] == cleared_bp(so[j]),
                forall|j: int| i <= j < so.len() ==> self.breakpoints@[j] == so[j],
                rearm@ == flagged_addrs(so.take(i as int)),
                need == exists|j: int| 0 <= j < i && so[j].set_on_continue && so[j].address == rip,
            decreases so.len() - i,
        {
            let mut b = self.breakpoints[i];
            proof {
                assert(so.take(i + 1).drop_last() =~= so.take(i as int));
                assert(so.take(i + 1).last() == so[i as int]);
            }
            if b.set_on_continue {
                rearm.push(b.address);
                if b.address == rip {
                    need = true;
                }
                b.set_on_continue = false;
                self.breakpoints[i] = b;
            }
            assert(self.breakpoints@[i as int] == cleared_bp(so[i as int]));
            i = i + 1;
        }
        proof {
            assert(so.take(so.len() as int) =~= so);
            lemma_bp_map_pointwise_clear(so, self.breakpoints@);
            assert forall|x: int, y: int|
                0 <= x < y < self.breakpoints@.len() implies self.breakpoints@[x].address
                != self.breakpoints@[y].address by {
                assert(self.breakpoints@[x] == cleared_bp(so[x]));
                assert(self.breakpoints@[y] == cleared_bp(so[y]));
            }
            if need {
                let j = choose|j: int|
                    0 <= j < so.len() && so[j].set_on_continue && so[j].address == rip;
                lemma_bp_map_index(so, j);
            }
            if flagged_at(bp_map(so), rip) {
                lemma_bp_map_contains(so, rip);
                let j = choose|j: int| 0 <= j < so.len() && so[j].address == rip;
                lemma_bp_map_index(so, j);
            }
        }
        ContinuePlan { rearm, need_single_step: need }
    }

    /// Digests a SIGTRAP stop. `trap_rip` is the raw instruction pointer,
    /// which the trap opcode left one byte past the trap address. The
    /// corrected pointer comes back in `rip`; when the trap address is one of
    /// our breakpoints, it is marked as hit and `hit` carries the displaced
    /// instruction byte for the caller to write back over the trap, so that
    /// the tracee re-executes the original instruction.
    pub fn on_trap_stop(&mut self, trap_rip: usize) -> (r: TrapStop)
        requires
            old(self).wf(),
            trap_rip >= 1,
        ensures
            final(self).wf(),
            final(self).base_address == old(self).base_address,
            final(self).next_bp_num == old(self).next_bp_num,
            r.rip == trap_rip - 1,
            final(self).bps() == mark_hit(old(self).bps(), (trap_rip - 1) as usize),
            r.hit == if old(self).bps().contains_key((trap_rip - 1) as usize) {
                Some(old(self).bps()[(trap_rip - 1) as usize].original_byte)
            } else {
                None::<u8>
            },
    {
        let rip = trap_rip - 1;
        proof {
            lemma_bp_map_contains(self.breakpoints@, rip);
        }
        match self.find_bp_index(rip) {
            None => TrapStop { rip, hit: None },
            Some(i) => {
                let mut b = self.breakpoints[i];
                proof {
                    lemma_bp_map_index(self.breakpoints@, i as int);
                }
                b.set_on_continue = true;
                let orig = b.original_byte;
                self.breakpoints[i] = b;
                proof {
                    lemma_bp_map_update(old(self).breakpoints@, i as int, b);
                    assert forall|x: int, y: int|
                        0 <= x < y < self.breakpoints@.len() implies self.breakpoints@[x].address
                        != self.breakpoints@[y].address by {
                        assert(old(self).breakpoints@[x].address != old(
                            self,
                        ).breakpoints@[y].address);
                    }
                }
                TrapStop { rip, hit: Some(orig) }
            },
        }
    }
}

/// Canonical frame address of a frame whose base pointer is `rbp`, under the
/// standard x86-64 prologue: `rbp` holds the saved caller frame pointer,
/// `rbp + 8` the return address, so the stack pointer at the call site — the
/// CFA — was `rbp + 16`. This is the law that after a `call` into a function
/// with the standard prologue, `cfa == rbp + 16`, the caller's stack pointer.
pub fn get_cfa(rbp: usize) -> (cfa: usize)
    requires
        rbp + 16 <= usize::MAX,
    ensures
        cfa == rbp + 16,
{
    rbp + 16
}

/// Address of a frame-base-relative local: the frame's CFA plus the signed
/// offset from its location expression.
pub fn get_offset_from_cfa(rbp: usize, offset: isize) -> (r: usize)
    requires
        rbp + 16 <= usize::MAX,
        0 <= rbp + 16 + offset <= usize::MAX,
    ensures
        r == rbp + 16 + offset,
{
    let cfa = get_cfa(rbp);
    crate::util::add_offset(cfa, offset)
}

/// A word read from a local's address, masked down to the low `byte_size`
/// bytes of the variable's type; sizes of a full word and beyond leave the
/// word as it is.
pub open spec fn masked_value(val: u64, byte_size: u64) -> u64 {
    if byte_size >= 8 {
        val
    } else {
        val & (((1u64 << ((8 * byte_size) as u64)) - 1) as u64)
    }
}

/// Masks a raw memory word down to a variable's byte size.
pub fn mask_to_byte_size(val: u64, byte_size: u64) -> (r: u64)
    ensures
        r == masked_value(val, byte_size),
{
    if byte_size >= 8 {
        val
    } else {
        let shift: u64 = 8 * byte_size;
        proof {
            assert(byte_size < 8 ==> (1u64 << ((8 * byte_size) as u64)) >= 1) by (bit_vector);
        }
        val & ((1u64 << shift) - 1)
    }
}

/// The addresses of the just-hit breakpoints, as a set.
pub open spec fn flagged_set(m: Map<usize, Breakpoint>) -> Set<usize> {
    Set::new(|a: usize| flagged_at(m, a))
}

/// The byte image of the tracee's text after a resume re-installed the trap
/// byte at every just-hit address.
pub open spec fn rearm_all(mem: Map<usize, u8>, flagged: Set<usize>) -> Map<usize, u8> {
    Map::new(
        |a: usize| mem.contains_key(a),
        |a: usize|
            if flagged.contains(a) {
                TRAP_BYTE
            } else {
                mem[a]
            },
    )
}

/// The two-state machine each breakpoint runs in step with the tracee's
/// text, over a byte image `mem` of the patched addresses: an armed
/// breakpoint (`set_on_continue == false`) has the trap byte installed at its
/// address; a transient one (just hit, `set_on_continue == true`) has its
/// original instruction byte there, so the tracee can re-execute it.
pub open spec fn trap_invariant(m: Map<usize, Breakpoint>, mem: Map<usize, u8>) -> bool {
    forall|a: usize|
        #[trigger] m.contains_key(a) ==> mem.contains_key(a) && mem[a] == (if m[a].set_on_continue {
            m[a].original_byte
        } else {
            TRAP_BYTE
        })
}

/// Law: setting a breakpoint at a fresh address — recording the displaced
/// byte and writing the trap byte — keeps every breakpoint in step with the
/// text.
pub proof fn lemma_set_preserves_trap_invariant(
    m: Map<usize, Breakpoint>,
    mem: Map<usize, u8>,
    next: u32,
    addr: usize,
    orig: u8,
)
    requires
        trap_invariant(m, mem),
        !m.contains_key(addr),
        next < u32::MAX,
    ensures
        trap_invariant(set_bp_step(m, next, addr, orig).0, mem.insert(addr, TRAP_BYTE)),
{
}

/// Law: digesting a hit at `a` — marking the entry transient and writing the
/// displaced byte back — keeps every breakpoint in step with the text.
pub proof fn lemma_hit_preserves_trap_invariant(
    m: Map<usize, Breakpoint>,
    mem: Map<usize, u8>,
    a: usize,
)
    requires
        trap_invariant(m, mem),
        m.contains_key(a),
    ensures
        trap_invariant(mark_hit(m, a), mem.insert(a, m[a].original_byte)),
{
}

/// Law: a resume — lowering every transient flag and re-installing the trap
/// byte at each just-hit address — keeps every breakpoint in step with the
/// text; afterwards all of them are armed.
pub proof fn lemma_continue_preserves_trap_invariant(m: Map<usize, Breakpoint>, mem: Map<usize, u8>)
    requires
        trap_invariant(m, mem),
    ensures
        trap_invariant(clear_flags(m), rearm_all(mem, flagged_set(m))),
        forall|a: usize|
            #[trigger] clear_flags(m).contains_key(a) ==> !clear_flags(m)[a].set_on_continue,
{
}

/// Law: deleting a breakpoint — writing its displaced byte back and dropping
/// the entry — keeps every remaining breakpoint in step with the text.
pub proof fn lemma_delete_preserves_trap_invariant(
    m: Map<usize, Breakpoint>,
    mem: Map<usize, u8>,
    addr: usize,
)
    requires
        trap_invariant(m, mem),
        m.contains_key(addr),
    ensures
        trap_invariant(m.remove(addr), mem.insert(addr, m[addr].original_byte)),
{
}

/// Law: one breakpoint-set request is idempotent. Setting a breakpoint at a
/// fresh address creates exactly one entry; a second request for the same
/// address changes neither the table nor the recorded original byte (and, in
/// `Target::set_breakpoint`, yields no word to write, so no second trap byte
/// reaches tracee memory).
pub proof fn lemma_set_breakpoint_idempotent(
    m: Map<usize, Breakpoint>,
    next: u32,
    addr: usize,
    b1: u8,
    b2: u8,
)
    requires
        !m.contains_key(addr),
        next < u32::MAX,
    ensures
        ({
            let (m1, n1) = set_bp_step(m, next, addr, b1);
            let (m2, n2) = set_bp_step(m1, n1, addr, b2);
            &&& m2 == m1
            &&& n2 == n1
            &&& m1.contains_key(addr)
            &&& m1[addr].original_byte == b1
            &&& m1.dom() =~= m.dom().insert(addr)
        }),
{
}

/// Law: breakpoints are transparent in the reported registers. A SIGTRAP
/// whose raw instruction pointer is one past one of our breakpoints is
/// corrected to the breakpoint's own address — `rip == breakpoint.address`,
/// not `breakpoint.address + 1`.
pub proof fn lemma_breakpoint_transparency(s: Seq<Breakpoint>, trap_rip: usize)
    requires
        addrs_distinct(s),
        trap_rip >= 1,
        bp_map(s).contains_key((trap_rip - 1) as usize),
    ensures
        bp_map(s)[(trap_rip - 1) as usize].address + 1 == trap_rip,
{
    lemma_bp_map_keyed_by_address(s, (trap_rip - 1) as usize);
}

/// Law: stepping over our own breakpoint. After a hit at `a` (trap lifted,
/// entry marked) a resume re-arms `a` — and, exactly when the tracee still
/// stands at `a`, single-steps first, so the program advances past `a` once
/// without re-triggering — after which `a` is armed again with its original
/// byte intact.
pub proof fn lemma_step_over_self(m: Map<usize, Breakpoint>, a: usize)
    requires
        m.contains_key(a),
    ensures
        ({
            let hit = mark_hit(m, a);
            let resumed = clear_flags(hit);
            &&& flagged_at(hit, a)
            &&& resumed.contains_key(a)
            &&& !flagged_at(resumed, a)
            &&& resumed[a] == cleared_bp(m[a])
            &&& resumed[a].original_byte == m[a].original_byte
        }),
{
}

} // verus!
