//! Address arithmetic and hexadecimal parsing shared by the breakpoint
//! engine, the frame walker and the address-bearing commands.

use vstd::prelude::*;
use vstd::string::StrSliceExecFns;

verus! {

/// Whether `c` is a hexadecimal digit.
pub open spec fn is_hex_digit(c: char) -> bool {
    ('0' as u32 <= c as u32 && c as u32 <= '9' as u32) || ('a' as u32 <= c as u32 && c as u32
        <= 'f' as u32) || ('A' as u32 <= c as u32 && c as u32 <= 'F' as u32)
}

/// Numeric value of a hexadecimal digit (0 for any other character).
pub open spec fn hex_digit_value(c: char) -> int {
    if '0' as u32 <= c as u32 && c as u32 <= '9' as u32 {
        c as u32 - '0' as u32
    } else if 'a' as u32 <= c as u32 && c as u32 <= 'f' as u32 {
        c as u32 - 'a' as u32 + 10
    } else if 'A' as u32 <= c as u32 && c as u32 <= 'F' as u32 {
        c as u32 - 'A' as u32 + 10
    } else {
        0
    }
}

pub open spec fn all_hex_digits(s: Seq<char>) -> bool {
    forall|i: int| 0 <= i < s.len() ==> is_hex_digit(s[i])
}

/// The unsigned value that a sequence of hexadecimal digits denotes,
/// most significant digit first.
pub open spec fn hex_value(s: Seq<char>) -> int
    decreases s.len(),
{
    if s.len() == 0 {
        0
    } else {
        hex_value(s.drop_last()) * 16 + hex_digit_value(s.last())
    }
}

/// The value of a non-empty all-hex digit run, when it fits an address.
pub open spec fn spec_hex_digits(digits: Seq<char>) -> Option<usize> {
    if digits.len() > 0 && all_hex_digits(digits) && hex_value(digits) <= usize::MAX {
        Some(hex_value(digits) as usize)
    } else {
        None
    }
}

/// What parsing a hexadecimal numeral yields: its value, when the text is one
/// or more hex digits after at most one leading plus sign and the value fits
/// an address; nothing otherwise.
pub open spec fn spec_parse_hex(s: Seq<char>) -> Option<usize> {
    if s.len() >= 1 && s[0] == '+' {
        spec_hex_digits(s.skip(1))
    } else {
        spec_hex_digits(s)
    }
}

/// Each further digit can only grow the value: the numeral's value is at
/// least the value of any of its prefixes.
proof fn lemma_hex_value_prefix_le(s: Seq<char>, i: int)
    requires
        0 <= i <= s.len(),
        forall|j: int| 0 <= j < s.len() ==> hex_digit_value(s[j]) >= 0,
        hex_value(s.take(i)) >= 0,
    ensures
        hex_value(s) >= hex_value(s.take(i)),
        hex_value(s) >= 0,
    decreases s.len() - i,
{
    if i == s.len() {
        assert(s.take(i) =~= s);
    } else {
        assert(s.take(i + 1).drop_last() =~= s.take(i));
        assert(s.take(i + 1).last() == s[i]);
        assert(hex_value(s.take(i + 1)) == hex_value(s.take(i)) * 16 + hex_digit_value(s[i]));
        lemma_hex_value_prefix_le(s, i + 1);
    }
}

/// Numeric value of a hexadecimal digit character.
pub fn hex_digit(c: char) -> (r: Option<u8>)
    ensures
        r == if is_hex_digit(c) {
            Some(hex_digit_value(c) as u8)
        } else {
            None::<u8>
        },
{
    let u = c as u32;
    if '0' as u32 <= u && u <= '9' as u32 {
        Some((u - '0' as u32) as u8)
    } else if 'a' as u32 <= u && u <= 'f' as u32 {
        Some((u - 'a' as u32 + 10) as u8)
    } else if 'A' as u32 <= u && u <= 'F' as u32 {
        Some((u - 'A' as u32 + 10) as u8)
    } else {
        None
    }
}

/// Parses the characters `[from, to)` of `s` as a hexadecimal numeral.
pub fn parse_hex_range(s: &str, from: usize, to: usize) -> (r: Option<usize>)
    requires
        from <= to <= s@.len(),
    ensures
        r == spec_parse_hex(s@.subrange(from as int, to as int)),
{
    let ghost span = s@.subrange(from as int, to as int);
    let mut start = from;
    if from < to && s.get_char(from) == '+' {
        start = from + 1;
        proof {
            assert(span.skip(1) =~= s@.subrange(start as int, to as int));
        }
    }
    let ghost digits = s@.subrange(start as int, to as int);
    if start == to {
        return None;
    }
    let mut acc: usize = 0;
    let mut i = start;
    while i < to
        invariant
            from <= start <= i <= to <= s@.len(),
            digits == s@.subrange(start as int, to as int),
            spec_parse_hex(s@.subrange(from as int, to as int)) == spec_hex_digits(digits),
            all_hex_digits(digits.take(i - start)),
            acc == hex_value(digits.take(i - start)),
        decreases to - i,
    {
        proof {
            assert(digits.take(i - start + 1).drop_last() =~= digits.take(i - start));
            assert(digits.take(i - start + 1).last() == s@[i as int]);
        }
        let c = s.get_char(i);
        let d = match hex_digit(c) {
            Some(d) => d,
            None => {
                return None;
            },
        };
        let next = match acc.checked_mul(16) {
            Some(m) => m.checked_add(d as usize),
            None => None,
        };
        acc = match next {
            Some(v) => v,
            None => {
                proof {
                    assert(forall|j: int|
                        0 <= j < digits.len() ==> hex_digit_value(digits[j]) >= 0);
                    lemma_hex_value_prefix_le(digits, i - start + 1);
                }
                return None;
            },
        };
        i = i + 1;
    }
    proof {
        assert(digits.take(to - start) =~= digits);
    }
    Some(acc)
}

/// Parses a breakpoint address: an optional `0x` / `0X` prefix followed by a
/// hexadecimal numeral.
pub fn parse_address(addr: &str) -> (r: Option<usize>)
    ensures
        r == spec_parse_address(addr@),
{
    let n = addr.unicode_len();
    let mut start: usize = 0;
    if n >= 2 && addr.get_char(0) == '0' {
        let c1 = addr.get_char(1);
        if c1 == 'x' || c1 == 'X' {
            start = 2;
        }
    }
    proof {
        if start == 2 {
            assert(addr@.skip(2) =~= addr@.subrange(2, addr@.len() as int));
        } else {
            assert(addr@ =~= addr@.subrange(0, addr@.len() as int));
        }
    }
    parse_hex_range(addr, start, n)
}

/// What `parse_address` yields: the hexadecimal value after an optional
/// `0x` / `0X` prefix.
pub open spec fn spec_parse_address(s: Seq<char>) -> Option<usize> {
    if s.len() >= 2 && s[0] == '0' && (s[1] == 'x' || s[1] == 'X') {
        spec_parse_hex(s.skip(2))
    } else {
        spec_parse_hex(s)
    }
}

/// The load base that the kernel's memory-map table names: the hexadecimal
/// value before the first dash of the table's first line, if well formed.
pub open spec fn spec_parse_maps_base(line: Seq<char>) -> Option<usize> {
    spec_parse_hex(line.take(dash_or_end(line)))
}

/// Position of the first dash, or the length when there is none.
pub open spec fn dash_or_end(s: Seq<char>) -> int {
    if exists|i: int| 0 <= i < s.len() && s[i] == '-' {
        choose|i: int|
            0 <= i < s.len() && s[i] == '-' && forall|j: int| 0 <= j < i ==> s[j] != '-'
    } else {
        s.len() as int
    }
}

proof fn lemma_dash_or_end(s: Seq<char>, i: int)
    requires
        0 <= i <= s.len(),
        forall|j: int| 0 <= j < i ==> s[j] != '-',
        i < s.len() ==> s[i] == '-',
    ensures
        dash_or_end(s) == i,
{
    if i < s.len() {
        assert(0 <= i < s.len() && s[i] == '-' && (forall|j: int| 0 <= j < i ==> s[j] != '-'));
        let w = choose|k: int|
            0 <= k < s.len() && s[k] == '-' && forall|j: int| 0 <= j < k ==> s[j] != '-';
        assert(0 <= w < s.len() && s[w] == '-' && forall|j: int| 0 <= j < w ==> s[j] != '-');
        if w < i {
            assert(s[w] != '-');
        }
        if i < w {
            assert(s[i] != '-');
        }
    } else {
        assert(forall|j: int| 0 <= j < s.len() ==> s[j] != '-');
    }
}

/// Extracts the load base address from the first line of the kernel's
/// memory-map table: the hex field before the first dash.
pub fn parse_maps_base(line: &str) -> (r: Option<usize>)
    ensures
        r == spec_parse_maps_base(line@),
{
    let i = find_dash(line);
    proof {
        lemma_dash_or_end(line@, i as int);
        assert(line@.take(i as int) =~= line@.subrange(0, i as int));
    }
    parse_hex_range(line, 0, i)
}

/// Position of the first dash in `line`, or its length when there is none.
fn find_dash(line: &str) -> (i: usize)
    ensures
        i <= line@.len(),
        forall|j: int| 0 <= j < i ==> line@[j] != '-',
        i < line@.len() ==> line@[i as int] == '-',
{
    let n = line.unicode_len();
    let mut i: usize = 0;
    while i < n
        invariant
            i <= n == line@.len(),
            forall|j: int| 0 <= j < i ==> line@[j] != '-',
        decreases n - i,
    {
        if line.get_char(i) == '-' {
            return i;
        }
        i = i + 1;
    }
    i
}

/// Adds a signed offset to an address.
///
/// Callers must show that the result neither underflows nor overflows the
/// address space; within those bounds the result is exactly `address + offset`.
pub fn add_offset(address: usize, offset: isize) -> (r: usize)
    requires
        0 <= address + offset <= usize::MAX,
    ensures
        r == address + offset,
{
    if offset < 0 {
        address - ((-(offset as i128)) as usize)
    } else {
        address + (offset as usize)
    }
}

} // verus!
