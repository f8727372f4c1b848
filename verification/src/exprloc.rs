//! DWARF location expressions, as far as this debugger understands them:
//! a single frame-base-relative operation, opcode `DW_OP_fbreg` (0x91)
//! followed by a signed LEB128 offset.

use vstd::prelude::*;

verus! {

/// Opcode of the frame-base-relative location operation.
pub const DW_OP_FBREG: u8 = 0x91;

/// The signed value that an LEB128 byte group denotes: seven payload bits per
/// byte, least significant first, sign taken from the last byte's bit six.
pub open spec fn sleb_value(s: Seq<u8>) -> int
    decreases s.len(),
{
    if s.len() == 0 {
        0
    } else if s.len() == 1 {
        if s[0] % 128 >= 64 {
            s[0] % 128 - 128
        } else {
            (s[0] % 128) as int
        }
    } else {
        s[0] % 128 + 128 * sleb_value(s.skip(1))
    }
}

/// Length of the leading LEB128 byte group: one past the first byte whose
/// continuation bit is clear; nothing when every byte has it set.
pub open spec fn sleb_len(s: Seq<u8>) -> Option<int> {
    if exists|i: int| 0 <= i < s.len() && s[i] < 128 {
        Some(
            1 + choose|i: int|
                0 <= i < s.len() && s[i] < 128 && forall|j: int| 0 <= j < i ==> s[j] >= 128,
        )
    } else {
        None
    }
}

/// What decoding a location expression yields: the frame-base offset, when
/// the expression opens with `DW_OP_fbreg` and a terminated LEB128 group
/// whose value fits a signed machine word; nothing otherwise.
pub open spec fn spec_parse_fbreg(es: Seq<u8>) -> Option<i64> {
    if es.len() >= 1 && es[0] == DW_OP_FBREG {
        let w = es.skip(1);
        match sleb_len(w) {
            Some(n) => {
                let v = sleb_value(w.take(n));
                if i64::MIN <= v <= i64::MAX {
                    Some(v as i64)
                } else {
                    None
                }
            },
            None => None,
        }
    } else {
        None
    }
}

proof fn lemma_sleb_len(s: Seq<u8>, i: int)
    requires
        0 <= i < s.len(),
        s[i] < 128,
        forall|j: int| 0 <= j < i ==> s[j] >= 128,
    ensures
        sleb_len(s) == Some(i + 1),
{
    assert(0 <= i < s.len() && s[i] < 128 && (forall|j: int| 0 <= j < i ==> s[j] >= 128));
    let w = choose|k: int|
        0 <= k < s.len() && s[k] < 128 && forall|j: int| 0 <= j < k ==> s[j] >= 128;
    if w < i {
        assert(s[w] >= 128);
    }
    if i < w {
        assert(s[i] >= 128);
    }
}

/// Once the value of a group's tail falls outside the signed machine-word
/// range, the whole group's value does too: earlier bytes only scale it up.
proof fn lemma_sleb_out_of_range(s: Seq<u8>, p: int)
    requires
        0 <= p < s.len(),
        forall|j: int| 0 <= j < p ==> s[j] >= 128,
        !(i64::MIN <= sleb_value(s.skip(p)) <= i64::MAX),
    ensures
        !(i64::MIN <= sleb_value(s) <= i64::MAX),
    decreases p,
{
    if p > 0 {
        let t = s.skip(p - 1);
        let v = sleb_value(s.skip(p));
        assert(t.skip(1) =~= s.skip(p));
        assert(t.len() >= 2);
        assert(t[0] == s[p - 1]);
        assert(sleb_value(t) == t[0] % 128 + 128 * v);
        assert(0 <= t[0] % 128 < 128);
        if v > i64::MAX {
            assert(128 * v >= 128 * (i64::MAX + 1)) by (nonlinear_arith)
                requires
                    v >= i64::MAX + 1,
            ;
            assert(sleb_value(t) > i64::MAX);
        } else {
            assert(v < i64::MIN);
            assert(128 * v <= 128 * (i64::MIN - 1)) by (nonlinear_arith)
                requires
                    v <= i64::MIN - 1,
            ;
            assert(sleb_value(t) < i64::MIN);
        }
        lemma_sleb_out_of_range(s, p - 1);
    } else {
        assert(s.skip(0) =~= s);
    }
}

/// Decodes a location expression: the `DW_OP_fbreg` offset, or nothing when
/// the expression is anything else.
#[verifier::rlimit(50)]
pub fn parse_fbreg(es: &Vec<u8>) -> (r: Option<i64>)
    ensures
        r == spec_parse_fbreg(es@),
{
    let n = es.len();
    if n == 0 || es[0] != DW_OP_FBREG {
        return None;
    }
    let ghost w = es@.skip(1);
    let mut k: usize = 1;
    while k < n && es[k] >= 128
        invariant
            1 <= k <= n == es@.len(),
            w == es@.skip(1),
            forall|j: int| 0 <= j < k - 1 ==> w[j] >= 128,
        decreases n - k,
    {
        k = k + 1;
    }
    if k == n {
        proof {
            if exists|i: int| 0 <= i < w.len() && w[i] < 128 {
                let i = choose|i: int| 0 <= i < w.len() && w[i] < 128;
                assert(w[i] >= 128);
            }
        }
        return None;
    }
    proof {
        assert(w[k - 1] == es@[k as int] && w[k - 1] < 128);
        lemma_sleb_len(w, k - 1);
        assert forall|m: int| 1 <= m <= k - 1 implies es@[m] >= 128 by {
            assert(w[m - 1] == es@[m]);
        }
    }
    let ghost grp = w.take(k as int);
    proof {
        assert(grp =~= es@.subrange(1, k + 1));
        assert(es@.subrange(k as int, k + 1) =~= seq![es@[k as int]]);
    }
    let b = es[k];
    let mut acc: i64 = if b >= 64 {
        b as i64 - 128
    } else {
        b as i64
    };
    let mut j: usize = k;
    proof {
        assert(sleb_value(es@.subrange(k as int, k + 1)) == acc);
    }
    while j > 1
        invariant
            1 <= j <= k < n == es@.len(),
            w == es@.skip(1),
            grp == w.take(k as int),
            grp == es@.subrange(1, k + 1),
            sleb_len(w) == Some(k as int),
            forall|m: int| 1 <= m <= k - 1 ==> es@[m] >= 128,
            acc == sleb_value(es@.subrange(j as int, k + 1)),
            i64::MIN <= sleb_value(es@.subrange(j as int, k + 1)) <= i64::MAX,
            es@[0] == DW_OP_FBREG,
        decreases j,
    {
        let lo = es[j - 1] - 128;
        proof {
            let tail = es@.subrange(j as int, k + 1);
            let whole = es@.subrange(j - 1, k + 1);
            assert(whole.skip(1) =~= tail);
            assert(whole[0] == es@[j - 1]);
            assert(sleb_value(whole) == es@[j - 1] % 128 + 128 * sleb_value(tail));
            assert(es@[j - 1] % 128 == es@[j - 1] - 128);
        }
        if acc > SLEB_ACC_MAX || acc < SLEB_ACC_MIN {
            proof {
                let whole = es@.subrange(j - 1, k + 1);
                if acc > SLEB_ACC_MAX {
                    assert(128 * acc >= 128 * (SLEB_ACC_MAX + 1));
                    assert(sleb_value(whole) > i64::MAX);
                } else {
                    assert(128 * acc <= 128 * (SLEB_ACC_MIN - 1));
                    assert(sleb_value(whole) < i64::MIN);
                }
                assert(!(i64::MIN <= sleb_value(whole) <= i64::MAX));
                assert(grp.skip(j - 2) =~= whole);
                assert forall|m: int| 0 <= m < j - 2 implies grp[m] >= 128 by {
                    assert(grp[m] == es@[m + 1]);
                }
                lemma_sleb_out_of_range(grp, j - 2);
            }
            return None;
        }
        acc = acc * 128 + lo as i64;
        j = j - 1;
    }
    proof {
        assert(es@.subrange(1, k + 1) =~= grp);
    }
    Some(acc)
}

/// Largest accumulator a further LEB128 byte can scale without leaving the
/// signed machine-word range, and its negative counterpart.
const SLEB_ACC_MAX: i64 = 72057594037927935;

const SLEB_ACC_MIN: i64 = -72057594037927936;

} // verus!
