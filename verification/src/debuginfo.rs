//! Source locations, and the small decisions behind rendering them: the
//! basename of a path, and which source lines a listing shows around the
//! current one.

use vstd::prelude::*;
use vstd::string::StrSliceExecFns;

verus! {

/// A resolved source location: the probed address, the source file, the
/// one-based line, and the surrounding function's name.
pub struct Location {
    pub address: u64,
    pub file: String,
    pub line: u32,
    pub function_name: String,
}

/// Index right after the last path separator, or zero when there is none.
pub open spec fn after_last_slash(s: Seq<char>) -> int {
    if exists|i: int| 0 <= i < s.len() && s[i] == '/' {
        1 + choose|i: int|
            0 <= i < s.len() && s[i] == '/' && forall|j: int| i < j < s.len() ==> s[j] != '/'
    } else {
        0
    }
}

/// What remains of a path after its last separator (the whole path when it
/// has none; empty when it ends in one).
pub open spec fn spec_basename(s: Seq<char>) -> Seq<char> {
    s.skip(after_last_slash(s))
}

proof fn lemma_after_last_slash(s: Seq<char>, i: int)
    requires
        0 <= i <= s.len(),
        forall|j: int| i <= j < s.len() ==> s[j] != '/',
        i > 0 ==> s[i - 1] == '/',
    ensures
        after_last_slash(s) == i,
{
    if i > 0 {
        assert(0 <= i - 1 < s.len() && s[i - 1] == '/' && (forall|j: int|
            i - 1 < j < s.len() ==> s[j] != '/'));
        let w = choose|k: int|
            0 <= k < s.len() && s[k] == '/' && forall|j: int| k < j < s.len() ==> s[j] != '/';
        if w < i - 1 {
            assert(s[i - 1] != '/');
        }
        if i - 1 < w {
            assert(s[w] != '/');
        }
    } else {
        if exists|k: int| 0 <= k < s.len() && s[k] == '/' {
            let k = choose|k: int| 0 <= k < s.len() && s[k] == '/';
            assert(s[k] != '/');
        }
    }
}

/// The file name component of a path: everything after its last separator.
pub fn basename(path: &str) -> (r: &str)
    ensures
        r@ == spec_basename(path@),
{
    let n = path.unicode_len();
    let mut i: usize = n;
    while i > 0
        invariant
            i <= n == path@.len(),
            forall|j: int| i <= j < n ==> path@[j] != '/',
        decreases i,
    {
        if path.get_char(i - 1) == '/' {
            proof {
                lemma_after_last_slash(path@, i as int);
            }
            return path.substring_char(i, n);
        }
        i = i - 1;
    }
    proof {
        lemma_after_last_slash(path@, 0);
        assert(path@.subrange(0, n as int) =~= path@.skip(0));
    }
    path.substring_char(0, n)
}

impl Location {
    /// The basename of this location's source file, as the one-line rendering
    /// shows it.
    pub fn file_basename(&self) -> (r: &str)
        ensures
            r@ == spec_basename(self.file@),
    {
        basename(self.file.as_str())
    }
}

/// Whether a source listing around `line` with the given radius shows the
/// line at zero-based position `idx` of the file, and whether that line is
/// the current one (flagged with a marker).
pub fn line_in_window(idx: usize, line: u32, range: usize) -> (r: (bool, bool))
    requires
        idx < usize::MAX,
    ensures
        r.0 == (if idx + 1 >= line {
            idx + 1 - line <= range
        } else {
            line - (idx + 1) <= range
        }),
        r.1 == (idx + 1 == line),
{
    let lineno = idx + 1;
    let diff = if lineno >= line as usize {
        lineno - line as usize
    } else {
        line as usize - lineno
    };
    (diff <= range, diff == 0)
}

} // verus!
