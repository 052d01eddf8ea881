//! Suffix test on a prefix of bounded length.
use vstd::prelude::*;
use crate::chars::chars_of;

verus! {

/// Number of leading characters of a text of `len` characters that take part
/// in the test: all of them, or `position` clamped to `len`.
pub open spec fn end_bound(len: nat, position: Option<usize>) -> nat {
    match position {
        None => len,
        Some(p) => if (p as nat) < len { p as nat } else { len },
    }
}

/// Whether the first `end_bound(s.len(), position)` characters of `s` end
/// with `target`.
pub open spec fn ends_with_spec(s: Seq<char>, target: Seq<char>, position: Option<usize>) -> bool {
    let n = end_bound(s.len(), position);
    target.len() <= n && s.subrange(n - target.len(), n as int) == target
}

/// Whether `s`, cut after its first `position` characters when `position` is
/// given (a position past the end is clamped to the end), ends with `target`.
pub fn ends_with(s: String, target: String, position: Option<usize>) -> (r: bool)
    ensures
        r == ends_with_spec(s@, target@, position),
{
    let cs = chars_of(s.as_str());
    let ts = chars_of(target.as_str());
    let n: usize = match position {
        None => cs.len(),
        Some(p) => if p < cs.len() { p } else { cs.len() },
    };
    if ts.len() > n {
        return false;
    }
    let start: usize = n - ts.len();
    let mut i: usize = 0;
    while i < ts.len()
        invariant
            0 <= i <= ts@.len(),
            cs@ == s@,
            ts@ == target@,
            n == end_bound(s@.len(), position),
            start + ts@.len() == n,
            forall|k: int| 0 <= k < i ==> cs@[start + k] == ts@[k],
        decreases ts@.len() - i,
    {
        if cs[start + i] != ts[i] {
            assert(s@.subrange(start as int, n as int)[i as int] != target@[i as int]);
            return false;
        }
        i = i + 1;
    }
    assert(s@.subrange(start as int, n as int) =~= target@);
    true
}

} // verus!
