//! Byte-string helpers: ASCII case folding, equality, and prefix tests.
//!
//! The core handles names, paths and queries as byte strings (`Vec<u8>`),
//! and all matching is case-insensitive over ASCII letters.

use vstd::prelude::*;

verus! {

/// Case-fold one byte: ASCII upper-case letters map to lower case,
/// every other byte is unchanged.
pub open spec fn fold_byte(b: u8) -> u8 {
    if 65 <= b && b <= 90 {
        (b + 32) as u8
    } else {
        b
    }
}

/// Case-fold a byte string.
pub open spec fn fold(s: Seq<u8>) -> Seq<u8> {
    s.map_values(|b: u8| fold_byte(b))
}

/// `p` is a prefix of `t`.
pub open spec fn is_prefix_of(p: Seq<u8>, t: Seq<u8>) -> bool {
    p.len() <= t.len() && t.take(p.len() as int) == p
}

/// `p` is a strict (proper) prefix of `t`.
pub open spec fn is_strict_prefix_of(p: Seq<u8>, t: Seq<u8>) -> bool {
    p.len() < t.len() && t.take(p.len() as int) == p
}

pub fn fold_byte_exec(b: u8) -> (r: u8)
    ensures
        r == fold_byte(b),
{
    if 65 <= b && b <= 90 {
        b + 32
    } else {
        b
    }
}

/// Exact byte-string equality.
pub fn bytes_eq(a: &Vec<u8>, b: &Vec<u8>) -> (r: bool)
    ensures
        r == (a@ == b@),
{
    if a.len() != b.len() {
        assert(a@ != b@) by {
            assert(a@.len() != b@.len());
        }
        return false;
    }
    let mut i: usize = 0;
    while i < a.len()
        invariant
            i <= a.len(),
            a@.len() == b@.len(),
            forall|k: int| 0 <= k < i ==> a@[k] == b@[k],
        decreases a.len() - i,
    {
        if a[i] != b[i] {
            return false;
        }
        i += 1;
    }
    assert(a@ =~= b@);
    true
}

/// Case-insensitive test that `p` is a strict prefix of `t`.
pub fn is_strict_prefix_fold(p: &Vec<u8>, t: &Vec<u8>) -> (r: bool)
    ensures
        r == is_strict_prefix_of(fold(p@), fold(t@)),
{
    if p.len() >= t.len() {
        return false;
    }
    let mut i: usize = 0;
    while i < p.len()
        invariant
            i <= p.len(),
            p@.len() < t@.len(),
            forall|k: int| 0 <= k < i ==> fold(t@)[k] == fold(p@)[k],
        decreases p.len() - i,
    {
        if fold_byte_exec(p[i]) != fold_byte_exec(t[i]) {
            assert(fold(t@)[i as int] != fold(p@)[i as int]);
            return false;
        }
        i += 1;
    }
    assert(fold(t@).take(fold(p@).len() as int) =~= fold(p@));
    true
}

} // verus!
