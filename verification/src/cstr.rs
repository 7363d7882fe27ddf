//! NUL-terminated byte strings.
//!
//! Kernel strings are byte sequences that end at the first zero byte (or at the
//! end of the buffer that holds them).

use vstd::prelude::*;
use vstd::string::StringSliceAdditionalSpecFns;

verus! {

/// Number of bytes before the first zero byte (the whole length if there is none).
pub open spec fn c_len(s: Seq<u8>) -> nat
    decreases s.len(),
{
    if s.len() == 0 || s[0] == 0 {
        0
    } else {
        1 + c_len(s.drop_first())
    }
}

/// The string that a byte buffer holds: everything before its first zero byte.
pub open spec fn cstr(s: Seq<u8>) -> Seq<u8> {
    s.take(c_len(s) as int)
}

/// The string held by a literal.
pub open spec fn lit(s: &str) -> Seq<u8> {
    cstr(s.spec_bytes())
}

pub proof fn lemma_c_len(s: Seq<u8>)
    ensures
        c_len(s) <= s.len(),
        forall|i: int| 0 <= i < c_len(s) ==> s[i] != 0,
        c_len(s) < s.len() ==> s[c_len(s) as int] == 0,
    decreases s.len(),
{
    if s.len() > 0 && s[0] != 0 {
        lemma_c_len(s.drop_first());
        assert forall|i: int| 0 <= i < c_len(s) implies s[i] != 0 by {
            if i > 0 {
                assert(s[i] == s.drop_first()[i - 1]);
            }
        }
    }
}

/// `n` is the length of the string in `s` exactly when the bytes before `n`
/// are non-zero and `n` is the end of `s` or a zero byte.
pub proof fn lemma_c_len_unique(s: Seq<u8>, n: nat)
    requires
        n <= s.len(),
        forall|i: int| 0 <= i < n ==> s[i] != 0,
        n == s.len() || s[n as int] == 0,
    ensures
        c_len(s) == n,
    decreases n,
{
    if n > 0 {
        assert(s[0] != 0);
        let t = s.drop_first();
        assert forall|i: int| 0 <= i < n - 1 implies t[i] != 0 by {
            assert(t[i] == s[i + 1]);
        }
        if n < s.len() {
            assert(t[n - 1] == s[n as int]);
        }
        lemma_c_len_unique(t, (n - 1) as nat);
    }
}

/// A string holds no zero byte.
pub proof fn lemma_cstr_no_zero(s: Seq<u8>)
    ensures
        cstr(s).len() == c_len(s),
        forall|i: int| 0 <= i < cstr(s).len() ==> cstr(s)[i] != 0,
        c_len(cstr(s)) == c_len(s),
        cstr(cstr(s)) == cstr(s),
{
    lemma_c_len(s);
    lemma_c_len_unique(cstr(s), c_len(s));
}

/// A byte sequence without zero bytes is its own string.
pub proof fn lemma_cstr_of_plain(s: Seq<u8>)
    requires
        forall|i: int| 0 <= i < s.len() ==> s[i] != 0,
    ensures
        cstr(s) == s,
{
    lemma_c_len_unique(s, s.len());
    assert(s.take(s.len() as int) =~= s);
}

/// Length of the string held by `s`.
pub fn c_strlen(s: &[u8]) -> (n: usize)
    ensures
        n == c_len(s@),
{
    let mut i: usize = 0;
    while i < s.len() && s[i] != 0
        invariant
            i <= s@.len(),
            forall|j: int| 0 <= j < i ==> s@[j] != 0,
        decreases s@.len() - i,
    {
        i = i + 1;
    }
    proof {
        lemma_c_len_unique(s@, i as nat);
    }
    i
}

/// Compares the strings held by two buffers.
pub fn streq(left: &[u8], right: &[u8]) -> (eq: bool)
    ensures
        eq == (cstr(left@) == cstr(right@)),
{
    let left_len = c_strlen(left);
    let right_len = c_strlen(right);
    proof {
        lemma_c_len(left@);
        lemma_c_len(right@);
    }
    if left_len != right_len {
        assert(cstr(left@).len() != cstr(right@).len());
        return false;
    }
    let mut i: usize = 0;
    while i < left_len
        invariant
            left_len == c_len(left@),
            right_len == c_len(right@),
            left_len == right_len,
            left_len <= left@.len(),
            right_len <= right@.len(),
            i <= left_len,
            forall|j: int| 0 <= j < i ==> left@[j] == right@[j],
        decreases left_len - i,
    {
        if left[i] != right[i] {
            assert(cstr(left@)[i as int] != cstr(right@)[i as int]);
            return false;
        }
        i = i + 1;
    }
    assert(cstr(left@) =~= cstr(right@));
    true
}

/// A buffer that starts with `t` followed by a zero byte holds the string of `t`.
pub proof fn lemma_cstr_terminated_prefix(s: Seq<u8>, t: Seq<u8>)
    requires
        t.len() < s.len(),
        s.take(t.len() as int) == t,
        s[t.len() as int] == 0,
    ensures
        cstr(s) == cstr(t),
{
    lemma_c_len(t);
    let n = c_len(t);
    assert forall|i: int| 0 <= i < n implies s[i] != 0 by {
        assert(s.take(t.len() as int)[i] == s[i]);
    }
    if n < t.len() {
        assert(s.take(t.len() as int)[n as int] == s[n as int]);
    }
    lemma_c_len_unique(s, n);
    assert(cstr(s) =~= cstr(t)) by {
        assert forall|i: int| 0 <= i < n implies cstr(s)[i] == cstr(t)[i] by {
            assert(s.take(t.len() as int)[i] == s[i]);
        }
    }
}

/// Every part of a string is free of zero bytes and is its own string.
pub proof fn lemma_cstr_part(s: Seq<u8>, i: int, j: int)
    requires
        0 <= i <= j <= cstr(s).len(),
    ensures
        cstr(cstr(s).subrange(i, j)) == cstr(s).subrange(i, j),
        forall|k: int| 0 <= k < j - i ==> cstr(s).subrange(i, j)[k] != 0,
{
    lemma_cstr_no_zero(s);
    lemma_cstr_of_plain(cstr(s).subrange(i, j));
}

} // verus!
