//! Byte-string helpers shared by the other modules: equality and search on
//! byte vectors, decimal formatting of integers, and the one conversion from
//! raw bytes back to `String` that the parsers need.

use vstd::prelude::*;

verus! {

use vstd::utf8::{valid_utf8, decode_utf8};

/// Decimal digits of `n`, most significant first, as ASCII bytes.
pub open spec fn dec_digits(n: nat) -> Seq<u8>
    decreases n,
{
    if n < 10 {
        seq![(48 + n) as u8]
    } else {
        dec_digits(n / 10).push((48 + n % 10) as u8)
    }
}

/// Decimal rendering of a `u64`, e.g. 240 becomes `[b'2', b'4', b'0']`.
pub fn u64_to_dec(n: u64) -> (r: Vec<u8>)
    ensures
        r@ == dec_digits(n as nat),
    decreases n,
{
    if n < 10 {
        let mut v: Vec<u8> = Vec::new();
        v.push((48 + n) as u8);
        v
    } else {
        let mut v = u64_to_dec(n / 10);
        v.push((48 + n % 10) as u8);
        v
    }
}

/// Byte-for-byte equality of two byte vectors.
pub fn bytes_eq(a: &Vec<u8>, b: &Vec<u8>) -> (r: bool)
    ensures
        r == (a@ == b@),
{
    if a.len() != b.len() {
        return false;
    }
    let n = a.len();
    let mut i: usize = 0;
    while i < n
        invariant
            n == a.len() == b.len(),
            i <= n,
            forall|j: int| 0 <= j < i ==> a@[j] == b@[j],
        decreases n - i,
    {
        if a[i] != b[i] {
            return false;
        }
        i += 1;
    }
    proof {
        assert(a@ =~= b@);
    }
    true
}

/// Index of the first occurrence of `b` in `s` at or after `from`.
pub fn find_byte(s: &Vec<u8>, from: usize, b: u8) -> (r: Option<usize>)
    requires
        from <= s@.len(),
    ensures
        match r {
            Some(i) => from <= i < s@.len() && s@[i as int] == b && forall|j: int|
                from <= j < i ==> s@[j] != b,
            None => forall|j: int| from <= j < s@.len() ==> s@[j] != b,
        },
{
    let n = s.len();
    let mut i: usize = from;
    while i < n
        invariant
            n == s@.len(),
            from <= i <= n,
            forall|j: int| from <= j < i ==> s@[j] != b,
        decreases n - i,
    {
        if s[i] == b {
            return Some(i);
        }
        i += 1;
    }
    None
}

/// The bytes of `s` from `from` (inclusive) to `to` (exclusive).
pub fn sub_bytes(s: &Vec<u8>, from: usize, to: usize) -> (r: Vec<u8>)
    requires
        from <= to <= s@.len(),
    ensures
        r@ == s@.subrange(from as int, to as int),
{
    let mut v: Vec<u8> = Vec::new();
    let mut i: usize = from;
    while i < to
        invariant
            from <= i <= to <= s@.len(),
            v@ == s@.subrange(from as int, i as int),
        decreases to - i,
    {
        v.push(s[i]);
        proof {
            assert(v@ =~= s@.subrange(from as int, i + 1 as int));
        }
        i += 1;
    }
    v
}

/// Index of the first occurrence of `b` in `s`, or the length of `s` if
/// there is none.
pub open spec fn byte_index(s: Seq<u8>, b: u8) -> int
    decreases s.len(),
{
    if s.len() == 0 {
        0
    } else if s[0] == b {
        0
    } else {
        1 + byte_index(s.drop_first(), b)
    }
}

/// `byte_index` stays within the sequence.
pub proof fn lemma_byte_index_bounds(s: Seq<u8>, b: u8)
    ensures
        0 <= byte_index(s, b) <= s.len(),
    decreases s.len(),
{
    if s.len() != 0 && s[0] != b {
        lemma_byte_index_bounds(s.drop_first(), b);
    }
}

/// An index below which `b` does not occur, and at which it occurs or the
/// sequence ends, is `byte_index`.
pub proof fn lemma_byte_index_at(s: Seq<u8>, b: u8, i: int)
    requires
        0 <= i <= s.len(),
        forall|j: int| 0 <= j < i ==> s[j] != b,
        i < s.len() ==> s[i] == b,
    ensures
        byte_index(s, b) == i,
    decreases i,
{
    if i > 0 {
        lemma_byte_index_at(s.drop_first(), b, i - 1);
    }
}

/// Position of the first occurrence of `pat` in `h` at or after `from`, if
/// any.
pub open spec fn find_sub_spec(h: Seq<u8>, pat: Seq<u8>, from: int) -> Option<int>
    decreases h.len() - from when 0 <= from && 1 <= pat.len()
{
    if from + pat.len() > h.len() {
        None
    } else if h.subrange(from, from + pat.len()) == pat {
        Some(from)
    } else {
        find_sub_spec(h, pat, from + 1)
    }
}

/// Finds the first occurrence of `pat` in `h` at or after `from`.
pub fn find_sub(h: &Vec<u8>, pat: &Vec<u8>, from: usize) -> (r: Option<usize>)
    requires
        from <= h@.len(),
        pat@.len() >= 1,
    ensures
        match r {
            Some(i) => Some(i as int) == find_sub_spec(h@, pat@, from as int),
            None => find_sub_spec(h@, pat@, from as int) is None,
        },
{
    if pat.len() > h.len() {
        proof {
            lemma_find_sub_spec_none(h@, pat@, from as int);
        }
        return None;
    }
    let last = h.len() - pat.len();
    let mut i: usize = from;
    while i <= last
        invariant
            from <= i,
            pat@.len() >= 1,
            pat@.len() <= h@.len(),
            h@.len() <= usize::MAX,
            last == h@.len() - pat@.len(),
            find_sub_spec(h@, pat@, from as int) == find_sub_spec(h@, pat@, i as int),
        decreases last + 1 - i,
    {
        let mut j: usize = 0;
        let mut matched = true;
        proof {
            assert(h@.subrange(i as int, i as int) =~= pat@.subrange(0, 0));
        }
        while j < pat.len()
            invariant
                i + pat@.len() <= h@.len(),
                h@.len() <= usize::MAX,
                j <= pat@.len(),
                matched == (h@.subrange(i as int, i + j) == pat@.subrange(0, j as int)),
            decreases pat@.len() - j,
        {
            proof {
                assert(h@.subrange(i as int, i + j + 1).drop_last() == h@.subrange(
                    i as int,
                    i + j,
                ));
                assert(pat@.subrange(0, j + 1).drop_last() == pat@.subrange(0, j as int));
            }
            if h[i + j] != pat[j] {
                matched = false;
                proof {
                    assert(h@.subrange(i as int, i + j + 1)[j as int] != pat@.subrange(
                        0,
                        j + 1,
                    )[j as int]);
                }
            } else {
                proof {
                    if matched {
                        assert(h@.subrange(i as int, i + j + 1) =~= h@.subrange(
                            i as int,
                            i + j,
                        ).push(h@[i + j]));
                        assert(pat@.subrange(0, j + 1) =~= pat@.subrange(0, j as int).push(
                            pat@[j as int],
                        ));
                    } else {
                        assert(h@.subrange(i as int, i + j).push(h@[i + j]) =~= h@.subrange(
                            i as int,
                            i + j + 1,
                        ));
                        assert(pat@.subrange(0, j as int).push(pat@[j as int]) =~= pat@.subrange(
                            0,
                            j + 1,
                        ));
                        assert(h@.subrange(i as int, i + j) != pat@.subrange(0, j as int));
                    }
                }
            }
            j += 1;
        }
        proof {
            assert(pat@.subrange(0, pat@.len() as int) =~= pat@);
        }
        if matched {
            return Some(i);
        }
        i += 1;
    }
    proof {
        lemma_find_sub_spec_none_from(h@, pat@, i as int);
    }
    None
}

/// A found occurrence lies within the haystack and matches the pattern.
pub proof fn lemma_find_sub_spec_found(h: Seq<u8>, pat: Seq<u8>, from: int)
    requires
        0 <= from,
        1 <= pat.len(),
    ensures
        find_sub_spec(h, pat, from) matches Some(i) ==> from <= i && i + pat.len() <= h.len()
            && h.subrange(i, i + pat.len()) == pat,
    decreases h.len() - from,
{
    if from + pat.len() <= h.len() && h.subrange(from, from + pat.len()) != pat {
        lemma_find_sub_spec_found(h, pat, from + 1);
    }
}

proof fn lemma_find_sub_spec_none(h: Seq<u8>, pat: Seq<u8>, from: int)
    requires
        0 <= from,
        pat.len() > h.len(),
    ensures
        find_sub_spec(h, pat, from) is None,
    decreases h.len() - from,
{
    if from + pat.len() <= h.len() {
        lemma_find_sub_spec_none(h, pat, from + 1);
    }
}

proof fn lemma_find_sub_spec_none_from(h: Seq<u8>, pat: Seq<u8>, from: int)
    requires
        0 <= from,
        pat.len() >= 1,
        from + pat.len() > h.len(),
    ensures
        find_sub_spec(h, pat, from) is None,
{
}

/// Relies on `String::from_utf8`: it succeeds exactly on valid UTF-8 input,
/// and the returned string decodes those very bytes.
#[verifier::external_body]
pub fn bytes_to_string(v: Vec<u8>) -> (r: Option<String>)
    ensures
        r is Some <==> valid_utf8(v@),
        r matches Some(s) ==> s@ == decode_utf8(v@),
{
    String::from_utf8(v).ok()
}

} // verus!
