//! Byte-level text utilities: character classes, equality, searching,
//! separator splitting and whitespace trimming, with exact specifications.

use vstd::prelude::*;
use vstd::slice::{slice_index_get, slice_subrange, slice_to_vec};

verus! {

/// The bytes of a string, as UTF-8.
pub open spec fn string_bytes(s: Seq<char>) -> Seq<u8> {
    vstd::utf8::encode_utf8(s)
}

// --- character classes ---

pub open spec fn is_digit_byte(b: u8) -> bool {
    48 <= b && b <= 57
}

pub open spec fn is_hex_digit_byte(b: u8) -> bool {
    is_digit_byte(b) || (97 <= b && b <= 102) || (65 <= b && b <= 70)
}

/// Bitcoin-style base58 alphabet: every ASCII alphanumeric except `0OIl`.
pub open spec fn is_base58_byte(b: u8) -> bool {
    (49 <= b && b <= 57) || (65 <= b && b <= 72) || (74 <= b && b <= 78) || (80 <= b
        && b <= 90) || (97 <= b && b <= 107) || (109 <= b && b <= 122)
}

/// ASCII whitespace: space, tab, line feed, form feed, carriage return.
pub open spec fn is_space_byte(b: u8) -> bool {
    b == 32 || b == 9 || b == 10 || b == 12 || b == 13
}

pub open spec fn all_digit_bytes(s: Seq<u8>) -> bool {
    forall|i: int| 0 <= i < s.len() ==> is_digit_byte(s[i])
}

pub open spec fn all_hex_digit_bytes(s: Seq<u8>) -> bool {
    forall|i: int| 0 <= i < s.len() ==> is_hex_digit_byte(s[i])
}

pub open spec fn all_base58_bytes(s: Seq<u8>) -> bool {
    forall|i: int| 0 <= i < s.len() ==> is_base58_byte(s[i])
}

pub(crate) fn check_all_digits(s: &[u8]) -> (r: bool)
    ensures
        r == all_digit_bytes(s@),
{
    let mut i: usize = 0;
    while i < s.len()
        invariant
            0 <= i <= s@.len(),
            forall|j: int| 0 <= j < i ==> is_digit_byte(s@[j]),
        decreases s@.len() - i,
    {
        let b: u8 = *slice_index_get(s, i);
        if !(48 <= b && b <= 57) {
            return false;
        }
        i = i + 1;
    }
    true
}

pub(crate) fn check_all_hex_digits(s: &[u8]) -> (r: bool)
    ensures
        r == all_hex_digit_bytes(s@),
{
    let mut i: usize = 0;
    while i < s.len()
        invariant
            0 <= i <= s@.len(),
            forall|j: int| 0 <= j < i ==> is_hex_digit_byte(s@[j]),
        decreases s@.len() - i,
    {
        let b: u8 = *slice_index_get(s, i);
        if !((48 <= b && b <= 57) || (97 <= b && b <= 102) || (65 <= b && b <= 70)) {
            return false;
        }
        i = i + 1;
    }
    true
}

pub(crate) fn check_all_base58(s: &[u8]) -> (r: bool)
    ensures
        r == all_base58_bytes(s@),
{
    let mut i: usize = 0;
    while i < s.len()
        invariant
            0 <= i <= s@.len(),
            forall|j: int| 0 <= j < i ==> is_base58_byte(s@[j]),
        decreases s@.len() - i,
    {
        let b: u8 = *slice_index_get(s, i);
        if !((49 <= b && b <= 57) || (65 <= b && b <= 72) || (74 <= b && b <= 78) || (
        80 <= b && b <= 90) || (97 <= b && b <= 107) || (109 <= b && b <= 122)) {
            return false;
        }
        i = i + 1;
    }
    true
}

// --- byte-sequence equality ---

pub(crate) fn bytes_eq(a: &[u8], b: &[u8]) -> (r: bool)
    ensures
        r == (a@ == b@),
{
    if a.len() != b.len() {
        return false;
    }
    let mut i: usize = 0;
    while i < a.len()
        invariant
            a@.len() == b@.len(),
            0 <= i <= a@.len(),
            forall|j: int| 0 <= j < i ==> a@[j] == b@[j],
        decreases a@.len() - i,
    {
        if *slice_index_get(a, i) != *slice_index_get(b, i) {
            return false;
        }
        i = i + 1;
    }
    proof {
        assert(a@ =~= b@);
    }
    true
}

// --- searching ---

/// Index of the first occurrence of `sep` in `s`, or `s.len()` if absent.
pub open spec fn find_byte(s: Seq<u8>, sep: u8) -> int
    decreases s.len(),
{
    if s.len() == 0 {
        0
    } else if s[0] == sep {
        0
    } else {
        1 + find_byte(s.skip(1), sep)
    }
}

proof fn lemma_find_byte(s: Seq<u8>, sep: u8)
    ensures
        0 <= find_byte(s, sep) <= s.len(),
        forall|j: int| 0 <= j < find_byte(s, sep) ==> s[j] != sep,
        find_byte(s, sep) < s.len() ==> s[find_byte(s, sep)] == sep,
    decreases s.len(),
{
    if s.len() == 0 {
    } else if s[0] == sep {
    } else {
        lemma_find_byte(s.skip(1), sep);
        let f = find_byte(s, sep);
        assert forall|j: int| 0 <= j < f implies s[j] != sep by {
            if j > 0 {
                assert(s.skip(1)[j - 1] == s[j]);
            }
        }
        if f < s.len() {
            assert(s.skip(1)[f - 1] == s[f]);
        }
    }
}

proof fn lemma_find_byte_at(s: Seq<u8>, sep: u8, i: int)
    requires
        0 <= i <= s.len(),
        forall|j: int| 0 <= j < i ==> s[j] != sep,
        i < s.len() ==> s[i] == sep,
    ensures
        find_byte(s, sep) == i,
    decreases s.len(),
{
    if s.len() == 0 {
    } else if s[0] == sep {
        assert(i == 0);
    } else {
        assert(i >= 1);
        assert forall|j: int| 0 <= j < i - 1 implies s.skip(1)[j] != sep by {
            assert(s.skip(1)[j] == s[j + 1]);
        }
        if i - 1 < s.skip(1).len() {
            assert(s.skip(1)[i - 1] == s[i]);
        }
        lemma_find_byte_at(s.skip(1), sep, i - 1);
    }
}

pub(crate) fn find_first(s: &[u8], sep: u8) -> (r: usize)
    ensures
        r as int == find_byte(s@, sep),
        r <= s@.len(),
{
    let mut i: usize = 0;
    while i < s.len()
        invariant
            0 <= i <= s@.len(),
            forall|j: int| 0 <= j < i ==> s@[j] != sep,
        decreases s@.len() - i,
    {
        if *slice_index_get(s, i) == sep {
            proof {
                lemma_find_byte_at(s@, sep, i as int);
            }
            return i;
        }
        i = i + 1;
    }
    proof {
        lemma_find_byte_at(s@, sep, i as int);
    }
    i
}

// --- separator splitting ---

/// Split `s` at every occurrence of `sep`; separators are not kept, and
/// empty segments are kept (so the result always has one segment more than
/// `s` has separators).
pub open spec fn split_bytes(s: Seq<u8>, sep: u8) -> Seq<Seq<u8>>
    decreases s.len(),
{
    let i = find_byte(s, sep);
    if 0 <= i < s.len() {
        seq![s.take(i)] + split_bytes(s.skip(i + 1), sep)
    } else {
        seq![s]
    }
}

pub open spec fn views_of(v: Seq<Vec<u8>>) -> Seq<Seq<u8>> {
    v.map_values(|x: Vec<u8>| x@)
}

pub(crate) fn split_on(s: &[u8], sep: u8) -> (r: Vec<Vec<u8>>)
    ensures
        views_of(r@) == split_bytes(s@, sep),
        r@.len() >= 1,
    decreases s@.len(),
{
    let i = find_first(s, sep);
    proof {
        lemma_find_byte(s@, sep);
    }
    if i < s.len() {
        let head: Vec<u8> = slice_to_vec(slice_subrange(s, 0, i));
        let mut rest = split_on(slice_subrange(s, i + 1, s.len()), sep);
        let mut r: Vec<Vec<u8>> = Vec::new();
        r.push(head);
        r.append(&mut rest);
        proof {
            assert(s@.subrange(0, i as int) =~= s@.take(i as int));
            assert(s@.subrange(i as int + 1, s@.len() as int) =~= s@.skip(i as int + 1));
            assert(views_of(r@) =~= seq![s@.take(i as int)] + split_bytes(
                s@.skip(i as int + 1),
                sep,
            ));
        }
        r
    } else {
        let mut r: Vec<Vec<u8>> = Vec::new();
        r.push(slice_to_vec(s));
        proof {
            assert(views_of(r@) =~= seq![s@]);
        }
        r
    }
}

// --- whitespace trimming ---

pub open spec fn trim_start_bytes(s: Seq<u8>) -> Seq<u8>
    decreases s.len(),
{
    if s.len() > 0 && is_space_byte(s[0]) {
        trim_start_bytes(s.skip(1))
    } else {
        s
    }
}

pub open spec fn trim_end_bytes(s: Seq<u8>) -> Seq<u8>
    decreases s.len(),
{
    if s.len() > 0 && is_space_byte(s[s.len() - 1]) {
        trim_end_bytes(s.take(s.len() - 1))
    } else {
        s
    }
}

/// `s` with ASCII whitespace removed from both ends.
pub open spec fn trim_bytes(s: Seq<u8>) -> Seq<u8> {
    trim_end_bytes(trim_start_bytes(s))
}

fn trim_start<'a>(s: &'a [u8]) -> (r: &'a [u8])
    ensures
        r@ == trim_start_bytes(s@),
    decreases s@.len(),
{
    if s.len() > 0 {
        let b: u8 = *slice_index_get(s, 0);
        if b == 32 || b == 9 || b == 10 || b == 12 || b == 13 {
            let rest = slice_subrange(s, 1, s.len());
            proof {
                assert(rest@ =~= s@.skip(1));
            }
            return trim_start(rest);
        }
    }
    s
}

fn trim_end<'a>(s: &'a [u8]) -> (r: &'a [u8])
    ensures
        r@ == trim_end_bytes(s@),
    decreases s@.len(),
{
    if s.len() > 0 {
        let b: u8 = *slice_index_get(s, s.len() - 1);
        if b == 32 || b == 9 || b == 10 || b == 12 || b == 13 {
            let rest = slice_subrange(s, 0, s.len() - 1);
            proof {
                assert(rest@ =~= s@.take(s@.len() - 1));
            }
            return trim_end(rest);
        }
    }
    s
}

pub(crate) fn trim<'a>(s: &'a [u8]) -> (r: &'a [u8])
    ensures
        r@ == trim_bytes(s@),
{
    trim_end(trim_start(s))
}

} // verus!
