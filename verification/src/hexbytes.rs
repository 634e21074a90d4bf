//! Hex decoding: an even-length run of hex digits read as a byte sequence.

use vstd::prelude::*;
use vstd::slice::slice_index_get;
use crate::text::{all_hex_digit_bytes, is_hex_digit_byte};

verus! {

/// Numeric value of one hex digit.
pub open spec fn hex_digit_val(b: u8) -> nat {
    if 48 <= b && b <= 57 {
        (b - 48) as nat
    } else if 97 <= b && b <= 102 {
        (b - 97 + 10) as nat
    } else if 65 <= b && b <= 70 {
        (b - 65 + 10) as nat
    } else {
        0
    }
}

/// The bytes denoted by an even-length run of hex digits, two digits per
/// byte, high digit first.
pub open spec fn hex_bytes_of(s: Seq<u8>) -> Seq<u8> {
    Seq::new((s.len() / 2) as nat, |i: int| (hex_digit_val(s[2 * i]) * 16 + hex_digit_val(s[2 * i + 1])) as u8)
}

fn hex_digit(b: u8) -> (r: u8)
    requires
        is_hex_digit_byte(b),
    ensures
        r as nat == hex_digit_val(b),
        r <= 15,
{
    if 48 <= b && b <= 57 {
        b - 48
    } else if 97 <= b && b <= 102 {
        b - 97 + 10
    } else {
        b - 65 + 10
    }
}

/// Decode an even-length run of hex digits into the bytes it denotes.
pub(crate) fn hex_decode(s: &[u8]) -> (r: Vec<u8>)
    requires
        all_hex_digit_bytes(s@),
        s@.len() % 2 == 0,
    ensures
        r@ == hex_bytes_of(s@),
{
    let mut out: Vec<u8> = Vec::new();
    let mut i: usize = 0;
    while i + 1 < s.len()
        invariant
            all_hex_digit_bytes(s@),
            s@.len() % 2 == 0,
            i % 2 == 0,
            0 <= i <= s@.len(),
            out@.len() == i / 2,
            forall|j: int| 0 <= j < out@.len() ==> out@[j] == hex_bytes_of(s@)[j],
        decreases s@.len() - i,
    {
        let hi: u8 = hex_digit(*slice_index_get(s, i));
        let lo: u8 = hex_digit(*slice_index_get(s, i + 1));
        out.push(hi * 16 + lo);
        i = i + 2;
    }
    proof {
        assert(out@ =~= hex_bytes_of(s@));
    }
    out
}

} // verus!
