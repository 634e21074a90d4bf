//! Decimal numerals over ASCII digit bytes, and overflow-checked parsing.

use vstd::prelude::*;
use vstd::slice::slice_index_get;
use crate::text::{all_digit_bytes, is_digit_byte};

verus! {

/// Value of `s` read as a big-endian decimal numeral.
pub open spec fn dec_val(s: Seq<u8>) -> nat
    decreases s.len(),
{
    if s.len() == 0 {
        0
    } else {
        (dec_val(s.drop_last()) * 10 + (s.last() - 48)) as nat
    }
}

proof fn lemma_dec_val_step(s: Seq<u8>, i: int)
    requires
        0 <= i < s.len(),
        is_digit_byte(s[i]),
    ensures
        dec_val(s.take(i + 1)) == dec_val(s.take(i)) * 10 + (s[i] - 48),
{
    assert(s.take(i + 1).drop_last() =~= s.take(i));
    assert(s.take(i + 1).last() == s[i]);
}

proof fn lemma_dec_val_prefix(s: Seq<u8>, i: int)
    requires
        0 <= i <= s.len(),
        all_digit_bytes(s),
    ensures
        dec_val(s) >= dec_val(s.take(i)),
    decreases s.len() - i,
{
    if i == s.len() {
        assert(s.take(i) =~= s);
    } else {
        lemma_dec_val_step(s, i);
        lemma_dec_val_prefix(s, i + 1);
    }
}

/// Parse a run of ASCII digits as a `u64`; `None` exactly when the numeral's
/// value does not fit.
pub(crate) fn parse_u64_digits(s: &[u8]) -> (r: Option<u64>)
    requires
        all_digit_bytes(s@),
    ensures
        match r {
            Some(v) => v as nat == dec_val(s@) && dec_val(s@) <= u64::MAX,
            None => dec_val(s@) > u64::MAX,
        },
{
    let mut acc: u64 = 0;
    let mut i: usize = 0;
    while i < s.len()
        invariant
            0 <= i <= s@.len(),
            all_digit_bytes(s@),
            acc as nat == dec_val(s@.take(i as int)),
        decreases s@.len() - i,
    {
        let b: u8 = *slice_index_get(s, i);
        let d: u64 = (b - 48) as u64;
        proof {
            lemma_dec_val_step(s@, i as int);
        }
        let stepped: Option<u64> = acc.checked_mul(10);
        match stepped {
            None => {
                proof {
                    lemma_dec_val_prefix(s@, i as int + 1);
                }
                return None;
            },
            Some(t) => {
                let summed: Option<u64> = t.checked_add(d);
                match summed {
                    None => {
                        proof {
                            lemma_dec_val_prefix(s@, i as int + 1);
                        }
                        return None;
                    },
                    Some(v) => {
                        acc = v;
                    },
                }
            },
        }
        i = i + 1;
    }
    proof {
        assert(s@.take(i as int) =~= s@);
    }
    Some(acc)
}

/// Parse a run of ASCII digits as a `usize`; `None` exactly when the
/// numeral's value does not fit.
pub(crate) fn parse_usize_digits(s: &[u8]) -> (r: Option<usize>)
    requires
        all_digit_bytes(s@),
    ensures
        match r {
            Some(v) => v as nat == dec_val(s@) && dec_val(s@) <= usize::MAX,
            None => dec_val(s@) > usize::MAX,
        },
{
    let mut acc: usize = 0;
    let mut i: usize = 0;
    while i < s.len()
        invariant
            0 <= i <= s@.len(),
            all_digit_bytes(s@),
            acc as nat == dec_val(s@.take(i as int)),
        decreases s@.len() - i,
    {
        let b: u8 = *slice_index_get(s, i);
        let d: usize = (b - 48) as usize;
        proof {
            lemma_dec_val_step(s@, i as int);
        }
        let stepped: Option<usize> = acc.checked_mul(10);
        match stepped {
            None => {
                proof {
                    lemma_dec_val_prefix(s@, i as int + 1);
                }
                return None;
            },
            Some(t) => {
                let summed: Option<usize> = t.checked_add(d);
                match summed {
                    None => {
                        proof {
                            lemma_dec_val_prefix(s@, i as int + 1);
                        }
                        return None;
                    },
                    Some(v) => {
                        acc = v;
                    },
                }
            },
        }
        i = i + 1;
    }
    proof {
        assert(s@.take(i as int) =~= s@);
    }
    Some(acc)
}

} // verus!
