//! The owner rule: its textual grammar, its compiler, and its matcher.
//!
//! A rule text is `<identity>(,<option>)*`, where `<identity>` is a base58
//! string decoding to a 32-byte identity and each `<option>` is one of
//! `size:<decimal>`, `memcmp:0x<even-hex>@<decimal>` or
//! `memcmp:<base58>@<decimal>`. Empty options are skipped; anything else is
//! an error.

use vstd::prelude::*;
use vstd::slice::slice_index_get;
use vstd::slice::slice_subrange;
use crate::base58::{base58_decode, base58_decoding};
use crate::digits::{dec_val, parse_u64_digits, parse_usize_digits};
use crate::error::FilterParseError;
use crate::hexbytes::{hex_bytes_of, hex_decode};
use crate::memcmp::{memcmp_matches, MemCmp, MemCmpModel};
use crate::record::AccountRecord;
use crate::record::AccountRecordModel;
use crate::text::{
    all_base58_bytes, all_digit_bytes, all_hex_digit_bytes, check_all_base58, check_all_digits,
    check_all_hex_digits, find_byte, find_first, split_bytes, split_on, string_bytes, views_of,
};
use crate::text::bytes_eq;

verus! {

// --- option shapes ---

/// `s` starts with `size:`.
pub open spec fn has_size_prefix(s: Seq<u8>) -> bool {
    s.len() >= 5 && s[0] == 115 && s[1] == 105 && s[2] == 122 && s[3] == 101 && s[4] == 58
}

/// `s` is `size:` followed by one or more decimal digits.
pub open spec fn is_size_opt(s: Seq<u8>) -> bool {
    has_size_prefix(s) && s.len() > 5 && all_digit_bytes(s.skip(5))
}

/// `s` starts with `memcmp:`.
pub open spec fn has_memcmp_prefix(s: Seq<u8>) -> bool {
    s.len() >= 7 && s[0] == 109 && s[1] == 101 && s[2] == 109 && s[3] == 99 && s[4] == 109
        && s[5] == 112 && s[6] == 58
}

/// `s` starts with `memcmp:0x`.
pub open spec fn has_hex_memcmp_prefix(s: Seq<u8>) -> bool {
    has_memcmp_prefix(s) && s.len() >= 9 && s[7] == 48 && s[8] == 120
}

/// Index just past the hex payload: the first `@` at or after index 9.
pub open spec fn hex_payload_end(s: Seq<u8>) -> int {
    9 + find_byte(s.skip(9), 64)
}

/// `s` is `memcmp:0x<even-length-hex>@<decimal>`.
pub open spec fn is_hex_memcmp_opt(s: Seq<u8>) -> bool {
    has_hex_memcmp_prefix(s) && {
        let a = hex_payload_end(s);
        &&& 9 < a < s.len()
        &&& (a - 9) % 2 == 0
        &&& all_hex_digit_bytes(s.subrange(9, a))
        &&& a + 1 < s.len()
        &&& all_digit_bytes(s.skip(a + 1))
    }
}

/// Index just past the base58 payload: the first `@` at or after index 7.
pub open spec fn b58_payload_end(s: Seq<u8>) -> int {
    7 + find_byte(s.skip(7), 64)
}

/// `s` is `memcmp:<base58>@<decimal>`.
pub open spec fn is_b58_memcmp_opt(s: Seq<u8>) -> bool {
    has_memcmp_prefix(s) && {
        let a = b58_payload_end(s);
        &&& 7 < a < s.len()
        &&& all_base58_bytes(s.subrange(7, a))
        &&& a + 1 < s.len()
        &&& all_digit_bytes(s.skip(a + 1))
    }
}

// --- the rule model and the compiled form ---

/// Ghost image of an [`OwnerFilter`].
pub struct OwnerFilterModel {
    pub owner: Seq<u8>,
    pub size_filter: Option<u64>,
    pub memcmp_filters: Seq<MemCmpModel>,
}

pub open spec fn mems_view(v: Seq<MemCmp>) -> Seq<MemCmpModel> {
    v.map_values(|m: MemCmp| m@)
}

/// What one option segment does to the partial rule, processed left to
/// right: `Ok` carries the updated size filter and matcher list, `Err` the
/// parse error that aborts the rule.
pub open spec fn apply_option_spec(
    seg: Seq<u8>,
    size: Option<u64>,
    mems: Seq<MemCmpModel>,
) -> Result<(Option<u64>, Seq<MemCmpModel>), FilterParseError> {
    if seg.len() == 0 {
        Ok((size, mems))
    } else if is_size_opt(seg) {
        if dec_val(seg.skip(5)) > u64::MAX {
            Err(FilterParseError::InvalidSizeFilter)
        } else if size is Some {
            Err(FilterParseError::MultipleSizeFilter)
        } else {
            Ok((Some(dec_val(seg.skip(5)) as u64), mems))
        }
    } else if is_hex_memcmp_opt(seg) {
        let a = hex_payload_end(seg);
        if dec_val(seg.skip(a + 1)) > usize::MAX {
            Err(FilterParseError::InvalidOffsetMemcmpFilter)
        } else {
            Ok(
                (
                    size,
                    mems.push(
                        MemCmpModel {
                            offset: dec_val(seg.skip(a + 1)) as usize,
                            bytes: hex_bytes_of(seg.subrange(9, a)),
                        },
                    ),
                ),
            )
        }
    } else if is_b58_memcmp_opt(seg) {
        let a = b58_payload_end(seg);
        match base58_decoding(seg.subrange(7, a)) {
            Option::None => Err(FilterParseError::InvalidBytesMemcmpFilter),
            Option::Some(bytes) => {
                if dec_val(seg.skip(a + 1)) > usize::MAX {
                    Err(FilterParseError::InvalidOffsetMemcmpFilter)
                } else {
                    Ok(
                        (
                            size,
                            mems.push(
                                MemCmpModel { offset: dec_val(seg.skip(a + 1)) as usize, bytes },
                            ),
                        ),
                    )
                }
            },
        }
    } else {
        Err(FilterParseError::UnknownFilter)
    }
}

/// Left-to-right fold of [`apply_option_spec`] over the option segments.
pub open spec fn fold_options(
    segs: Seq<Seq<u8>>,
    size: Option<u64>,
    mems: Seq<MemCmpModel>,
) -> Result<(Option<u64>, Seq<MemCmpModel>), FilterParseError>
    decreases segs.len(),
{
    if segs.len() == 0 {
        Ok((size, mems))
    } else {
        match apply_option_spec(segs[0], size, mems) {
            Err(e) => Err(e),
            Ok(st) => fold_options(segs.skip(1), st.0, st.1),
        }
    }
}

/// The rule a text compiles to, or the error that rejects it. The text is
/// split at commas; the first segment must be a base58 string decoding to a
/// 32-byte identity, and the remaining segments are options.
pub open spec fn parse_owner_rule(t: Seq<u8>) -> Result<OwnerFilterModel, FilterParseError> {
    let segs = split_bytes(t, 44);
    let id = segs[0];
    if !(id.len() > 0 && all_base58_bytes(id)) {
        Err(FilterParseError::InvalidOwnerFilterSyntax)
    } else {
        match base58_decoding(id) {
            Option::None => Err(FilterParseError::InvalidOwnerPubkey),
            Option::Some(owner) => {
                if owner.len() != 32 {
                    Err(FilterParseError::InvalidOwnerPubkey)
                } else {
                    match fold_options(segs.skip(1), Option::None, Seq::empty()) {
                        Err(e) => Err(e),
                        Ok(st) => Ok(
                            OwnerFilterModel {
                                owner,
                                size_filter: st.0,
                                memcmp_filters: st.1,
                            },
                        ),
                    }
                }
            },
        }
    }
}

/// Whether an owner rule selects a record: the size constraint (if any)
/// holds of the declared data length, the owner identities are byte-equal,
/// and every byte matcher matches the payload.
pub open spec fn owner_rule_matches(f: OwnerFilterModel, a: AccountRecordModel) -> bool {
    &&& match f.size_filter {
        Option::Some(sz) => a.data_len == sz,
        Option::None => true,
    }
    &&& a.owner == f.owner
    &&& forall|i: int|
        0 <= i < f.memcmp_filters.len() ==> memcmp_matches(f.memcmp_filters[i], a.data)
}

/// A compiled owner rule: one 32-byte owner identity, an optional exact
/// payload-length constraint, and byte matchers, all of which must pass.
#[derive(Debug)]
pub struct OwnerFilter {
    owner: Vec<u8>,
    size_filter: Option<u64>,
    memcmp_filters: Vec<MemCmp>,
}

impl View for OwnerFilter {
    type V = OwnerFilterModel;

    closed spec fn view(&self) -> OwnerFilterModel {
        OwnerFilterModel {
            owner: self.owner@,
            size_filter: self.size_filter,
            memcmp_filters: mems_view(self.memcmp_filters@),
        }
    }
}

// --- exec shape checks ---

fn check_size_opt(seg: &[u8]) -> (r: bool)
    ensures
        r == is_size_opt(seg@),
{
    if seg.len() <= 5 {
        return false;
    }
    if !(*slice_index_get(seg, 0) == 115 && *slice_index_get(seg, 1) == 105 && *slice_index_get(
        seg,
        2,
    ) == 122 && *slice_index_get(seg, 3) == 101 && *slice_index_get(seg, 4) == 58) {
        return false;
    }
    let rest = slice_subrange(seg, 5, seg.len());
    proof {
        assert(rest@ =~= seg@.skip(5));
    }
    check_all_digits(rest)
}

fn check_memcmp_prefix(seg: &[u8]) -> (r: bool)
    ensures
        r == has_memcmp_prefix(seg@),
{
    if seg.len() < 7 {
        return false;
    }
    *slice_index_get(seg, 0) == 109 && *slice_index_get(seg, 1) == 101 && *slice_index_get(seg, 2)
        == 109 && *slice_index_get(seg, 3) == 99 && *slice_index_get(seg, 4) == 109
        && *slice_index_get(seg, 5) == 112 && *slice_index_get(seg, 6) == 58
}

/// Where the shape matches, hand back the index just past the hex payload.
fn check_hex_memcmp(seg: &[u8]) -> (r: Option<usize>)
    ensures
        match r {
            Some(a) => is_hex_memcmp_opt(seg@) && a as int == hex_payload_end(seg@),
            None => !is_hex_memcmp_opt(seg@),
        },
{
    if !check_memcmp_prefix(seg) {
        return None;
    }
    if seg.len() < 9 || !(*slice_index_get(seg, 7) == 48 && *slice_index_get(seg, 8) == 120) {
        return None;
    }
    let tail = slice_subrange(seg, 9, seg.len());
    proof {
        assert(tail@ =~= seg@.skip(9));
    }
    let f = find_first(tail, 64);
    let a: usize = 9 + f;
    if a >= seg.len() {
        return None;
    }
    if a == 9 {
        return None;
    }
    if (a - 9) % 2 != 0 {
        return None;
    }
    let payload = slice_subrange(seg, 9, a);
    proof {
        assert(payload@ =~= seg@.subrange(9, a as int));
    }
    if !check_all_hex_digits(payload) {
        return None;
    }
    if a + 1 >= seg.len() {
        return None;
    }
    let offb = slice_subrange(seg, a + 1, seg.len());
    proof {
        assert(offb@ =~= seg@.skip(a as int + 1));
    }
    if !check_all_digits(offb) {
        return None;
    }
    Some(a)
}

/// Where the shape matches, hand back the index just past the base58 payload.
fn check_b58_memcmp(seg: &[u8]) -> (r: Option<usize>)
    ensures
        match r {
            Some(a) => is_b58_memcmp_opt(seg@) && a as int == b58_payload_end(seg@),
            None => !is_b58_memcmp_opt(seg@),
        },
{
    if !check_memcmp_prefix(seg) {
        return None;
    }
    let tail = slice_subrange(seg, 7, seg.len());
    proof {
        assert(tail@ =~= seg@.skip(7));
    }
    let f = find_first(tail, 64);
    let a: usize = 7 + f;
    if a >= seg.len() {
        return None;
    }
    if a == 7 {
        return None;
    }
    let payload = slice_subrange(seg, 7, a);
    proof {
        assert(payload@ =~= seg@.subrange(7, a as int));
    }
    if !check_all_base58(payload) {
        return None;
    }
    if a + 1 >= seg.len() {
        return None;
    }
    let offb = slice_subrange(seg, a + 1, seg.len());
    proof {
        assert(offb@ =~= seg@.skip(a as int + 1));
    }
    if !check_all_digits(offb) {
        return None;
    }
    Some(a)
}

/// Process one option segment, updating the matcher list in place.
fn apply_option(seg: &[u8], size: Option<u64>, mems: &mut Vec<MemCmp>) -> (r: Result<
    Option<u64>,
    FilterParseError,
>)
    ensures
        match r {
            Ok(s2) => apply_option_spec(seg@, size, mems_view(old(mems)@)) == Ok::<
                _,
                FilterParseError,
            >((s2, mems_view(final(mems)@))),
            Err(e) => apply_option_spec(seg@, size, mems_view(old(mems)@)) == Err::<
                (Option<u64>, Seq<MemCmpModel>),
                _,
            >(e) && final(mems)@ == old(mems)@,
        },
{
    if seg.len() == 0 {
        return Ok(size);
    }
    if check_size_opt(seg) {
        let rest = slice_subrange(seg, 5, seg.len());
        proof {
            assert(rest@ =~= seg@.skip(5));
        }
        match parse_u64_digits(rest) {
            None => Err(FilterParseError::InvalidSizeFilter),
            Some(v) => match size {
                Some(_) => Err(FilterParseError::MultipleSizeFilter),
                None => Ok(Some(v)),
            },
        }
    } else {
        match check_hex_memcmp(seg) {
            Some(a) => {
                let payload = slice_subrange(seg, 9, a);
                proof {
                    assert(payload@ =~= seg@.subrange(9, a as int));
                }
                let bytes = hex_decode(payload);
                let offb = slice_subrange(seg, a + 1, seg.len());
                proof {
                    assert(offb@ =~= seg@.skip(a as int + 1));
                }
                match parse_usize_digits(offb) {
                    None => Err(FilterParseError::InvalidOffsetMemcmpFilter),
                    Some(off) => {
                        let ghost pre = mems_view(mems@);
                        let m = MemCmp::new(off, bytes);
                        mems.push(m);
                        proof {
                            assert(mems_view(mems@) =~= pre.push(m@));
                        }
                        Ok(size)
                    },
                }
            },
            None => {
                match check_b58_memcmp(seg) {
                    Some(a) => {
                        let payload = slice_subrange(seg, 7, a);
                        proof {
                            assert(payload@ =~= seg@.subrange(7, a as int));
                        }
                        match base58_decode(payload) {
                            None => Err(FilterParseError::InvalidBytesMemcmpFilter),
                            Some(bytes) => {
                                let offb = slice_subrange(seg, a + 1, seg.len());
                                proof {
                                    assert(offb@ =~= seg@.skip(a as int + 1));
                                }
                                match parse_usize_digits(offb) {
                                    None => Err(FilterParseError::InvalidOffsetMemcmpFilter),
                                    Some(off) => {
                                        let ghost pre = mems_view(mems@);
                                        let m = MemCmp::new(off, bytes);
                                        mems.push(m);
                                        proof {
                                            assert(mems_view(mems@) =~= pre.push(m@));
                                        }
                                        Ok(size)
                                    },
                                }
                            },
                        }
                    },
                    None => Err(FilterParseError::UnknownFilter),
                }
            },
        }
    }
}

impl OwnerFilter {
    /// Compile one rule text. The result is exactly what
    /// [`parse_owner_rule`] assigns to the text's bytes.
    pub fn new(owner_with_opts: &String) -> (r: Result<OwnerFilter, FilterParseError>)
        ensures
            match r {
                Ok(f) => parse_owner_rule(string_bytes(owner_with_opts@)) == Ok::<
                    _,
                    FilterParseError,
                >(f@),
                Err(e) => parse_owner_rule(string_bytes(owner_with_opts@)) == Err::<
                    OwnerFilterModel,
                    _,
                >(e),
            },
    {
        let bytes: &[u8] = owner_with_opts.as_str().as_bytes();
        let ghost t = string_bytes(owner_with_opts@);
        proof {
            assert(bytes@ == t);
        }
        let segs: Vec<Vec<u8>> = split_on(bytes, 44);
        let ghost sv = views_of(segs@);
        let id: &Vec<u8> = &segs[0];
        proof {
            assert(sv[0] == id@);
        }
        if !(id.len() > 0 && check_all_base58(id.as_slice())) {
            return Err(FilterParseError::InvalidOwnerFilterSyntax);
        }
        match base58_decode(id.as_slice()) {
            None => Err(FilterParseError::InvalidOwnerPubkey),
            Some(owner) => {
                if owner.len() != 32 {
                    return Err(FilterParseError::InvalidOwnerPubkey);
                }
                let mut size: Option<u64> = None;
                let mut mems: Vec<MemCmp> = Vec::new();
                let mut i: usize = 1;
                proof {
                    assert(mems_view(mems@) =~= Seq::<MemCmpModel>::empty());
                }
                while i < segs.len()
                    invariant
                        1 <= i <= segs@.len(),
                        sv == views_of(segs@),
                        t == string_bytes(owner_with_opts@),
                        sv == split_bytes(t, 44),
                        sv.len() == segs@.len(),
                        sv[0].len() > 0,
                        all_base58_bytes(sv[0]),
                        base58_decoding(sv[0]) == Some(owner@),
                        owner@.len() == 32,
                        fold_options(sv.skip(1), Option::None, Seq::empty()) == fold_options(
                            sv.skip(i as int),
                            size,
                            mems_view(mems@),
                        ),
                    decreases segs@.len() - i,
                {
                    let seg: &Vec<u8> = &segs[i];
                    proof {
                        assert(sv.skip(i as int)[0] == sv[i as int]);
                        assert(sv[i as int] == seg@);
                    }
                    let ghost size_pre = size;
                    let ghost mems_pre = mems_view(mems@);
                    match apply_option(seg.as_slice(), size, &mut mems) {
                        Err(e) => {
                            proof {
                                assert(fold_options(sv.skip(i as int), size_pre, mems_pre)
                                    == Err::<(Option<u64>, Seq<MemCmpModel>), FilterParseError>(e));
                            }
                            return Err(e);
                        },
                        Ok(s2) => {
                            size = s2;
                        },
                    }
                    proof {
                        assert(sv.skip(i as int).skip(1) =~= sv.skip(i as int + 1));
                    }
                    i = i + 1;
                }
                proof {
                    assert(sv.skip(i as int) =~= Seq::<Seq<u8>>::empty());
                }
                Ok(OwnerFilter { owner, size_filter: size, memcmp_filters: mems })
            },
        }
    }

    /// Whether this rule selects the record: size (if constrained), owner,
    /// then every byte matcher, in that order, first failure deciding.
    pub fn is_match(&self, account: &AccountRecord) -> (r: bool)
        ensures
            r == owner_rule_matches(self@, account@),
    {
        match self.size_filter {
            Some(size) => {
                if account.data_len != size {
                    return false;
                }
            },
            None => {},
        }
        if !bytes_eq(self.owner.as_slice(), account.owner.as_slice()) {
            return false;
        }
        let mut i: usize = 0;
        while i < self.memcmp_filters.len()
            invariant
                0 <= i <= self.memcmp_filters@.len(),
                match self@.size_filter {
                    Option::Some(sz) => account@.data_len == sz,
                    Option::None => true,
                },
                account@.owner == self@.owner,
                forall|j: int|
                    0 <= j < i ==> memcmp_matches(self@.memcmp_filters[j], account@.data),
            decreases self.memcmp_filters@.len() - i,
        {
            if !self.memcmp_filters[i].is_match(account.data.as_slice()) {
                proof {
                    assert(!memcmp_matches(self@.memcmp_filters[i as int], account@.data));
                }
                return false;
            }
            i = i + 1;
        }
        true
    }
}

// --- laws ---

/// Parsing is deterministic and total: the rule a text compiles to is a
/// function of the text alone, so equal texts always compile to equal
/// results.
pub proof fn lemma_parse_deterministic(t1: Seq<u8>, t2: Seq<u8>)
    requires
        t1 == t2,
    ensures
        parse_owner_rule(t1) == parse_owner_rule(t2),
{
}

/// How many option segments are `size:` options.
pub open spec fn count_size_opts(segs: Seq<Seq<u8>>) -> nat
    decreases segs.len(),
{
    if segs.len() == 0 {
        0
    } else {
        (if is_size_opt(segs[0]) {
            1nat
        } else {
            0nat
        }) + count_size_opts(segs.skip(1))
    }
}

/// An option segment that parses without an error of its own: empty, or one
/// of the three shapes with its numbers in range and its payload decodable.
pub open spec fn option_ok(seg: Seq<u8>) -> bool {
    ||| seg.len() == 0
    ||| (is_size_opt(seg) && dec_val(seg.skip(5)) <= u64::MAX)
    ||| (is_hex_memcmp_opt(seg) && dec_val(seg.skip(hex_payload_end(seg) + 1)) <= usize::MAX)
    ||| (is_b58_memcmp_opt(seg) && base58_decoding(seg.subrange(7, b58_payload_end(seg))) is Some
        && dec_val(seg.skip(b58_payload_end(seg) + 1)) <= usize::MAX)
}

proof fn lemma_fold_multiple_size(segs: Seq<Seq<u8>>, size: Option<u64>, mems: Seq<MemCmpModel>)
    requires
        forall|k: int| 0 <= k < segs.len() ==> option_ok(#[trigger] segs[k]),
        count_size_opts(segs) + (if size is Some {
            1int
        } else {
            0int
        }) >= 2,
    ensures
        fold_options(segs, size, mems) == Err::<(Option<u64>, Seq<MemCmpModel>), FilterParseError>(
            FilterParseError::MultipleSizeFilter,
        ),
    decreases segs.len(),
{
    assert(segs.len() > 0);
    let seg = segs[0];
    assert(option_ok(seg));
    assert forall|k: int| 0 <= k < segs.skip(1).len() implies option_ok(#[trigger] segs.skip(1)[k]) by {
        assert(segs.skip(1)[k] == segs[k + 1]);
    }
    if seg.len() == 0 {
        lemma_fold_multiple_size(segs.skip(1), size, mems);
    } else if is_size_opt(seg) {
        if size is Some {
        } else {
            lemma_fold_multiple_size(segs.skip(1), Some(dec_val(seg.skip(5)) as u64), mems);
        }
    } else if is_hex_memcmp_opt(seg) {
        let a = hex_payload_end(seg);
        lemma_fold_multiple_size(
            segs.skip(1),
            size,
            mems.push(
                MemCmpModel {
                    offset: dec_val(seg.skip(a + 1)) as usize,
                    bytes: hex_bytes_of(seg.subrange(9, a)),
                },
            ),
        );
    } else {
        let a = b58_payload_end(seg);
        lemma_fold_multiple_size(
            segs.skip(1),
            size,
            mems.push(
                MemCmpModel {
                    offset: dec_val(seg.skip(a + 1)) as usize,
                    bytes: base58_decoding(seg.subrange(7, a)).unwrap(),
                },
            ),
        );
    }
}

/// Duplicate `size:` options in one rule text always yield
/// `MultipleSizeFilter`, regardless of the other valid options present.
pub proof fn lemma_duplicate_size_filter(t: Seq<u8>)
    requires
        ({
            let segs = split_bytes(t, 44);
            &&& segs[0].len() > 0
            &&& all_base58_bytes(segs[0])
            &&& base58_decoding(segs[0]) is Some
            &&& base58_decoding(segs[0]).unwrap().len() == 32
            &&& forall|k: int| 1 <= k < segs.len() ==> option_ok(#[trigger] segs[k])
            &&& count_size_opts(segs.skip(1)) >= 2
        }),
    ensures
        parse_owner_rule(t) == Err::<OwnerFilterModel, FilterParseError>(
            FilterParseError::MultipleSizeFilter,
        ),
{
    let segs = split_bytes(t, 44);
    assert forall|k: int| 0 <= k < segs.skip(1).len() implies option_ok(#[trigger] segs.skip(1)[k]) by {
        assert(segs.skip(1)[k] == segs[k + 1]);
    }
    lemma_fold_multiple_size(segs.skip(1), Option::None, Seq::empty());
}

} // verus!
