//! The memcmp rule: a byte-exact comparison of a payload sub-range against
//! an expected byte sequence at a fixed offset.

use vstd::prelude::*;
use vstd::slice::slice_index_get;

verus! {

/// Ghost image of a [`MemCmp`].
pub struct MemCmpModel {
    pub offset: usize,
    pub bytes: Seq<u8>,
}

/// Whether `data` holds exactly `m.bytes` starting at `m.offset`. False
/// whenever the range would reach past the end of `data`.
pub open spec fn memcmp_matches(m: MemCmpModel, data: Seq<u8>) -> bool {
    &&& m.offset + m.bytes.len() <= data.len()
    &&& data.subrange(m.offset as int, m.offset + m.bytes.len()) == m.bytes
}

/// A byte-range comparator: an offset and the byte sequence expected there.
#[derive(Debug)]
pub struct MemCmp {
    offset: usize,
    bytes: Vec<u8>,
}

impl View for MemCmp {
    type V = MemCmpModel;

    closed spec fn view(&self) -> MemCmpModel {
        MemCmpModel { offset: self.offset, bytes: self.bytes@ }
    }
}

impl MemCmp {
    pub fn new(offset: usize, bytes: Vec<u8>) -> (r: MemCmp)
        ensures
            r@ == (MemCmpModel { offset, bytes: bytes@ }),
    {
        MemCmp { offset, bytes }
    }

    /// Bounds-checked byte comparison: fails closed on a buffer shorter than
    /// `offset + bytes.len()`, otherwise compares byte for byte.
    pub fn is_match(&self, data: &[u8]) -> (r: bool)
        ensures
            r == memcmp_matches(self@, data@),
    {
        if self.offset > data.len() || self.bytes.len() > data.len() - self.offset {
            return false;
        }
        let mut i: usize = 0;
        while i < self.bytes.len()
            invariant
                data@.len() <= usize::MAX,
                self.offset + self.bytes@.len() <= data@.len(),
                0 <= i <= self.bytes@.len(),
                forall|j: int| 0 <= j < i ==> data@[self.offset + j] == self.bytes@[j],
            decreases self.bytes@.len() - i,
        {
            if *slice_index_get(data, self.offset + i) != self.bytes[i] {
                proof {
                    assert(data@.subrange(
                        self@.offset as int,
                        self@.offset + self@.bytes.len(),
                    )[i as int] != self@.bytes[i as int]);
                }
                return false;
            }
            i = i + 1;
        }
        proof {
            assert(data@.subrange(self@.offset as int, self@.offset + self@.bytes.len())
                =~= self@.bytes);
        }
        true
    }
}

/// A buffer shorter than `offset + bytes.len()` never matches.
pub proof fn lemma_memcmp_short_buffer(m: MemCmpModel, data: Seq<u8>)
    requires
        data.len() < m.offset + m.bytes.len(),
    ensures
        !memcmp_matches(m, data),
{
}

} // verus!
