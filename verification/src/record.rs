//! The account record consumed by the matcher: one decoded snapshot entry,
//! treated as plain values with an opaque payload.

use vstd::prelude::*;

verus! {

/// Ghost image of an [`AccountRecord`].
pub struct AccountRecordModel {
    pub pubkey: Seq<u8>,
    pub owner: Seq<u8>,
    pub data_len: u64,
    pub lamports: u64,
    pub write_version: u64,
    pub data: Seq<u8>,
}

/// One decoded account record. `pubkey` and `owner` hold the raw 32-byte
/// identities; `data` is the opaque payload. `data_len` is the length the
/// snapshot metadata declares, carried separately from the payload itself.
pub struct AccountRecord {
    pub pubkey: Vec<u8>,
    pub owner: Vec<u8>,
    pub data_len: u64,
    pub lamports: u64,
    pub write_version: u64,
    pub data: Vec<u8>,
}

impl View for AccountRecord {
    type V = AccountRecordModel;

    open spec fn view(&self) -> AccountRecordModel {
        AccountRecordModel {
            pubkey: self.pubkey@,
            owner: self.owner@,
            data_len: self.data_len,
            lamports: self.lamports,
            write_version: self.write_version,
            data: self.data@,
        }
    }
}

} // verus!
