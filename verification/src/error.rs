//! Errors reported while compiling filter rule texts.

use vstd::prelude::*;

verus! {

/// Why a rule text or pubkey list was rejected. Construction-time only:
/// matching never errors.
#[derive(Clone, Copy, Debug, PartialEq, Eq, Structural)]
pub enum FilterParseError {
    /// The rule text does not match the top-level grammar.
    InvalidOwnerFilterSyntax,
    /// The identity segment does not decode to a 32-byte value.
    InvalidOwnerPubkey,
    /// The `size:` value is not a valid non-negative integer.
    InvalidSizeFilter,
    /// More than one `size:` option in one rule.
    MultipleSizeFilter,
    /// The hex or base58 payload of a `memcmp:` option fails to decode.
    InvalidBytesMemcmpFilter,
    /// The offset of a `memcmp:` option is not a valid non-negative integer.
    InvalidOffsetMemcmpFilter,
    /// An option matches none of the recognized shapes.
    UnknownFilter,
}

impl FilterParseError {
    pub open spec fn spec_message(self) -> Seq<char> {
        match self {
            FilterParseError::InvalidOwnerFilterSyntax => "Invalid owner filter syntax"@,
            FilterParseError::InvalidOwnerPubkey => "Invalid owner pubkey"@,
            FilterParseError::InvalidSizeFilter => "Invalid size filter"@,
            FilterParseError::MultipleSizeFilter => "Multiple size filter"@,
            FilterParseError::InvalidBytesMemcmpFilter => "Invalid memcmp filter (bytes)"@,
            FilterParseError::InvalidOffsetMemcmpFilter => "Invalid memcmp filter (offset)"@,
            FilterParseError::UnknownFilter => "Unknown filter"@,
        }
    }

    /// A human-readable description of the error.
    pub fn message(&self) -> (r: String)
        ensures
            r@ == self.spec_message(),
    {
        match self {
            FilterParseError::InvalidOwnerFilterSyntax => "Invalid owner filter syntax".to_owned(),
            FilterParseError::InvalidOwnerPubkey => "Invalid owner pubkey".to_owned(),
            FilterParseError::InvalidSizeFilter => "Invalid size filter".to_owned(),
            FilterParseError::MultipleSizeFilter => "Multiple size filter".to_owned(),
            FilterParseError::InvalidBytesMemcmpFilter => "Invalid memcmp filter (bytes)".to_owned(),
            FilterParseError::InvalidOffsetMemcmpFilter => "Invalid memcmp filter (offset)".to_owned(),
            FilterParseError::UnknownFilter => "Unknown filter".to_owned(),
        }
    }
}

} // verus!
