use vstd::prelude::*;
use vstd::utf8::{decode_utf8, valid_utf8};

verus! {

/// A value as a database column holds it.
#[derive(Debug, Clone, PartialEq)]
pub enum StoredValue {
    Null,
    Integer(i64),
    /// A floating-point value, kept as its IEEE 754 bit pattern.
    Real(u64),
    /// Text, as the bytes the database returned; it may not be valid UTF-8.
    Text(Vec<u8>),
    Blob(Vec<u8>),
}

/// Why a column value could not be read as a sequence.
#[derive(Debug, Clone, Copy, PartialEq, Eq)]
pub enum ExtractError {
    /// The column does not hold text.
    InvalidType,
    /// The column holds text that is not valid UTF-8.
    InvalidUtf8,
}

/// Relies on `std::str::from_utf8`: it succeeds exactly on valid UTF-8, and
/// then gives the characters that the bytes encode.
#[verifier::external_body]
pub(crate) fn utf8_text(b: &Vec<u8>) -> (r: Option<&str>)
    ensures
        r.is_some() == valid_utf8(b@),
        r matches Some(s) ==> s@ == decode_utf8(b@),
{
    std::str::from_utf8(b.as_slice()).ok()
}

} // verus!
