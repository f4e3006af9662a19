//! Names derived from text by hashing.

use vstd::prelude::*;

use sha1::Digest;

verus! {

/// The SHA-1 digest of the UTF-8 bytes of a text, in lower-case hexadecimal.
pub uninterp spec fn sha1_hex(text: Seq<char>) -> Seq<char>;

/// The version 5 UUID of the UTF-8 bytes of a text in the namespace for
/// object identifiers, in lower-case hexadecimal with hyphens.
pub uninterp spec fn uuid_v5_in_oid_namespace(text: Seq<char>) -> Seq<char>;

/// A lower-case hexadecimal digit.
pub open spec fn is_hex_digit(c: char) -> bool {
    '0' <= c <= '9' || 'a' <= c <= 'f'
}

/// `sha1::Sha1::digest` on the bytes of a text, formatted by the `LowerHex` of
/// its result. What is claimed: the result is a function of the text, of two
/// hexadecimal digits for each of the twenty bytes of the digest.
#[verifier::external_body]
pub(crate) fn sha1_hex_of(text: &str) -> (hex: String)
    ensures
        hex@ == sha1_hex(text@),
        hex@.len() == 40,
        forall|i: int| 0 <= i < hex@.len() ==> is_hex_digit(#[trigger] hex@[i]),
{
    format!("{:x}", sha1::Sha1::digest(text.as_bytes()))
}

/// `uuid::Uuid::new_v5` in `uuid::Uuid::NAMESPACE_OID` on the bytes of a text,
/// formatted by the `Display` of `Uuid`. What is claimed: the result is a
/// function of the text, of thirty-six characters, each of them a hexadecimal
/// digit or a hyphen.
#[verifier::external_body]
pub(crate) fn uuid_of(text: &str) -> (id: String)
    ensures
        id@ == uuid_v5_in_oid_namespace(text@),
        id@.len() == 36,
        forall|i: int| 0 <= i < id@.len() ==> is_hex_digit(#[trigger] id@[i]) || id@[i] == '-',
{
    format!("{}", uuid::Uuid::new_v5(&uuid::Uuid::NAMESPACE_OID, text.as_bytes()))
}

} // verus!
