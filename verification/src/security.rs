//! The reversible encoding behind the configuration backup. The backup
//! file holds the configuration text base64-encoded; restoring decodes it
//! and recovers the exact original text. Reading and writing the files,
//! and the permission and privilege checks against the OS, are the
//! hosting process's job.

use base64::Engine;
use vstd::prelude::*;
use vstd::utf8::{decode_utf8, encode_utf8, valid_utf8};

use crate::textscan::{lowercased, to_lowercase, trim_in_str, trimmed};

verus! {

/// The base64 text of a byte sequence, as the standard alphabet with
/// padding renders it.
pub uninterp spec fn base64_of(b: Seq<u8>) -> Seq<char>;

/// Relies on base64's `Engine::encode` with the standard engine: the
/// encoding is a function of the input bytes alone. The length bound
/// keeps the output-size computation from overflowing.
#[verifier::external_body]
fn base64_encode(content: &[u8]) -> (r: String)
    requires
        content@.len() <= usize::MAX / 4,
    ensures
        r@ == base64_of(content@),
{
    base64::engine::general_purpose::STANDARD.encode(content)
}

#[verifier::external_type_specification]
#[verifier::external_body]
pub struct ExDecodeError(base64::DecodeError);

/// Relies on base64's `Engine::decode` with the standard engine: decoding
/// inverts encoding, so text that is the encoding of some bytes decodes
/// to exactly those bytes.
#[verifier::external_body]
fn base64_decode(encoded: &str) -> (r: Result<Vec<u8>, base64::DecodeError>)
    ensures
        forall|b: Seq<u8>| encoded@ == base64_of(b) ==> r is Ok && r->Ok_0@ == b,
{
    base64::engine::general_purpose::STANDARD.decode(encoded)
}

/// Relies on `String::from_utf8`: it succeeds exactly on valid UTF-8 and
/// returns the text those bytes encode.
#[verifier::external_body]
fn string_from_utf8(bytes: Vec<u8>) -> (r: Option<String>)
    ensures
        r matches Some(s) ==> valid_utf8(bytes@) && s@ == decode_utf8(bytes@),
        r is None ==> !valid_utf8(bytes@),
{
    match String::from_utf8(bytes) {
        Ok(s) => Some(s),
        Err(_) => None,
    }
}

/// Guards the configuration: encodes its text for the backup file and
/// decodes a backup back to the text. Stateless.
pub struct SecurityManager;

impl SecurityManager {
    pub fn new() -> (r: Self) {
        Self
    }

    /// The backup encoding of the configuration text.
    pub fn encode_backup(&self, content: &str) -> (r: String)
        requires
            encode_utf8(content@).len() <= usize::MAX / 4,
        ensures
            r@ == base64_of(encode_utf8(content@)),
    {
        let bytes = content.as_bytes();
        base64_encode(bytes)
    }

    /// Whether the privilege probe's reply affirms administrator rights:
    /// exactly when the reply, trimmed and case-folded, reads `true`.
    pub fn is_admin_reply(&self, reply: &str) -> (r: bool)
        ensures
            r == (lowercased(trimmed(reply@)) == "true"@),
    {
        let (a, b) = trim_in_str(reply);
        let t = reply.substring_char(a, b);
        proof {
            assert(t@ == trimmed(reply@));
        }
        let folded = to_lowercase(t);
        folded == String::from_str("true")
    }

    /// Restores configuration text from a backup: on the encoding of any
    /// text, exactly that text; `None` when the backup is not the
    /// encoding of UTF-8 bytes.
    pub fn decode_backup(&self, encoded: &str) -> (r: Option<String>)
        ensures
            forall|t: Seq<char>|
                encoded@ == base64_of(#[trigger] encode_utf8(t)) ==> (r matches Some(s)
                    && s@ == t),
    {
        let bytes = match base64_decode(encoded) {
            Ok(b) => b,
            Err(_) => {
                return None;
            },
        };
        let r = string_from_utf8(bytes);
        proof {
            assert forall|t: Seq<char>|
                encoded@ == base64_of(#[trigger] encode_utf8(t)) implies (r matches Some(s) && s@
                == t) by {
                vstd::utf8::encode_utf8_valid_utf8(t);
                vstd::utf8::encode_utf8_decode_utf8(t);
            }
        }
        r
    }
}

} // verus!
