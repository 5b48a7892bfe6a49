//! Content hashes: SHA-256 in lower-case hexadecimal digits.
use vstd::prelude::*;
use vstd::utf8::encode_utf8;
use vstd::string::StringSliceAdditionalSpecFns;
use vstd::string::StringExecFns;
use sha2::Digest;
use crate::text::{decimal, push_decimal};

verus! {

/// The SHA-256 digest of `data`, written as 64 lower-case hexadecimal
/// digits.
pub uninterp spec fn sha256_hex_digest(data: Seq<u8>) -> Seq<char>;

/// Hashes `data` with `sha2::Sha256::digest` and writes the digest in
/// lower-case hexadecimal digits. The digest is a function of the bytes
/// alone; which one is not stated.
#[verifier::external_body]
pub(crate) fn sha256_hex(data: &[u8]) -> (hex: String)
    ensures
        hex@ == sha256_hex_digest(data@),
{
    format!("{:x}", sha2::Sha256::digest(data))
}

/// The hash of `bytes`.
pub fn hash_bytes(bytes: &[u8]) -> (hex: String)
    ensures
        hex@ == sha256_hex_digest(bytes@),
{
    sha256_hex(bytes)
}

/// The hash of the UTF-8 encoding of `value`.
pub fn hash_string(value: &str) -> (hex: String)
    ensures
        hex@ == sha256_hex_digest(encode_utf8(value@)),
{
    sha256_hex(value.as_bytes())
}

/// The fingerprint of a workspace: the hash of the path of its root.
pub fn fingerprint_workspace(path: &str) -> (fingerprint: String)
    ensures
        fingerprint@ == sha256_hex_digest(encode_utf8(path@)),
{
    hash_string(path)
}

/// What the identity of a chunk is the hash of: the path, a colon, the first
/// and the last line with a hyphen between them, a colon, and the hash of
/// the text.
pub open spec fn chunk_id_input(path: Seq<char>, start_line: nat, end_line: nat, text_hash: Seq<char>) -> Seq<char> {
    path + seq![':'] + decimal(start_line) + seq!['-'] + decimal(end_line) + seq![':'] + text_hash
}

/// The identity of a chunk: the same for the same text at the same place of
/// the same file.
pub fn chunk_id(path: &str, start_line: usize, end_line: usize, text_hash: &str) -> (id: String)
    ensures
        id@ == sha256_hex_digest(
            encode_utf8(chunk_id_input(path@, start_line as nat, end_line as nat, text_hash@)),
        ),
{
    let mut input = String::from_str(path);
    input.push(':');
    push_decimal(&mut input, start_line as u128);
    input.push('-');
    push_decimal(&mut input, end_line as u128);
    input.push(':');
    input.append(text_hash);
    assert(input@ == chunk_id_input(path@, start_line as nat, end_line as nat, text_hash@)) by {
        assert(path@.push(':') == path@ + seq![':']);
        assert((path@ + seq![':'] + decimal(start_line as nat)).push('-') == path@ + seq![':']
            + decimal(start_line as nat) + seq!['-']);
        assert((path@ + seq![':'] + decimal(start_line as nat) + seq!['-'] + decimal(
            end_line as nat,
        )).push(':') == path@ + seq![':'] + decimal(start_line as nat) + seq!['-'] + decimal(
            end_line as nat,
        ) + seq![':']);
    }
    hash_string(input.as_str())
}

} // verus!
