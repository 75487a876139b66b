//! Content digests of backups and the sidecar files that record them.
use vstd::prelude::*;

use sha2::Digest;

verus! {

/// The SHA-256 digest of a byte sequence.
pub uninterp spec fn sha256_of(data: Seq<u8>) -> Seq<u8>;

/// Relies on `sha2::Sha256::digest`: the SHA-256 digest of the bytes, which its output
/// type fixes at 32 bytes.
#[verifier::external_body]
fn sha256(data: &[u8]) -> (r: Vec<u8>)
    ensures
        r@ == sha256_of(data@),
        r@.len() == 32,
{
    sha2::Sha256::digest(data).to_vec()
}

/// The upper-case hexadecimal digit of `d`, for `d < 16`.
pub open spec fn hex_digit(d: nat) -> char {
    if d < 10 {
        ('0' as nat + d) as char
    } else {
        ('A' as nat + d - 10) as char
    }
}

/// Two upper-case hexadecimal digits per byte, the high half first.
pub open spec fn hex_upper(bytes: Seq<u8>) -> Seq<char>
    decreases bytes.len(),
{
    if bytes.len() == 0 {
        Seq::empty()
    } else {
        hex_upper(bytes.drop_last()) + seq![
            hex_digit(bytes.last() as nat / 16),
            hex_digit(bytes.last() as nat % 16),
        ]
    }
}

/// Relies on `hex::encode_upper`: two digits of `0123456789ABCDEF` per byte, the high
/// half first.
#[verifier::external_body]
fn encode_upper(bytes: &[u8]) -> (r: String)
    ensures
        r@ == hex_upper(bytes@),
{
    hex::encode_upper(bytes)
}

proof fn lemma_hex_upper_len(bytes: Seq<u8>)
    ensures
        hex_upper(bytes).len() == 2 * bytes.len(),
    decreases bytes.len(),
{
    if bytes.len() > 0 {
        lemma_hex_upper_len(bytes.drop_last());
    }
}

/// The digest of a file's contents as it is recorded: SHA-256 in 64 upper-case
/// hexadecimal digits.
pub fn hash_file(contents: &[u8]) -> (r: String)
    ensures
        r@ == hex_upper(sha256_of(contents@)),
        r@.len() == 64,
{
    let digest = sha256(contents);
    proof {
        lemma_hex_upper_len(digest@);
    }
    encode_upper(digest.as_slice())
}

/// The line of a sidecar digest file: `<hash> *<file name>` and a line break.
pub open spec fn sidecar_content(hash: Seq<char>, file_name: Seq<char>) -> Seq<char> {
    hash + seq![' ', '*'] + file_name + seq!['\n']
}

/// The text of the sidecar digest file of the backup `file_name` with digest `hash`.
pub fn generate_sha256_file_content(hash: &str, file_name: &str) -> (r: String)
    ensures
        r@ == sidecar_content(hash@, file_name@),
{
    proof {
        reveal_strlit(" *");
        reveal_strlit("\n");
    }
    let mut content = String::from_str(hash);
    content.append(" *");
    content.append(file_name);
    content.append("\n");
    assert(content@ =~= sidecar_content(hash@, file_name@));
    content
}

/// The name of the sidecar digest file of a backup: the backup's name and `.sha256`.
pub open spec fn sidecar_name(name: Seq<char>) -> Seq<char> {
    name + seq!['.', 's', 'h', 'a', '2', '5', '6']
}

/// The name (or path) of the sidecar digest file that belongs to `name`.
pub fn sidecar_file_name(name: &str) -> (r: String)
    ensures
        r@ == sidecar_name(name@),
{
    proof {
        reveal_strlit(".sha256");
    }
    let mut sidecar = String::from_str(name);
    sidecar.append(".sha256");
    sidecar
}

/// Why a copy was refused.
#[derive(Debug, Clone, PartialEq, Eq)]
pub enum IntegrityError {
    /// The copy's digest differs from the source's: the copy is corrupt.
    HashMismatch { source_hash: String, target_hash: String },
}

/// Checks a copy against its source. When the digests agree, the result is the
/// sidecar text to write beside the copy; when they differ, no sidecar may be written.
pub fn verify_copy(source_hash: &String, target_hash: &String, target_file_name: &str) -> (r: Result<
    String,
    IntegrityError,
>)
    ensures
        r is Ok <==> source_hash@ == target_hash@,
        r matches Ok(content) ==> content@ == sidecar_content(source_hash@, target_file_name@),
        r matches Err(IntegrityError::HashMismatch { source_hash: s, target_hash: t }) ==> s@
            == source_hash@ && t@ == target_hash@,
{
    if source_hash.eq(target_hash) {
        Ok(generate_sha256_file_content(source_hash.as_str(), target_file_name))
    } else {
        Err(
            IntegrityError::HashMismatch {
                source_hash: source_hash.clone(),
                target_hash: target_hash.clone(),
            },
        )
    }
}

} // verus!
