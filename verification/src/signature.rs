//! Checking the Ed25519 signature of a snapshot.
//!
//! The key and the signature arrive as base64 text. Both are decoded and
//! checked for form before the signature is verified over the message, so
//! that each way of failing has its own error.

use vstd::prelude::*;
use crate::canonical::{canonical_bytes, canonical_snapshot_bytes};
use crate::record::SnapshotMetadata;

verus! {

/// Length in bytes of an Ed25519 public key.
pub const PUBLIC_KEY_LENGTH: usize = 32;

/// Length in bytes of an Ed25519 signature.
pub const SIGNATURE_LENGTH: usize = 64;

/// Why a signature check did not succeed.
#[derive(Debug, Clone, Copy, PartialEq, Eq, Structural)]
pub enum VerifyError {
    /// The key text is not base64, or does not decode to a public key.
    KeyDecode,
    /// The signature text is not base64, or does not decode to a signature.
    SignatureDecode,
    /// Key and signature are well formed, and the signature does not match
    /// the message.
    SignatureInvalid,
}

impl VerifyError {
    /// The reason in words.
    pub open spec fn reason_text(self) -> Seq<char> {
        match self {
            VerifyError::KeyDecode => "public key could not be decoded"@,
            VerifyError::SignatureDecode => "signature could not be decoded"@,
            VerifyError::SignatureInvalid => "signature verification failed"@,
        }
    }

    /// The reason in words, for a report.
    pub fn reason(&self) -> (text: &'static str)
        ensures
            text@ == self.reason_text(),
    {
        match self {
            VerifyError::KeyDecode => "public key could not be decoded",
            VerifyError::SignatureDecode => "signature could not be decoded",
            VerifyError::SignatureInvalid => "signature verification failed",
        }
    }
}

/// Where the key of a signature check came from.
#[derive(Debug, Clone, Copy, PartialEq, Eq, Structural)]
pub enum KeySource {
    /// The caller supplied the key: the check shows that the holder of that
    /// key signed the record.
    Pinned,
    /// The key was read from the record itself: the check shows only that
    /// the record is consistent with the key it names.
    Embedded,
}

/// The error of the base64 crate's decoder, carried from the decoder to
/// where it is mapped to [`VerifyError`]; nothing is read from it.
#[verifier::external_type_specification]
#[verifier::external_body]
pub struct ExDecodeError(base64::DecodeError);

/// What the standard base64 alphabet with mandatory padding decodes `text`
/// to, or `None` where `text` is not such an encoding.
pub uninterp spec fn base64_decoding(text: Seq<char>) -> Option<Seq<u8>>;

/// Whether 32 bytes are the compressed form of a point of the Ed25519 curve.
pub uninterp spec fn ed25519_point_decompresses(key: Seq<u8>) -> bool;

/// Whether `signature` is a valid Ed25519 signature of `message` under the
/// public key `key`, both given as their bytes.
pub uninterp spec fn ed25519_verifies(key: Seq<u8>, message: Seq<u8>, signature: Seq<u8>) -> bool;

/// Bytes that can be read as an Ed25519 public key.
pub open spec fn public_key_well_formed(key: Seq<u8>) -> bool {
    key.len() == PUBLIC_KEY_LENGTH && ed25519_point_decompresses(key)
}

/// Bytes that can be read as an Ed25519 signature: of the right length, and
/// with the three highest bits of the last byte clear.
pub open spec fn signature_well_formed(signature: Seq<u8>) -> bool {
    signature.len() == SIGNATURE_LENGTH && signature[SIGNATURE_LENGTH - 1] & 0xe0 == 0
}

/// The text of the key that a check uses: the pinned one if there is one,
/// else the one embedded in the record.
pub open spec fn effective_key(embedded: Seq<char>, pinned: Option<Seq<char>>) -> Seq<char> {
    match pinned {
        Some(key) => key,
        None => embedded,
    }
}

/// The text of an optional string slice.
pub open spec fn text_of(s: Option<&str>) -> Option<Seq<char>> {
    match s {
        Some(t) => Some(t@),
        None => None,
    }
}

/// The views of optional bytes.
pub open spec fn bytes_of(b: Option<Vec<u8>>) -> Option<Seq<u8>> {
    match b {
        Some(v) => Some(v@),
        None => None,
    }
}

/// The public key that decoded text stands for.
pub open spec fn public_key_from(decoded: Option<Seq<u8>>) -> Result<Seq<u8>, VerifyError> {
    match decoded {
        Some(key) if public_key_well_formed(key) => Ok(key),
        _ => Err(VerifyError::KeyDecode),
    }
}

/// The signature that decoded text stands for.
pub open spec fn signature_from(decoded: Option<Seq<u8>>) -> Result<Seq<u8>, VerifyError> {
    match decoded {
        Some(signature) if signature_well_formed(signature) => Ok(signature),
        _ => Err(VerifyError::SignatureDecode),
    }
}

/// The outcome of checking the signature `signature_text` of `message`
/// under the key `key_text`: the key is examined first, then the signature,
/// then the match between them.
pub open spec fn signature_check(
    key_text: Seq<char>,
    signature_text: Seq<char>,
    message: Seq<u8>,
) -> Result<(), VerifyError> {
    match public_key_from(base64_decoding(key_text)) {
        Err(e) => Err(e),
        Ok(key) => match signature_from(base64_decoding(signature_text)) {
            Err(e) => Err(e),
            Ok(signature) => if ed25519_verifies(key, message, signature) {
                Ok(())
            } else {
                Err(VerifyError::SignatureInvalid)
            },
        },
    }
}

/// A check succeeds exactly when the key text decodes to a well-formed key,
/// the signature text decodes to a well-formed signature, and the signature
/// is valid for the message under the key.
pub proof fn law_accepted_iff_genuine(
    key_text: Seq<char>,
    signature_text: Seq<char>,
    message: Seq<u8>,
)
    ensures
        signature_check(key_text, signature_text, message) is Ok <==> {
            &&& base64_decoding(key_text) matches Some(key)
            &&& public_key_well_formed(key)
            &&& base64_decoding(signature_text) matches Some(signature)
            &&& signature_well_formed(signature)
            &&& ed25519_verifies(key, message, signature)
        },
{
}

/// A signature made over a message by the holder of the key is accepted for
/// that message.
pub proof fn law_genuine_signature_accepted(
    key_text: Seq<char>,
    signature_text: Seq<char>,
    message: Seq<u8>,
    key: Seq<u8>,
    signature: Seq<u8>,
)
    requires
        base64_decoding(key_text) == Some(key),
        public_key_well_formed(key),
        base64_decoding(signature_text) == Some(signature),
        signature_well_formed(signature),
        ed25519_verifies(key, message, signature),
    ensures
        signature_check(key_text, signature_text, message) == Ok::<(), VerifyError>(()),
{
}

/// A well-formed signature under a well-formed key that is not valid for
/// the message at hand is rejected as invalid, whatever message it was made
/// for.
pub proof fn law_mismatch_rejected(
    key_text: Seq<char>,
    signature_text: Seq<char>,
    message: Seq<u8>,
    key: Seq<u8>,
    signature: Seq<u8>,
)
    requires
        base64_decoding(key_text) == Some(key),
        public_key_well_formed(key),
        base64_decoding(signature_text) == Some(signature),
        signature_well_formed(signature),
        !ed25519_verifies(key, message, signature),
    ensures
        signature_check(key_text, signature_text, message) == Err::<(), VerifyError>(
            VerifyError::SignatureInvalid,
        ),
{
}

/// Decoded bytes of any length but 32 are no public key.
pub proof fn law_wrong_key_length_rejected(decoded: Seq<u8>)
    requires
        decoded.len() != PUBLIC_KEY_LENGTH,
    ensures
        public_key_from(Some(decoded)) == Err::<Seq<u8>, VerifyError>(VerifyError::KeyDecode),
{
}

/// Decoded bytes of any length but 64 are no signature.
pub proof fn law_wrong_signature_length_rejected(decoded: Seq<u8>)
    requires
        decoded.len() != SIGNATURE_LENGTH,
    ensures
        signature_from(Some(decoded)) == Err::<Seq<u8>, VerifyError>(
            VerifyError::SignatureDecode,
        ),
{
}

/// Calls `decode` of the base64 crate's `STANDARD` engine: the standard
/// alphabet, padding required. What it returns is a function of the text
/// alone, named [`base64_decoding`]; an error stands for `None`.
#[verifier::external_body]
fn base64_standard_decode(text: &str) -> (res: Result<Vec<u8>, base64::DecodeError>)
    ensures
        match res {
            Ok(bytes) => base64_decoding(text@) == Some(bytes@),
            Err(_) => base64_decoding(text@) is None,
        },
{
    base64::Engine::decode(&base64::engine::general_purpose::STANDARD, text)
}

/// Calls `PublicKey::from_bytes` of ed25519-dalek, which accepts exactly the
/// slices of 32 bytes that decompress to a curve point.
#[verifier::external_body]
fn public_key_accepted(key: &[u8]) -> (accepted: bool)
    ensures
        accepted == (key@.len() == PUBLIC_KEY_LENGTH && ed25519_point_decompresses(key@)),
{
    ed25519_dalek::PublicKey::from_bytes(key).is_ok()
}

/// Calls `Signature::from_bytes` of ed25519-dalek, which accepts exactly the
/// slices of 64 bytes whose last byte has its three highest bits clear.
#[verifier::external_body]
fn signature_accepted(signature: &[u8]) -> (accepted: bool)
    ensures
        accepted == signature_well_formed(signature@),
{
    ed25519_dalek::Signature::from_bytes(signature).is_ok()
}

/// Calls `verify` of ed25519-dalek's `PublicKey` on the key and the
/// signature that the bytes stand for. Whether it succeeds is a function of
/// the three byte strings alone, named [`ed25519_verifies`].
#[verifier::external_body]
fn ed25519_verify(key: &[u8], message: &[u8], signature: &[u8]) -> (verified: bool)
    requires
        public_key_well_formed(key@),
        signature_well_formed(signature@),
    ensures
        verified == ed25519_verifies(key@, message@, signature@),
{
    match (
        ed25519_dalek::PublicKey::from_bytes(key),
        ed25519_dalek::Signature::from_bytes(signature),
    ) {
        (Ok(k), Ok(s)) => ed25519_dalek::Verifier::verify(&k, message, &s).is_ok(),
        _ => false,
    }
}

/// Picks the key text for a check, and says where it came from.
pub fn resolve_key<'a>(snap: &'a SnapshotMetadata, pinned: Option<&'a str>) -> (res: (
    &'a str,
    KeySource,
))
    ensures
        res.0@ == effective_key(snap@.signer_pub, text_of(pinned)),
        res.1 == if pinned is Some {
            KeySource::Pinned
        } else {
            KeySource::Embedded
        },
{
    match pinned {
        Some(key) => (key, KeySource::Pinned),
        None => (snap.signer_pub.as_str(), KeySource::Embedded),
    }
}

/// Decodes standard, padded base64 text.
pub fn decode_base64(text: &str) -> (decoded: Option<Vec<u8>>)
    ensures
        bytes_of(decoded) == base64_decoding(text@),
{
    match base64_standard_decode(text) {
        Ok(bytes) => Some(bytes),
        Err(_) => None,
    }
}

/// Accepts decoded bytes as a public key, or says why not.
pub fn accept_public_key(decoded: Option<Vec<u8>>) -> (res: Result<Vec<u8>, VerifyError>)
    ensures
        match public_key_from(bytes_of(decoded)) {
            Ok(key) => res matches Ok(k) && k@ == key,
            Err(e) => res == Err::<Vec<u8>, VerifyError>(e),
        },
{
    match decoded {
        Some(key) => {
            if key.len() == PUBLIC_KEY_LENGTH && public_key_accepted(key.as_slice()) {
                Ok(key)
            } else {
                Err(VerifyError::KeyDecode)
            }
        },
        None => Err(VerifyError::KeyDecode),
    }
}

/// Accepts decoded bytes as a signature, or says why not.
pub fn accept_signature(decoded: Option<Vec<u8>>) -> (res: Result<Vec<u8>, VerifyError>)
    ensures
        match signature_from(bytes_of(decoded)) {
            Ok(signature) => res matches Ok(s) && s@ == signature,
            Err(e) => res == Err::<Vec<u8>, VerifyError>(e),
        },
{
    match decoded {
        Some(signature) => {
            if signature.len() == SIGNATURE_LENGTH && signature_accepted(signature.as_slice()) {
                Ok(signature)
            } else {
                Err(VerifyError::SignatureDecode)
            }
        },
        None => Err(VerifyError::SignatureDecode),
    }
}

/// The verdict on a signature whose key and signature were well formed.
pub fn verdict(verified: bool) -> (res: Result<(), VerifyError>)
    ensures
        res == if verified {
            Ok::<(), VerifyError>(())
        } else {
            Err::<(), VerifyError>(VerifyError::SignatureInvalid)
        },
{
    if verified {
        Ok(())
    } else {
        Err(VerifyError::SignatureInvalid)
    }
}

/// Checks the base64 signature `signature_text` of `message` under the
/// base64 public key `key_text`.
pub fn check_signature(key_text: &str, signature_text: &str, message: &[u8]) -> (res: Result<
    (),
    VerifyError,
>)
    ensures
        res == signature_check(key_text@, signature_text@, message@),
{
    let key = match accept_public_key(decode_base64(key_text)) {
        Ok(key) => key,
        Err(e) => {
            return Err(e);
        },
    };
    let signature = match accept_signature(decode_base64(signature_text)) {
        Ok(signature) => signature,
        Err(e) => {
            return Err(e);
        },
    };
    verdict(ed25519_verify(key.as_slice(), message, signature.as_slice()))
}

/// Checks the signature of `snap` over its canonical bytes, under the pinned
/// key if one is given and else under the key that the record names.
pub fn verify_signature(snap: &SnapshotMetadata, pinned: Option<&str>) -> (res: Result<
    (),
    VerifyError,
>)
    ensures
        res == signature_check(
            effective_key(snap@.signer_pub, text_of(pinned)),
            snap@.signature,
            canonical_bytes(snap@),
        ),
{
    let (key_text, _) = resolve_key(snap, pinned);
    let message = canonical_snapshot_bytes(snap);
    check_signature(key_text, snap.signature.as_str(), message.as_slice())
}

} // verus!
