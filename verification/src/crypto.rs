//! Ed25519 signatures, base64 text, fresh keys and the clock.

use base64::engine::general_purpose::STANDARD;
use base64::Engine;
use ed25519_dalek::{Signature, Signer, SigningKey, Verifier, VerifyingKey};
use rand::rngs::OsRng;
use rand::RngCore;
use vstd::prelude::*;

verus! {

/// The Ed25519 signature of `message` under the secret key `secret`.
pub uninterp spec fn ed25519_signature(secret: Seq<u8>, message: Seq<u8>) -> Seq<u8>;

/// The Ed25519 public key that belongs to the secret key `secret`.
pub uninterp spec fn ed25519_public(secret: Seq<u8>) -> Seq<u8>;

/// Whether `signature` is accepted for `message` under the public key `public`.
pub uninterp spec fn ed25519_accepts(public: Seq<u8>, message: Seq<u8>, signature: Seq<u8>) -> bool;

/// Whether `public` is the encoding of an Ed25519 public key.
pub uninterp spec fn ed25519_is_key(public: Seq<u8>) -> bool;

/// The standard base64 text, with padding, of `bytes`.
pub uninterp spec fn base64_text(bytes: Seq<u8>) -> Seq<char>;

/// The bytes that a standard base64 text decodes to, where it is well formed.
pub uninterp spec fn base64_bytes(text: Seq<char>) -> Option<Seq<u8>>;

/// The RFC 3339 text, in UTC, of the moment `seconds` and `nanos` after the
/// Unix epoch, where there is such a date.
pub uninterp spec fn rfc3339_text(seconds: int, nanos: int) -> Option<Seq<char>>;

/// Whether `text` is the RFC 3339 text of some moment.
pub open spec fn is_timestamp(text: Seq<char>) -> bool {
    exists|seconds: int, nanos: int| rfc3339_text(seconds, nanos) == Some(text)
}

/// Calls `SigningKey::from_bytes` and `Signer::sign` of `ed25519_dalek`. The
/// contract claims that the signature is a function of key and message (Ed25519
/// signs deterministically), that it has 64 bytes, and that verification under
/// the key's own public key accepts it.
#[verifier::external_body]
pub(crate) fn ed25519_sign(secret: &[u8; 32], message: &Vec<u8>) -> (signature: Vec<u8>)
    ensures
        signature@ == ed25519_signature(secret@, message@),
        signature@.len() == 64,
        ed25519_accepts(ed25519_public(secret@), message@, signature@),
{
    SigningKey::from_bytes(secret).sign(message).to_bytes().to_vec()
}

/// Calls `SigningKey::verifying_key` of `ed25519_dalek` and gives the key's bytes.
#[verifier::external_body]
pub(crate) fn ed25519_public_key(secret: &[u8; 32]) -> (public: [u8; 32])
    ensures
        public@ == ed25519_public(secret@),
{
    SigningKey::from_bytes(secret).verifying_key().to_bytes()
}

/// Calls `VerifyingKey::from_bytes` and `Verifier::verify` of `ed25519_dalek`.
/// Bytes that are no public key accept nothing.
#[verifier::external_body]
pub(crate) fn ed25519_verify(public: &[u8; 32], message: &Vec<u8>, signature: &Vec<u8>) -> (ok:
    bool)
    requires
        signature@.len() == 64,
    ensures
        ok == ed25519_accepts(public@, message@, signature@),
{
    match (VerifyingKey::from_bytes(public), Signature::from_slice(signature)) {
        (Ok(key), Ok(sig)) => key.verify(message, &sig).is_ok(),
        _ => false,
    }
}

/// Calls `VerifyingKey::from_bytes` of `ed25519_dalek` and says whether it
/// took the bytes for a key.
#[verifier::external_body]
pub(crate) fn ed25519_key_usable(public: &[u8; 32]) -> (ok: bool)
    ensures
        ok == ed25519_is_key(public@),
{
    VerifyingKey::from_bytes(public).is_ok()
}

/// Calls `Engine::encode` of `base64` on the standard engine. The contract
/// claims that the text is a function of the bytes and decodes back to them.
#[verifier::external_body]
pub(crate) fn base64_encode(bytes: &Vec<u8>) -> (text: String)
    ensures
        text@ == base64_text(bytes@),
        base64_bytes(text@) == Some(bytes@),
{
    STANDARD.encode(bytes)
}

/// Calls `Engine::decode` of `base64` on the standard engine; `None` where the
/// text is not well formed.
#[verifier::external_body]
pub(crate) fn base64_decode(text: &String) -> (bytes: Option<Vec<u8>>)
    ensures
        match bytes {
            Some(b) => base64_bytes(text@) == Some(b@),
            None => base64_bytes(text@).is_none(),
        },
{
    STANDARD.decode(text).ok()
}

/// Asks the operating system for 32 random bytes through `OsRng::try_fill_bytes`
/// of `rand`; `None` where it has none to give. Nothing is claimed of the bytes.
#[verifier::external_body]
pub(crate) fn random_secret() -> Option<[u8; 32]> {
    let mut secret = [0u8; 32];
    OsRng.try_fill_bytes(&mut secret).ok().map(|_| secret)
}

/// Reads the system clock through `SystemTime::elapsed` of std on the Unix
/// epoch: the whole seconds and the nanoseconds since then, or `None` where
/// the clock reads before the epoch. Nothing is claimed of the numbers.
#[verifier::external_body]
pub(crate) fn clock_reading() -> Option<(u64, u32)> {
    match std::time::UNIX_EPOCH.elapsed() {
        Ok(elapsed) => Some((elapsed.as_secs(), elapsed.subsec_nanos())),
        Err(_) => None,
    }
}

/// Calls `DateTime::from_timestamp` and `DateTime::to_rfc3339` of `chrono`:
/// the RFC 3339 text of a moment in UTC, or `None` where `chrono` has no date
/// for it. The contract claims that the text is a function of the two numbers.
#[verifier::external_body]
pub(crate) fn rfc3339_of(seconds: i64, nanos: u32) -> (text: Option<String>)
    ensures
        match text {
            Some(t) => rfc3339_text(seconds as int, nanos as int) == Some(t@),
            None => rfc3339_text(seconds as int, nanos as int).is_none(),
        },
{
    match chrono::DateTime::from_timestamp(seconds, nanos) {
        Some(moment) => Some(moment.to_rfc3339()),
        None => None,
    }
}

/// The RFC 3339 text of the moment `seconds` and `nanos` after the Unix epoch,
/// or `None` where the seconds are beyond what a signed 64-bit number holds or
/// there is no such date.
pub fn timestamp_of(seconds: u64, nanos: u32) -> (text: Option<String>)
    ensures
        match text {
            Some(t) => seconds <= 0x7fff_ffff_ffff_ffff && rfc3339_text(
                seconds as int,
                nanos as int,
            ) == Some(t@),
            None => seconds > 0x7fff_ffff_ffff_ffff || rfc3339_text(
                seconds as int,
                nanos as int,
            ).is_none(),
        },
{
    if seconds > 0x7fff_ffff_ffff_ffff {
        return None;
    }
    rfc3339_of(seconds as i64, nanos)
}

/// The present moment as RFC 3339 text: what `timestamp_of` gives for the
/// reading of the system clock, or `None` where the clock reads before the
/// Unix epoch.
pub fn timestamp_now() -> (text: Option<String>)
    ensures
        text matches Some(t) ==> is_timestamp(t@),
{
    match clock_reading() {
        Some((seconds, nanos)) => timestamp_of(seconds, nanos),
        None => None,
    }
}

/// The public key that a base64 text holds: the bytes that the text decodes
/// to, where they are 32 and encode a key.
pub open spec fn key_of_text(text: Seq<char>) -> Option<Seq<u8>> {
    match base64_bytes(text) {
        Some(bytes) => if bytes.len() == 32 && ed25519_is_key(bytes) {
            Some(bytes)
        } else {
            None
        },
        None => None,
    }
}

/// Reads a public key from its base64 text.
pub fn public_key_from_text(text: &str) -> (key: Option<[u8; 32]>)
    ensures
        match key {
            Some(k) => key_of_text(text@) == Some(k@),
            None => key_of_text(text@).is_none(),
        },
{
    let bytes = match base64_decode(&text.to_string()) {
        Some(bytes) => bytes,
        None => {
            return None;
        },
    };
    if bytes.len() != 32 {
        return None;
    }
    let mut key: [u8; 32] = [0u8; 32];
    let mut i: usize = 0;
    while i < 32
        invariant
            i <= 32,
            bytes@.len() == 32,
            forall|j: int| 0 <= j < i ==> key@[j] == bytes@[j],
        decreases 32 - i,
    {
        key.set(i, bytes[i]);
        i = i + 1;
    }
    proof {
        assert(key@ =~= bytes@);
    }
    if ed25519_key_usable(&key) {
        Some(key)
    } else {
        None
    }
}

/// The public key that verifies what `secret` signs.
pub fn public_key_of(secret: &[u8; 32]) -> (public: [u8; 32])
    ensures
        public@ == ed25519_public(secret@),
{
    ed25519_public_key(secret)
}

} // verus!
