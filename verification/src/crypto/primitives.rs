//! The cryptographic calls this library makes: authenticated encryption with
//! ChaCha20-Poly1305, password hashing with Argon2, Base64 text for salts, and
//! the operating system's random number generator.

use chacha20poly1305::aead::{Aead, KeyInit};
use vstd::prelude::*;

verus! {

/// The error of the `aead` traits that `chacha20poly1305` implements.
#[verifier::external_type_specification]
#[verifier::external_body]
pub struct ExAeadError(chacha20poly1305::Error);

/// The error of the `password-hash` traits that `argon2` implements.
#[verifier::external_type_specification]
#[verifier::external_body]
pub struct ExPasswordHashError(argon2::password_hash::Error);

/// What `ChaCha20Poly1305::encrypt` returns for a key, a nonce and a message:
/// the ciphertext followed by the 16-byte tag.
pub uninterp spec fn aead_seal(key: Seq<u8>, nonce: Seq<u8>, msg: Seq<u8>) -> Seq<u8>;

/// What `ChaCha20Poly1305::decrypt` returns for a key, a nonce and a ciphertext:
/// the message when the tag authenticates it, `None` when it does not.
pub uninterp spec fn aead_open(key: Seq<u8>, nonce: Seq<u8>, ct: Seq<u8>) -> Option<Seq<u8>>;

/// The hash output that `Argon2::default().hash_password` computes for a password and
/// a salt given in B64 text.
pub uninterp spec fn argon2_phc_hash(password: Seq<u8>, salt_b64: Seq<char>) -> Seq<u8>;

/// The character of the standard Base64 alphabet for a six-bit value.
pub open spec fn b64_char(v: int) -> char {
    if v < 26 {
        (('A' as int) + v) as char
    } else if v < 52 {
        (('a' as int) + v - 26) as char
    } else if v < 62 {
        (('0' as int) + v - 52) as char
    } else if v == 62 {
        '+'
    } else {
        '/'
    }
}

/// Standard Base64 (RFC 4648 alphabet) of `b`, without `=` padding.
pub open spec fn b64_no_pad(b: Seq<u8>) -> Seq<char>
    decreases b.len(),
{
    if b.len() == 0 {
        Seq::empty()
    } else {
        let b0 = b[0] as int;
        let b1 = if b.len() > 1 { b[1] as int } else { 0 };
        let b2 = if b.len() > 2 { b[2] as int } else { 0 };
        if b.len() == 1 {
            seq![b64_char(b0 / 4), b64_char((b0 % 4) * 16)]
        } else if b.len() == 2 {
            seq![b64_char(b0 / 4), b64_char((b0 % 4) * 16 + b1 / 16), b64_char((b1 % 16) * 4)]
        } else {
            seq![
                b64_char(b0 / 4),
                b64_char((b0 % 4) * 16 + b1 / 16),
                b64_char((b1 % 16) * 4 + b2 / 64),
                b64_char(b2 % 64),
            ] + b64_no_pad(b.skip(3))
        }
    }
}

/// Longest message that ChaCha20-Poly1305 handles without running out of
/// keystream: block 0 keys Poly1305, which leaves `u32::MAX - 1` blocks of 64 bytes.
pub const MAX_AEAD_MESSAGE: u64 = 0x3F_FFFF_FF80;

/// `ChaCha20Poly1305::new(key).encrypt(nonce, msg)`.
///
/// Claimed: on messages within the keystream (longer ones make the cipher
/// panic, or fail) it succeeds with `aead_seal` of the three arguments, which is
/// 16 bytes longer than the message and which `aead_open` with the same key and
/// nonce turns back into the message.
#[verifier::external_body]
pub(crate) fn chacha_seal(key: &[u8; 32], nonce: &[u8], msg: &[u8]) -> (res: Result<
    Vec<u8>,
    chacha20poly1305::Error,
>)
    requires
        nonce@.len() == 12,
        msg@.len() <= MAX_AEAD_MESSAGE,
    ensures
        res is Ok,
        res matches Ok(ct) ==> ct@ == aead_seal(key@, nonce@, msg@),
        res matches Ok(ct) ==> ct@.len() == msg@.len() + 16,
        res matches Ok(ct) ==> aead_open(key@, nonce@, ct@) == Some(msg@),
{
    let cipher = chacha20poly1305::ChaCha20Poly1305::new(key.into());
    cipher.encrypt(chacha20poly1305::Nonce::from_slice(nonce), msg)
}

/// `ChaCha20Poly1305::new(key).decrypt(nonce, ct)`.
///
/// Claimed: on ciphertexts of at most a full-length message and its tag (a
/// longer one that authenticates makes the cipher panic) it succeeds exactly when
/// `aead_open` of the three arguments is a message, and then returns that message.
#[verifier::external_body]
pub(crate) fn chacha_open(key: &[u8; 32], nonce: &[u8], ct: &[u8]) -> (res: Result<
    Vec<u8>,
    chacha20poly1305::Error,
>)
    requires
        nonce@.len() == 12,
        ct@.len() <= MAX_AEAD_MESSAGE + 16,
    ensures
        res is Ok <==> aead_open(key@, nonce@, ct@) is Some,
        res matches Ok(m) ==> aead_open(key@, nonce@, ct@) == Some(m@),
{
    let cipher = chacha20poly1305::ChaCha20Poly1305::new(key.into());
    cipher.decrypt(chacha20poly1305::Nonce::from_slice(nonce), ct)
}

/// `base64::engine::general_purpose::STANDARD_NO_PAD.encode(bytes)`.
///
/// Claimed: the text is the standard Base64 of the bytes without padding.
#[verifier::external_body]
pub(crate) fn b64_encode_no_pad(bytes: &[u8]) -> (res: String)
    ensures
        res@ == b64_no_pad(bytes@),
{
    base64::Engine::encode(&base64::engine::general_purpose::STANDARD_NO_PAD, bytes)
}

/// `SaltString::from_b64(salt_b64)` followed by `Argon2::default().hash_password`,
/// giving the `hash` field of the resulting `PasswordHash`.
///
/// Claimed: a hash that comes back is `argon2_phc_hash` of the password bytes and
/// the salt text, 32 bytes long (the default output length). The call succeeds
/// with a hash when the salt text is the unpadded Base64 of 8 to 48 bytes and the
/// password holds at most `u32::MAX` bytes: `from_b64` then accepts the text (4 to
/// 64 characters of `[A-Za-z0-9+/]`), it decodes back to at least the minimum salt
/// length, and `hash_password` always fills `hash`. Nothing is stated of which
/// error comes back otherwise.
#[verifier::external_body]
pub(crate) fn argon2_hash(password: &[u8], salt_b64: &str) -> (res: Result<
    Option<Vec<u8>>,
    argon2::password_hash::Error,
>)
    ensures
        res matches Ok(Some(h)) ==> h@ == argon2_phc_hash(password@, salt_b64@),
        res matches Ok(Some(h)) ==> h@.len() == 32,
        forall|raw: Seq<u8>|
            8 <= raw.len() <= 48 && salt_b64@ == #[trigger] b64_no_pad(raw) && password@.len()
                <= 0xFFFF_FFFF ==> res matches Ok(Some(_)),
{
    let salt = argon2::password_hash::SaltString::from_b64(salt_b64)?;
    let hash = argon2::PasswordHasher::hash_password(&argon2::Argon2::default(), password, &salt)?;
    match hash.hash {
        Some(out) => Ok(Some(out.as_bytes().to_vec())),
        None => Ok(None),
    }
}

/// `rand::rngs::OsRng.fill_bytes` on a fresh buffer of `N` bytes.
///
/// Nothing is claimed of the bytes: they come from the operating system.
#[verifier::external_body]
pub(crate) fn os_random_bytes<const N: usize>() -> (res: [u8; N]) {
    let mut buf = [0u8; N];
    rand::RngCore::fill_bytes(&mut rand::rngs::OsRng, &mut buf);
    buf
}

} // verus!
