//! Sealed blobs: a random 12-byte nonce followed by the ChaCha20-Poly1305
//! ciphertext. The same framing protects the master key on disk (under a key
//! derived with Argon2 from the password and the machine's hardware
//! descriptors) and arbitrary data (under the master
//! key).

use vstd::prelude::*;
use vstd::string::StringExecFns;
use vstd::string::StringSliceAdditionalSpecFns;

use crate::crypto::keys::CryptoKeys;
use crate::crypto::primitives::{
    aead_open, aead_seal, argon2_hash, argon2_phc_hash, b64_encode_no_pad, b64_no_pad,
    chacha_open, chacha_seal, os_random_bytes, MAX_AEAD_MESSAGE,
};

verus! {

/// Length of the nonce that starts every sealed blob.
pub const NONCE_LEN: usize = 12;

/// Length of the master key and of the key derived from the password.
pub const KEY_LEN: usize = 32;

/// The blob that sealing `data` under `key` with nonce `nonce` produces.
pub open spec fn sealed_blob(key: Seq<u8>, nonce: Seq<u8>, data: Seq<u8>) -> Seq<u8> {
    nonce + aead_seal(key, nonce, data)
}

/// Longest blob that can hold a sealed message: the nonce, a message of the
/// cipher's full length and its 16-byte tag.
pub const MAX_BLOB_LEN: u64 = 0x3F_FFFF_FF9C;

/// What opening a blob under `key` yields: `None` when it is shorter than a
/// nonce, longer than any sealed message can be, or when the ciphertext after
/// the nonce does not authenticate.
pub open spec fn opened_blob(key: Seq<u8>, blob: Seq<u8>) -> Option<Seq<u8>> {
    if blob.len() < NONCE_LEN || blob.len() > MAX_BLOB_LEN {
        None
    } else {
        aead_open(key, blob.take(NONCE_LEN as int), blob.skip(NONCE_LEN as int))
    }
}

/// What opening a sealed master key yields: the blob must open and hold 32 bytes.
pub open spec fn opened_master_key(derived: Seq<u8>, blob: Seq<u8>) -> Option<Seq<u8>> {
    match opened_blob(derived, blob) {
        Some(p) => if p.len() == KEY_LEN {
            Some(p)
        } else {
            None
        },
        None => None,
    }
}

/// The eight little-endian bytes of `n` (for `n < 2^64`).
pub open spec fn le_u64_bytes(n: nat, k: nat) -> Seq<u8>
    decreases k,
{
    if k == 0 {
        Seq::empty()
    } else {
        seq![(n % 256) as u8] + le_u64_bytes(n / 256, (k - 1) as nat)
    }
}

/// The secret that binds a password to a machine: the length of the machine's
/// hardware descriptors as eight little-endian bytes, the descriptors, then the
/// password bytes.
pub open spec fn machine_secret(hardware_id: Seq<u8>, password: Seq<u8>) -> Seq<u8> {
    le_u64_bytes(hardware_id.len(), 8) + hardware_id + password
}

/// The key derived from a password, the machine's hardware descriptors and a
/// salt: Argon2 with default parameters over the machine-bound secret, the salt
/// given as unpadded Base64.
pub open spec fn derived_key(password: Seq<u8>, hardware_id: Seq<u8>, salt: Seq<u8>) -> Seq<u8> {
    argon2_phc_hash(machine_secret(hardware_id, password), b64_no_pad(salt))
}

/// `256^k`.
pub open spec fn pow256(k: nat) -> nat
    decreases k,
{
    if k == 0 {
        1
    } else {
        256 * pow256((k - 1) as nat)
    }
}

proof fn lemma_le_bytes_len(n: nat, k: nat)
    ensures
        le_u64_bytes(n, k).len() == k,
    decreases k,
{
    if k > 0 {
        lemma_le_bytes_len(n / 256, (k - 1) as nat);
    }
}

proof fn lemma_le_bytes_injective(n: nat, m: nat, k: nat)
    requires
        n < pow256(k),
        m < pow256(k),
        le_u64_bytes(n, k) == le_u64_bytes(m, k),
    ensures
        n == m,
    decreases k,
{
    if k > 0 {
        let k1 = (k - 1) as nat;
        lemma_le_bytes_len(n / 256, k1);
        lemma_le_bytes_len(m / 256, k1);
        assert(le_u64_bytes(n, k)[0] == (n % 256) as u8);
        assert(le_u64_bytes(m, k)[0] == (m % 256) as u8);
        assert((n % 256) as u8 == (m % 256) as u8);
        assert(n % 256 == m % 256);
        assert(le_u64_bytes(n / 256, k1) =~= le_u64_bytes(n, k).skip(1));
        assert(le_u64_bytes(m / 256, k1) =~= le_u64_bytes(m, k).skip(1));
        assert(n / 256 < pow256(k1)) by (nonlinear_arith)
            requires
                n < 256 * pow256(k1),
        ;
        assert(m / 256 < pow256(k1)) by (nonlinear_arith)
            requires
                m < 256 * pow256(k1),
        ;
        lemma_le_bytes_injective(n / 256, m / 256, k1);
        assert(n == 256 * (n / 256) + n % 256) by (nonlinear_arith);
        assert(m == 256 * (m / 256) + m % 256) by (nonlinear_arith);
    }
}

/// The machine-bound secret determines both the hardware descriptors and the
/// password: two machines, or two passwords, never feed Argon2 the same input.
pub proof fn lemma_machine_secret_injective(h1: Seq<u8>, p1: Seq<u8>, h2: Seq<u8>, p2: Seq<u8>)
    requires
        h1.len() < pow256(8),
        h2.len() < pow256(8),
        machine_secret(h1, p1) == machine_secret(h2, p2),
    ensures
        h1 == h2,
        p1 == p2,
{
    let s = machine_secret(h1, p1);
    lemma_le_bytes_len(h1.len(), 8);
    lemma_le_bytes_len(h2.len(), 8);
    assert(le_u64_bytes(h1.len(), 8) =~= s.take(8));
    assert(le_u64_bytes(h2.len(), 8) =~= machine_secret(h2, p2).take(8));
    lemma_le_bytes_injective(h1.len(), h2.len(), 8);
    assert(h1 =~= s.subrange(8, 8 + h1.len() as int));
    assert(h2 =~= machine_secret(h2, p2).subrange(8, 8 + h2.len() as int));
    assert(p1 =~= s.skip(8 + h1.len() as int));
    assert(p2 =~= machine_secret(h2, p2).skip(8 + h2.len() as int));
}

/// Text of the error for a blob shorter than its nonce.
pub open spec fn blob_too_short_msg() -> Seq<char> {
    "Блоб слишком короткий"@
}

/// Text of the error for a blob that does not authenticate.
pub open spec fn blob_rejected_msg() -> Seq<char> {
    "Неверный ключ или повреждён файл"@
}

/// Text of the error for a stored salt that is not 32 bytes long.
pub open spec fn bad_salt_msg() -> Seq<char> {
    "Неверный размер соли"@
}

/// Text of the error for a password that does not open the stored key.
pub open spec fn wrong_password_msg() -> Seq<char> {
    "Неверный пароль"@
}

fn concat_bytes(a: &[u8], b: &[u8]) -> (res: Vec<u8>)
    ensures
        res@ == a@ + b@,
{
    let mut out: Vec<u8> = Vec::new();
    let mut i: usize = 0;
    while i < a.len()
        invariant
            i <= a@.len(),
            out@ == a@.take(i as int),
        decreases a@.len() - i,
    {
        out.push(a[i]);
        i += 1;
        assert(out@ =~= a@.take(i as int));
    }
    let mut k: usize = 0;
    while k < b.len()
        invariant
            k <= b@.len(),
            i == a@.len(),
            out@ == a@ + b@.take(k as int),
        decreases b@.len() - k,
    {
        out.push(b[k]);
        k += 1;
        assert(out@ =~= a@ + b@.take(k as int));
    }
    assert(a@.take(a@.len() as int) =~= a@);
    assert(b@.take(b@.len() as int) =~= b@);
    out
}

proof fn lemma_sealed_blob_opens(key: Seq<u8>, nonce: Seq<u8>, data: Seq<u8>)
    requires
        nonce.len() == NONCE_LEN,
        aead_open(key, nonce, aead_seal(key, nonce, data)) == Some(data),
        aead_seal(key, nonce, data).len() == data.len() + 16,
        data.len() <= MAX_AEAD_MESSAGE,
    ensures
        opened_blob(key, sealed_blob(key, nonce, data)) == Some(data),
{
    let blob = sealed_blob(key, nonce, data);
    assert(blob.take(NONCE_LEN as int) =~= nonce);
    assert(blob.skip(NONCE_LEN as int) =~= aead_seal(key, nonce, data));
}

/// Seals `data` under `key` with a fresh random nonce.
fn seal_with_random_nonce(key: &[u8; 32], data: &[u8]) -> (res: Vec<u8>)
    requires
        data@.len() <= MAX_AEAD_MESSAGE,
    ensures
        res@.len() == NONCE_LEN + data@.len() + 16,
        res@ == sealed_blob(key@, res@.take(NONCE_LEN as int), data@),
        opened_blob(key@, res@) == Some(data@),
{
    let nonce: [u8; 12] = os_random_bytes();
    let sealed = chacha_seal(key, nonce.as_slice(), data);
    match sealed {
        Ok(ct) => {
            let out = concat_bytes(nonce.as_slice(), ct.as_slice());
            proof {
                assert(out@.take(NONCE_LEN as int) =~= nonce@);
                lemma_sealed_blob_opens(key@, nonce@, data@);
            }
            out
        },
        Err(_) => {
            proof {
                assert(false);
            }
            Vec::new()
        },
    }
}

/// Opens a blob under `key`: `None` when it is shorter than a nonce, longer
/// than a sealed message can be, or does not authenticate.
fn open_blob(key: &[u8; 32], blob: &[u8]) -> (res: Option<Vec<u8>>)
    ensures
        match res {
            Some(p) => opened_blob(key@, blob@) == Some(p@),
            None => opened_blob(key@, blob@) is None,
        },
{
    if blob.len() < NONCE_LEN || blob.len() as u64 > MAX_BLOB_LEN {
        return None;
    }
    let nonce = vstd::slice::slice_subrange(blob, 0, NONCE_LEN);
    let ct = vstd::slice::slice_subrange(blob, NONCE_LEN, blob.len());
    assert(nonce@ =~= blob@.take(NONCE_LEN as int));
    assert(ct@ =~= blob@.skip(NONCE_LEN as int));
    match chacha_open(key, nonce, ct) {
        Ok(p) => Some(p),
        Err(_) => None,
    }
}

/// Seals `data` under the master key; the result starts with the random nonce.
/// Opening it with [`decrypt_blob`] under the same keys gives back `data`.
pub fn encrypt_blob(keys: &CryptoKeys, data: &[u8]) -> (res: Vec<u8>)
    requires
        data@.len() <= MAX_AEAD_MESSAGE,
    ensures
        res@.len() == NONCE_LEN + data@.len() + 16,
        res@ == sealed_blob(keys.master_key@, res@.take(NONCE_LEN as int), data@),
        opened_blob(keys.master_key@, res@) == Some(data@),
{
    seal_with_random_nonce(&keys.master_key, data)
}

/// Opens a blob that [`encrypt_blob`] produced. A blob shorter than the nonce
/// is refused with one message; one that does not authenticate under the master
/// key, or is longer than any sealed message, with another.
pub fn decrypt_blob(keys: &CryptoKeys, data: &[u8]) -> (res: Result<Vec<u8>, String>)
    ensures
        data@.len() < NONCE_LEN ==> (res matches Err(e) && e@ == blob_too_short_msg()),
        data@.len() >= NONCE_LEN ==> match opened_blob(keys.master_key@, data@) {
            Some(p) => res matches Ok(q) && q@ == p,
            None => res matches Err(e) && e@ == blob_rejected_msg(),
        },
{
    if data.len() < NONCE_LEN {
        return Err(String::from_str("Блоб слишком короткий"));
    }
    match open_blob(&keys.master_key, data) {
        Some(p) => Ok(p),
        None => Err(String::from_str("Неверный ключ или повреждён файл")),
    }
}

/// Seals a master key under the key derived from the password.
pub fn encrypt_master_key(master_key: &[u8; 32], derived_key: &[u8; 32]) -> (res: Vec<u8>)
    ensures
        res@.len() == NONCE_LEN + KEY_LEN + 16,
        res@ == sealed_blob(derived_key@, res@.take(NONCE_LEN as int), master_key@),
        opened_master_key(derived_key@, res@) == Some(master_key@),
{
    seal_with_random_nonce(derived_key, master_key.as_slice())
}

/// Opens a sealed master key: `None` unless the blob authenticates under the
/// derived key and holds exactly 32 bytes.
pub fn decrypt_master_key(blob: &[u8], derived_key: &[u8; 32]) -> (res: Option<[u8; 32]>)
    ensures
        match res {
            Some(k) => opened_master_key(derived_key@, blob@) == Some(k@),
            None => opened_master_key(derived_key@, blob@) is None,
        },
{
    if blob.len() < NONCE_LEN {
        return None;
    }
    let plaintext = match open_blob(derived_key, blob) {
        Some(p) => p,
        None => return None,
    };
    if plaintext.len() != KEY_LEN {
        return None;
    }
    let mut key = [0u8; 32];
    let mut i: usize = 0;
    while i < KEY_LEN
        invariant
            i <= KEY_LEN,
            plaintext@.len() == KEY_LEN,
            forall|m: int| 0 <= m < i ==> key@[m] == plaintext@[m],
        decreases KEY_LEN - i,
    {
        key[i] = plaintext[i];
        i += 1;
    }
    assert(key@ =~= plaintext@);
    Some(key)
}

/// Builds the machine-bound secret of a password.
pub fn machine_bound_secret(hardware_id: &[u8], password: &str) -> (res: Vec<u8>)
    ensures
        res@ == machine_secret(hardware_id@, password.spec_bytes()),
{
    let mut out: Vec<u8> = Vec::new();
    let mut n: u64 = hardware_id.len() as u64;
    let mut k: usize = 0;
    while k < 8
        invariant
            k <= 8,
            out@ + le_u64_bytes(n as nat, (8 - k) as nat) == le_u64_bytes(hardware_id@.len(), 8),
        decreases 8 - k,
    {
        let ghost rest = le_u64_bytes(n as nat, (8 - k) as nat);
        assert(rest == seq![(n as nat % 256) as u8] + le_u64_bytes(n as nat / 256, (8 - k - 1) as nat));
        out.push((n % 256) as u8);
        n = n / 256;
        k += 1;
        assert(out@ + le_u64_bytes(n as nat, (8 - k) as nat) =~= le_u64_bytes(hardware_id@.len(), 8));
    }
    assert(le_u64_bytes(n as nat, 0) =~= Seq::<u8>::empty());
    assert(out@ =~= le_u64_bytes(hardware_id@.len(), 8));
    out.extend_from_slice(hardware_id);
    let pw = password.as_bytes();
    out.extend_from_slice(pw);
    assert(out@ =~= machine_secret(hardware_id@, password.spec_bytes()));
    out
}

/// Derives the 32-byte key that seals the master key from a password, the
/// machine's hardware descriptors and a salt.
pub fn derive_key(password: &str, hardware_id: &[u8], salt_bytes: &[u8; 32]) -> (res: [u8; 32])
    requires
        8 + hardware_id@.len() + password.spec_bytes().len() <= 0xFFFF_FFFF,
    ensures
        res@ == derived_key(password.spec_bytes(), hardware_id@, salt_bytes@),
{
    let secret = machine_bound_secret(hardware_id, password);
    proof {
        lemma_le_bytes_len(hardware_id@.len(), 8);
    }
    let salt_b64 = b64_encode_no_pad(salt_bytes.as_slice());
    let hashed = argon2_hash(secret.as_slice(), salt_b64.as_str());
    match hashed {
        Ok(Some(h)) => {
            let mut out = [0u8; 32];
            let mut i: usize = 0;
            while i < KEY_LEN
                invariant
                    i <= KEY_LEN,
                    h@.len() == KEY_LEN,
                    forall|m: int| 0 <= m < i ==> out@[m] == h@[m],
                decreases KEY_LEN - i,
            {
                out[i] = h[i];
                i += 1;
            }
            assert(out@ =~= h@);
            out
        },
        _ => {
            proof {
                assert(b64_no_pad(salt_bytes@) == salt_b64@);
                assert(false);
            }
            [0u8; 32]
        },
    }
}

/// What unlocking a stored salt and sealed key yields under a password on a
/// machine: the master key when the sealed key opens under the derived key,
/// the wrong-password message otherwise.
pub open spec fn unlock_outcome(
    password: Seq<u8>,
    hardware_id: Seq<u8>,
    salt: Seq<u8>,
    blob: Seq<u8>,
) -> Result<Seq<u8>, Seq<char>> {
    match opened_master_key(derived_key(password, hardware_id, salt), blob) {
        Some(k) => Ok(k),
        None => Err(wrong_password_msg()),
    }
}

/// The stored salt as a 32-byte array; a salt of any other size is refused.
pub fn check_salt(salt_bytes: &[u8]) -> (res: Result<[u8; 32], String>)
    ensures
        salt_bytes@.len() != KEY_LEN ==> (res matches Err(e) && e@ == bad_salt_msg()),
        salt_bytes@.len() == KEY_LEN ==> (res matches Ok(s) && s@ == salt_bytes@),
{
    if salt_bytes.len() != KEY_LEN {
        return Err(String::from_str("Неверный размер соли"));
    }
    let mut salt = [0u8; 32];
    let mut i: usize = 0;
    while i < KEY_LEN
        invariant
            i <= KEY_LEN,
            salt_bytes@.len() == KEY_LEN,
            forall|m: int| 0 <= m < i ==> salt@[m] == salt_bytes@[m],
        decreases KEY_LEN - i,
    {
        salt[i] = salt_bytes[i];
        i += 1;
    }
    assert(salt@ =~= salt_bytes@);
    Ok(salt)
}

/// Recovers the master key from the stored salt and sealed key with the
/// password on this machine; a password, or a machine, under which the sealed
/// key does not open is refused.
pub fn unlock_master_key(password: &str, hardware_id: &[u8], salt: &[u8; 32], blob: &[u8]) -> (res:
    Result<[u8; 32], String>)
    requires
        8 + hardware_id@.len() + password.spec_bytes().len() <= 0xFFFF_FFFF,
    ensures
        match unlock_outcome(password.spec_bytes(), hardware_id@, salt@, blob@) {
            Ok(k) => res matches Ok(r) && r@ == k,
            Err(m) => res matches Err(e) && e@ == m,
        },
{
    let derived = derive_key(password, hardware_id, salt);
    match decrypt_master_key(blob, &derived) {
        Some(k) => Ok(k),
        None => Err(String::from_str("Неверный пароль")),
    }
}

/// A freshly made master key with the salt and sealed blob to store for it.
pub struct NewMasterKey {
    pub salt: [u8; 32],
    pub master_key: [u8; 32],
    pub blob: Vec<u8>,
}

/// Makes a random salt and master key and seals the key under the password
/// bound to this machine. Unlocking the stored pair with the same password on
/// the same machine gives back that key.
pub fn create_master_key(password: &str, hardware_id: &[u8]) -> (res: NewMasterKey)
    requires
        8 + hardware_id@.len() + password.spec_bytes().len() <= 0xFFFF_FFFF,
    ensures
        unlock_outcome(password.spec_bytes(), hardware_id@, res.salt@, res.blob@) == Ok::<
            Seq<u8>,
            Seq<char>,
        >(res.master_key@),
        res.blob@.len() == NONCE_LEN + KEY_LEN + 16,
        res.blob@ == sealed_blob(
            derived_key(password.spec_bytes(), hardware_id@, res.salt@),
            res.blob@.take(NONCE_LEN as int),
            res.master_key@,
        ),
{
    let salt: [u8; 32] = os_random_bytes();
    let master_key: [u8; 32] = os_random_bytes();
    let derived = derive_key(password, hardware_id, &salt);
    let blob = encrypt_master_key(&master_key, &derived);
    NewMasterKey { salt, master_key, blob }
}

} // verus!
