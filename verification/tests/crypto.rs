use core_lib::crypto::blob::{
    check_salt, create_master_key, decrypt_blob, decrypt_master_key, derive_key, encrypt_blob,
    encrypt_master_key, machine_bound_secret, unlock_master_key,
};
use core_lib::crypto::keys::{get_db_key, get_seed, permute, seed_from_master_key, unpermute, CryptoKeys};
use core_lib::crypto::permutation::build_permutation;

fn sample_key() -> [u8; 32] {
    let mut k = [0u8; 32];
    for i in 0..32 {
        k[i] = ((7 * i + 3) % 256) as u8;
    }
    k
}

#[test]
fn permutation_of_seed_zero_has_known_prefix() {
    let p = build_permutation(0);
    assert_eq!(&p[..8], &[170, 7, 203, 353, 286, 330, 313, 47]);
    assert_eq!(&p[380..], &[25, 3, 249, 191]);
}

#[test]
fn permutation_of_other_seed_has_known_prefix() {
    let p = build_permutation(0x0123456789abcdef);
    assert_eq!(&p[..8], &[177, 339, 18, 292, 153, 284, 218, 205]);
}

#[test]
fn permutation_holds_every_axis_once() {
    for seed in [0u64, 1, 42, u64::MAX, 0xdead_beef] {
        let mut p = build_permutation(seed).to_vec();
        p.sort();
        let expected: Vec<u16> = (0..384).collect();
        assert_eq!(p, expected);
    }
}

#[test]
fn permutation_is_deterministic_and_seed_dependent() {
    assert_eq!(build_permutation(7), build_permutation(7));
    assert_ne!(build_permutation(7), build_permutation(8));
}

#[test]
fn seed_is_xor_of_little_endian_words() {
    assert_eq!(seed_from_master_key(&sample_key()), 0x20002000006080e0);
    let mut counting = [0u8; 32];
    for i in 0..32 {
        counting[i] = i as u8;
    }
    assert_eq!(seed_from_master_key(&counting), 0);
    let mut one = [0u8; 32];
    one[0] = 1;
    one[15] = 0x80;
    assert_eq!(seed_from_master_key(&one), 1 ^ 0x8000_0000_0000_0000);
}

#[test]
fn keys_hold_seed_and_permutation_of_master_key() {
    let keys = CryptoKeys::from_master_key(sample_key());
    assert_eq!(get_seed(&keys), 0x20002000006080e0);
    assert_eq!(keys.permutation, build_permutation(0x20002000006080e0));
}

#[test]
fn db_key_is_lowercase_hex() {
    let keys = CryptoKeys::from_master_key(sample_key());
    assert_eq!(
        get_db_key(&keys),
        "030a11181f262d343b424950575e656c737a81888f969da4abb2b9c0c7ced5dc"
    );
}

#[test]
fn permute_then_unpermute_gives_back_the_vector() {
    let keys = CryptoKeys::from_master_key(sample_key());
    let v: Vec<f32> = (0..384).map(|i| i as f32 * 0.5 - 3.0).collect();
    let p = permute(&keys, &v);
    assert_eq!(p.len(), 384);
    assert_ne!(p, v);
    for i in 0..384 {
        assert_eq!(p[keys.permutation[i] as usize], v[i]);
    }
    assert_eq!(unpermute(&keys, &p), v);
    assert_eq!(permute(&keys, &unpermute(&keys, &v)), v);
}

#[test]
fn permute_uses_only_the_first_384_axes() {
    let keys = CryptoKeys::from_master_key(sample_key());
    let v: Vec<u32> = (0..400).collect();
    let p = permute(&keys, &v);
    assert_eq!(p.len(), 384);
    assert_eq!(unpermute(&keys, &p), v[..384].to_vec());
}

#[test]
fn blob_roundtrip() {
    let keys = CryptoKeys::from_master_key(sample_key());
    let data = b"some clipboard text".to_vec();
    let blob = encrypt_blob(&keys, &data);
    assert_eq!(blob.len(), 12 + data.len() + 16);
    assert_ne!(&blob[12..12 + data.len()], &data[..]);
    assert_eq!(decrypt_blob(&keys, &blob), Ok(data));
}

#[test]
fn blob_nonces_differ() {
    let keys = CryptoKeys::from_master_key(sample_key());
    let a = encrypt_blob(&keys, b"same");
    let b = encrypt_blob(&keys, b"same");
    assert_ne!(a, b);
}

#[test]
fn empty_blob_roundtrip() {
    let keys = CryptoKeys::from_master_key(sample_key());
    let blob = encrypt_blob(&keys, &[]);
    assert_eq!(blob.len(), 28);
    assert_eq!(decrypt_blob(&keys, &blob), Ok(vec![]));
}

#[test]
fn short_blob_is_refused() {
    let keys = CryptoKeys::from_master_key(sample_key());
    assert_eq!(
        decrypt_blob(&keys, &[1, 2, 3]),
        Err("Блоб слишком короткий".to_string())
    );
}

#[test]
fn tampered_blob_is_refused() {
    let keys = CryptoKeys::from_master_key(sample_key());
    let mut blob = encrypt_blob(&keys, b"payload");
    let last = blob.len() - 1;
    blob[last] ^= 1;
    assert_eq!(
        decrypt_blob(&keys, &blob),
        Err("Неверный ключ или повреждён файл".to_string())
    );
}

#[test]
fn blob_under_other_key_is_refused() {
    let keys = CryptoKeys::from_master_key(sample_key());
    let other = CryptoKeys::from_master_key([9u8; 32]);
    let blob = encrypt_blob(&keys, b"payload");
    assert!(decrypt_blob(&other, &blob).is_err());
}

#[test]
fn master_key_seal_roundtrip() {
    let master = sample_key();
    let derived = [5u8; 32];
    let blob = encrypt_master_key(&master, &derived);
    assert_eq!(blob.len(), 12 + 32 + 16);
    assert_eq!(decrypt_master_key(&blob, &derived), Some(master));
    assert_eq!(decrypt_master_key(&blob, &[6u8; 32]), None);
    assert_eq!(decrypt_master_key(&blob[..5], &derived), None);
}

#[test]
fn sealed_blob_of_wrong_length_is_no_master_key() {
    let keys = CryptoKeys::from_master_key([5u8; 32]);
    let blob = encrypt_blob(&keys, &[1u8; 16]);
    assert_eq!(decrypt_master_key(&blob, &[5u8; 32]), None);
}

const MACHINE: &[u8] = b"machine-id:4f2a91c0";
const OTHER_MACHINE: &[u8] = b"machine-id:77d0e3b5";

#[test]
fn machine_secret_prefixes_descriptor_length() {
    let s = machine_bound_secret(b"hw", "pw");
    assert_eq!(s, vec![2, 0, 0, 0, 0, 0, 0, 0, b'h', b'w', b'p', b'w']);
    let t = machine_bound_secret(b"h", "wpw");
    assert_ne!(s, t);
    assert_eq!(machine_bound_secret(b"", "").len(), 8);
}

#[test]
fn derived_key_depends_on_password_machine_and_salt() {
    let salt = sample_key();
    let a = derive_key("correct horse", MACHINE, &salt);
    assert_eq!(a, derive_key("correct horse", MACHINE, &salt));
    assert_ne!(a, derive_key("battery staple", MACHINE, &salt));
    assert_ne!(a, derive_key("correct horse", OTHER_MACHINE, &salt));
    assert_ne!(a, derive_key("correct horse", MACHINE, &[1u8; 32]));
    assert_ne!(a, salt);
}

#[test]
fn created_master_key_unlocks_with_its_password_on_its_machine() {
    let made = create_master_key("hunter2", MACHINE);
    assert_eq!(made.blob.len(), 60);
    assert_eq!(
        unlock_master_key("hunter2", MACHINE, &made.salt, &made.blob),
        Ok(made.master_key)
    );
}

#[test]
fn wrong_password_is_refused() {
    let made = create_master_key("hunter2", MACHINE);
    assert_eq!(
        unlock_master_key("hunter3", MACHINE, &made.salt, &made.blob),
        Err("Неверный пароль".to_string())
    );
}

#[test]
fn key_files_moved_to_another_machine_do_not_open() {
    let made = create_master_key("hunter2", MACHINE);
    assert_eq!(
        unlock_master_key("hunter2", OTHER_MACHINE, &made.salt, &made.blob),
        Err("Неверный пароль".to_string())
    );
}

#[test]
fn salt_of_wrong_size_is_refused() {
    assert_eq!(check_salt(&[0u8; 31]), Err("Неверный размер соли".to_string()));
    assert_eq!(check_salt(&[0u8; 33]), Err("Неверный размер соли".to_string()));
    assert_eq!(check_salt(&[7u8; 32]), Ok([7u8; 32]));
}

#[test]
fn permuting_two_vectors_keeps_their_dot_product() {
    let keys = CryptoKeys::from_master_key(sample_key());
    let a: Vec<i64> = (0..384).map(|i| (i * 7 % 13) as i64 - 6).collect();
    let b: Vec<i64> = (0..384).map(|i| (i * 5 % 11) as i64 - 5).collect();
    let dot = |x: &[i64], y: &[i64]| -> i64 { x.iter().zip(y).map(|(p, q)| p * q).sum() };
    let pa = permute(&keys, &a);
    let pb = permute(&keys, &b);
    assert_eq!(dot(&pa, &pb), dot(&a, &b));
    let mut pairs: Vec<(i64, i64)> = pa.iter().cloned().zip(pb.iter().cloned()).collect();
    let mut orig: Vec<(i64, i64)> = a.iter().cloned().zip(b.iter().cloned()).collect();
    pairs.sort();
    orig.sort();
    assert_eq!(pairs, orig);
}
