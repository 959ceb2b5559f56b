//! The unlocked key material: the master key, the seed derived from it, and
//! the axis arrangement that the seed selects.

use vstd::prelude::*;

use crate::crypto::permutation::{
    build_permutation, is_axis_permutation, permutation_of, permute_axes, permuted,
    unpermute_axes, unpermuted, DIM,
};
use crate::text::string_from_chars;

verus! {

/// Little-endian value of the eight bytes of `k` that start at `8 * w`.
pub open spec fn le_word(k: Seq<u8>, w: int) -> u64 {
    (k[8 * w] as u64) | ((k[8 * w + 1] as u64) << 8u64) | ((k[8 * w + 2] as u64) << 16u64) | ((k[8
        * w + 3] as u64) << 24u64) | ((k[8 * w + 4] as u64) << 32u64) | ((k[8 * w + 5] as u64)
        << 40u64) | ((k[8 * w + 6] as u64) << 48u64) | ((k[8 * w + 7] as u64) << 56u64)
}

/// The seed of a 32-byte master key: the exclusive or of its four
/// little-endian 64-bit words.
pub open spec fn seed_of(k: Seq<u8>) -> u64 {
    ((((0u64 ^ le_word(k, 0)) ^ le_word(k, 1)) ^ le_word(k, 2)) ^ le_word(k, 3))
}

/// The seed of a master key.
pub fn seed_from_master_key(key: &[u8; 32]) -> (seed: u64)
    ensures
        seed == seed_of(key@),
{
    let mut seed: u64 = 0;
    let mut w: usize = 0;
    while w < 4
        invariant
            w <= 4,
            seed == (if w == 0 {
                0u64
            } else if w == 1 {
                0u64 ^ le_word(key@, 0)
            } else if w == 2 {
                (0u64 ^ le_word(key@, 0)) ^ le_word(key@, 1)
            } else if w == 3 {
                ((0u64 ^ le_word(key@, 0)) ^ le_word(key@, 1)) ^ le_word(key@, 2)
            } else {
                seed_of(key@)
            }),
        decreases 4 - w,
    {
        let b = 8 * w;
        let word: u64 = (key[b] as u64) | ((key[b + 1] as u64) << 8u64) | ((key[b + 2] as u64)
            << 16u64) | ((key[b + 3] as u64) << 24u64) | ((key[b + 4] as u64) << 32u64) | ((key[b
            + 5] as u64) << 40u64) | ((key[b + 6] as u64) << 48u64) | ((key[b + 7] as u64) << 56u64);
        assert(word == le_word(key@, w as int));
        seed = seed ^ word;
        w += 1;
    }
    seed
}

/// Lowercase hexadecimal digit of a value below 16.
pub open spec fn hex_digit(v: int) -> char {
    if v < 10 {
        (('0' as int) + v) as char
    } else {
        (('a' as int) + v - 10) as char
    }
}

/// Two lowercase hexadecimal digits per byte, most significant first.
pub open spec fn hex_lower(b: Seq<u8>) -> Seq<char>
    decreases b.len(),
{
    if b.len() == 0 {
        Seq::empty()
    } else {
        seq![hex_digit(b[0] as int / 16), hex_digit(b[0] as int % 16)] + hex_lower(b.skip(1))
    }
}

proof fn lemma_hex_lower_len(b: Seq<u8>)
    ensures
        hex_lower(b).len() == 2 * b.len(),
    decreases b.len(),
{
    if b.len() > 0 {
        lemma_hex_lower_len(b.skip(1));
    }
}

proof fn lemma_hex_lower_index(b: Seq<u8>, i: int)
    requires
        0 <= i < b.len(),
    ensures
        hex_lower(b)[2 * i] == hex_digit(b[i] as int / 16),
        hex_lower(b)[2 * i + 1] == hex_digit(b[i] as int % 16),
    decreases b.len(),
{
    lemma_hex_lower_len(b.skip(1));
    if i > 0 {
        lemma_hex_lower_index(b.skip(1), i - 1);
    }
}

proof fn lemma_hex_digit_injective(x: int, y: int)
    requires
        0 <= x < 16,
        0 <= y < 16,
        hex_digit(x) == hex_digit(y),
    ensures
        x == y,
{
}

/// Two byte strings with the same hexadecimal text are equal: the database
/// key determines the master key.
pub proof fn lemma_hex_lower_injective(a: Seq<u8>, b: Seq<u8>)
    requires
        hex_lower(a) == hex_lower(b),
    ensures
        a == b,
{
    lemma_hex_lower_len(a);
    lemma_hex_lower_len(b);
    assert forall|i: int| 0 <= i < a.len() implies a[i] == b[i] by {
        lemma_hex_lower_index(a, i);
        lemma_hex_lower_index(b, i);
        lemma_hex_digit_injective(a[i] as int / 16, b[i] as int / 16);
        lemma_hex_digit_injective(a[i] as int % 16, b[i] as int % 16);
    }
    assert(a =~= b);
}

pub(crate) fn hex_digit_exec(v: u8) -> (c: char)
    requires
        v < 16,
    ensures
        c == hex_digit(v as int),
{
    if v < 10 {
        ((48u8 + v) as char)
    } else {
        ((87u8 + v) as char)
    }
}

/// The key material that unlocking yields.
pub struct CryptoKeys {
    pub master_key: [u8; 32],
    pub seed: u64,
    pub permutation: [u16; 384],
}

impl CryptoKeys {
    /// The seed and the arrangement are those of the master key.
    pub open spec fn wf(&self) -> bool {
        &&& self.seed == seed_of(self.master_key@)
        &&& self.permutation@ == permutation_of(self.seed)
    }

    /// Derives the seed and the axis arrangement of a master key.
    pub fn from_master_key(master_key: [u8; 32]) -> (res: Self)
        ensures
            res.wf(),
            res.master_key == master_key,
    {
        let seed = seed_from_master_key(&master_key);
        let permutation = build_permutation(seed);
        CryptoKeys { master_key, seed, permutation }
    }
}

/// The seed of the unlocked master key.
pub fn get_seed(keys: &CryptoKeys) -> (seed: u64)
    requires
        keys.wf(),
    ensures
        seed == seed_of(keys.master_key@),
{
    keys.seed
}

/// The database key: the master key in lowercase hexadecimal, 64 characters.
pub fn get_db_key(keys: &CryptoKeys) -> (res: String)
    ensures
        res@ == hex_lower(keys.master_key@),
        res@.len() == 64,
{
    let mut chars: Vec<char> = Vec::new();
    let mut i: usize = 0;
    while i < 32
        invariant
            i <= 32,
            keys.master_key@.len() == 32,
            chars@ == hex_lower(keys.master_key@.take(i as int)),
        decreases 32 - i,
    {
        let b = keys.master_key[i];
        proof {
            let t = keys.master_key@.take(i as int + 1);
            lemma_hex_split(t);
            assert(t.take(i as int) =~= keys.master_key@.take(i as int));
            assert(t.skip(i as int) =~= seq![b]);
        }
        chars.push(hex_digit_exec(b / 16));
        chars.push(hex_digit_exec(b % 16));
        proof {
            let t = keys.master_key@.take(i as int + 1);
            assert(hex_lower(seq![b]) =~= seq![hex_digit(b as int / 16), hex_digit(b as int % 16)]) by {
                assert(seq![b].skip(1) =~= Seq::<u8>::empty());
                assert(hex_lower(Seq::<u8>::empty()) =~= Seq::<char>::empty());
            }
            assert(chars@ =~= hex_lower(t));
        }
        i += 1;
    }
    assert(keys.master_key@.take(32) =~= keys.master_key@);
    proof {
        lemma_hex_lower_len(keys.master_key@);
    }
    string_from_chars(chars.as_slice())
}

proof fn lemma_hex_split(t: Seq<u8>)
    requires
        t.len() > 0,
    ensures
        hex_lower(t) == hex_lower(t.take(t.len() - 1)) + hex_lower(t.skip(t.len() - 1)),
    decreases t.len(),
{
    if t.len() == 1 {
        assert(t.take(0) =~= Seq::<u8>::empty());
        assert(t.skip(0) =~= t);
    } else {
        let r = t.skip(1);
        lemma_hex_split(r);
        assert(r.take(r.len() - 1) =~= t.take(t.len() - 1).skip(1));
        assert(r.skip(r.len() - 1) =~= t.skip(t.len() - 1));
        assert(t.take(t.len() - 1)[0] == t[0]);
        assert(hex_lower(t) =~= hex_lower(t.take(t.len() - 1)) + hex_lower(t.skip(t.len() - 1)));
    }
}

/// Moves axis `i` of `v_std` to the axis the arrangement assigns it; the
/// result has 384 axes.
pub fn permute<T: Copy>(keys: &CryptoKeys, v_std: &[T]) -> (res: Vec<T>)
    requires
        keys.wf(),
        v_std@.len() >= DIM,
    ensures
        res@ == permuted(keys.permutation@, v_std@),
        res@.len() == DIM,
        forall|i: int| 0 <= i < DIM ==> res@[keys.permutation@[i] as int] == v_std@[i],
{
    proof {
        crate::crypto::permutation::lemma_permutation_of_is_permutation(keys.seed);
        assert forall|i: int| 0 <= i < DIM implies permuted(keys.permutation@, v_std@)[keys.permutation@[i] as int] == v_std@[i] by {
            crate::crypto::permutation::lemma_permuted_index(keys.permutation@, v_std@, i);
        }
    }
    permute_axes(&keys.permutation, v_std)
}

/// Undoes [`permute`]: axis `i` of the result is the axis that the arrangement
/// assigned to `i`; the result has 384 axes.
pub fn unpermute<T: Copy>(keys: &CryptoKeys, v_local: &[T]) -> (res: Vec<T>)
    requires
        keys.wf(),
        v_local@.len() >= DIM,
    ensures
        res@ == unpermuted(keys.permutation@, v_local@),
        res@.len() == DIM,
        forall|i: int| 0 <= i < DIM ==> res@[i] == v_local@[keys.permutation@[i] as int],
{
    proof {
        crate::crypto::permutation::lemma_permutation_of_is_permutation(keys.seed);
    }
    unpermute_axes(&keys.permutation, v_local)
}

/// With the keys of one master key, `unpermute` undoes `permute` and
/// `permute` undoes `unpermute`, on the first 384 axes.
pub proof fn lemma_permute_roundtrip<T>(keys: CryptoKeys, v: Seq<T>)
    requires
        keys.wf(),
        v.len() >= DIM,
    ensures
        unpermuted(keys.permutation@, permuted(keys.permutation@, v)) == v.take(DIM as int),
        permuted(keys.permutation@, unpermuted(keys.permutation@, v)) == v.take(DIM as int),
{
    crate::crypto::permutation::lemma_permutation_of_is_permutation(keys.seed);
    crate::crypto::permutation::lemma_unpermute_permute(keys.permutation@, v);
    crate::crypto::permutation::lemma_permute_unpermute(keys.permutation@, v);
}

} // verus!

verus! {

/// Permuting two vectors with the keys of one master key keeps their pairs of
/// values axis by axis, so their dot product and distances are unchanged up to
/// the order of summation.
pub proof fn lemma_permute_keeps_pairs<A, B>(keys: CryptoKeys, a: Seq<A>, b: Seq<B>, x: (A, B))
    requires
        keys.wf(),
        a.len() >= DIM,
        b.len() >= DIM,
    ensures
        crate::crypto::permutation::axes_with_pair(
            permuted(keys.permutation@, a),
            permuted(keys.permutation@, b),
            x,
        ).len() == crate::crypto::permutation::axes_with_pair(a, b, x).len(),
{
    crate::crypto::permutation::lemma_permutation_of_is_permutation(keys.seed);
    crate::crypto::permutation::lemma_permute_keeps_pairs(keys.permutation@, a, b, x);
}

} // verus!

verus! {

/// Whether `c` is a lowercase hexadecimal digit.
pub open spec fn is_lower_hex_digit(c: char) -> bool {
    ('0' <= c <= '9') || ('a' <= c <= 'f')
}

/// The value of a lowercase hexadecimal digit.
pub open spec fn lower_hex_value(c: char) -> int {
    if '0' <= c <= '9' {
        c as int - '0' as int
    } else {
        c as int - 'a' as int + 10
    }
}

proof fn lemma_hex_digit_value(v: int)
    requires
        0 <= v < 16,
    ensures
        is_lower_hex_digit(hex_digit(v)),
        lower_hex_value(hex_digit(v)) == v,
{
}

/// The database key spells the master key in lowercase hexadecimal: two
/// digits per byte, most significant first, and nothing else.
pub proof fn lemma_db_key_spells_master_key(b: Seq<u8>)
    ensures
        hex_lower(b).len() == 2 * b.len(),
        forall|j: int| 0 <= j < hex_lower(b).len() ==> is_lower_hex_digit(#[trigger] hex_lower(b)[j]),
        forall|i: int|
            0 <= i < b.len() ==> 16 * lower_hex_value(#[trigger] hex_lower(b)[2 * i]) + lower_hex_value(
                hex_lower(b)[2 * i + 1],
            ) == b[i],
{
    lemma_hex_lower_len(b);
    assert forall|i: int| 0 <= i < b.len() implies 16 * lower_hex_value(#[trigger] hex_lower(b)[2 * i])
        + lower_hex_value(hex_lower(b)[2 * i + 1]) == b[i] by {
        lemma_hex_lower_index(b, i);
        lemma_hex_digit_value(b[i] as int / 16);
        lemma_hex_digit_value(b[i] as int % 16);
    }
    assert forall|j: int| 0 <= j < hex_lower(b).len() implies is_lower_hex_digit(#[trigger] hex_lower(b)[j]) by {
        let i = j / 2;
        lemma_hex_lower_index(b, i);
        lemma_hex_digit_value(b[i] as int / 16);
        lemma_hex_digit_value(b[i] as int % 16);
    }
}

/// The number that lowercase hexadecimal digits spell, most significant first.
pub open spec fn hex_digits_value(s: Seq<char>) -> int
    decreases s.len(),
{
    if s.len() == 0 {
        0
    } else {
        16 * hex_digits_value(s.drop_last()) + lower_hex_value(s.last())
    }
}

} // verus!

verus! {

/// The number that eight bytes of `k` from `8 * w` spell, least significant first.
pub open spec fn le_value(k: Seq<u8>, w: int) -> int {
    k[8 * w] + 0x100 * k[8 * w + 1] + 0x1_0000 * k[8 * w + 2] + 0x100_0000 * k[8 * w + 3]
        + 0x1_0000_0000 * k[8 * w + 4] + 0x100_0000_0000 * k[8 * w + 5] + 0x1_0000_0000_0000 * k[8
        * w + 6] + 0x100_0000_0000_0000 * k[8 * w + 7]
}

/// Each word of the master key is read little-endian, and the seed is the
/// exclusive or of the key's four words.
pub proof fn lemma_seed_reads_little_endian_words(k: Seq<u8>)
    requires
        k.len() == 32,
    ensures
        forall|w: int| 0 <= w < 4 ==> #[trigger] le_word(k, w) == le_value(k, w),
        seed_of(k) == le_word(k, 0) ^ le_word(k, 1) ^ le_word(k, 2) ^ le_word(k, 3),
{
    assert forall|w: int| 0 <= w < 4 implies #[trigger] le_word(k, w) == le_value(k, w) by {
        let b0 = k[8 * w];
        let b1 = k[8 * w + 1];
        let b2 = k[8 * w + 2];
        let b3 = k[8 * w + 3];
        let b4 = k[8 * w + 4];
        let b5 = k[8 * w + 5];
        let b6 = k[8 * w + 6];
        let b7 = k[8 * w + 7];
        assert((b0 as u64) | ((b1 as u64) << 8u64) | ((b2 as u64) << 16u64) | ((b3 as u64) << 24u64)
            | ((b4 as u64) << 32u64) | ((b5 as u64) << 40u64) | ((b6 as u64) << 48u64) | ((b7 as u64)
            << 56u64) == b0 + 0x100 * b1 + 0x1_0000 * b2 + 0x100_0000 * b3 + 0x1_0000_0000 * b4
            + 0x100_0000_0000 * b5 + 0x1_0000_0000_0000 * b6 + 0x100_0000_0000_0000 * b7)
            by (bit_vector);
    }
    let w0 = le_word(k, 0);
    assert(0u64 ^ w0 == w0) by (bit_vector);
}

} // verus!
