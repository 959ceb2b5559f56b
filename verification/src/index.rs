//! Data that the search index stores beside the vectors.

use vstd::prelude::*;

use crate::crypto::keys::{
    hex_digit, hex_digit_exec, hex_digits_value, is_lower_hex_digit, lower_hex_value,
};
use crate::text::string_from_chars;

verus! {

/// The error type of `serde_json`.
#[verifier::external_type_specification]
#[verifier::external_body]
pub struct ExJsonError(serde_json::Error);

/// Decimal digits of `n`, most significant first, without leading zeros.
pub open spec fn decimal(n: nat) -> Seq<char>
    decreases n,
{
    if n < 10 {
        seq![(('0' as int) + n) as char]
    } else {
        decimal(n / 10) + seq![(('0' as int) + (n % 10)) as char]
    }
}

/// The numbers written in decimal and separated by commas.
pub open spec fn comma_separated(ids: Seq<u64>) -> Seq<char>
    decreases ids.len(),
{
    if ids.len() == 0 {
        Seq::empty()
    } else if ids.len() == 1 {
        decimal(ids[0] as nat)
    } else {
        comma_separated(ids.drop_last()) + seq![','] + decimal(ids.last() as nat)
    }
}

/// The compact JSON array of the numbers, such as `[1,22,333]`.
pub open spec fn json_u64_array(ids: Seq<u64>) -> Seq<char> {
    seq!['['] + comma_separated(ids) + seq![']']
}

/// `serde_json::to_string` of a slice of `u64`.
///
/// Claimed: it succeeds, with the compact JSON array of the numbers (serializing
/// integers into a byte vector cannot fail).
#[verifier::external_body]
fn json_of_ids(ids: &[u64]) -> (res: Result<String, serde_json::Error>)
    ensures
        res is Ok,
        res matches Ok(s) ==> s@ == json_u64_array(ids@),
{
    serde_json::to_string(ids)
}

/// The text stored for the rejected ids of a feedback record: their JSON array.
pub fn encode_rejected_ids(rejected_ids: &[u64]) -> (res: String)
    ensures
        res@ == json_u64_array(rejected_ids@),
{
    match json_of_ids(rejected_ids) {
        Ok(s) => s,
        Err(_) => {
            proof {
                assert(false);
            }
            String::new()
        },
    }
}

/// The lowest `k` hexadecimal digits of `n`, lowercase, most significant first.
pub open spec fn hex_fixed(n: nat, k: nat) -> Seq<char>
    decreases k,
{
    if k == 0 {
        Seq::empty()
    } else {
        hex_fixed(n / 16, (k - 1) as nat).push(hex_digit((n % 16) as int))
    }
}

/// The key text that opens the metadata database: the seed as sixteen
/// lowercase hexadecimal digits, zero-padded.
pub fn sqlite_key_text(seed: u64) -> (res: String)
    ensures
        res@ == hex_fixed(seed as nat, 16),
        res@.len() == 16,
{
    let mut out: Vec<char> = Vec::new();
    let mut m: u64 = seed;
    let mut i: usize = 0;
    while i < 16
        invariant
            i <= 16,
            hex_fixed(seed as nat, 16) == hex_fixed(m as nat, (16 - i) as nat) + out@,
            out@.len() == i,
        decreases 16 - i,
    {
        let d = (m % 16) as u8;
        let c = hex_digit_exec(d);
        let ghost rest = out@;
        assert(hex_fixed(m as nat, (16 - i) as nat) == hex_fixed(m as nat / 16, (16 - i - 1) as nat).push(
            hex_digit((m as nat % 16) as int),
        ));
        out.insert(0, c);
        m = m / 16;
        i += 1;
        assert(hex_fixed(seed as nat, 16) =~= hex_fixed(m as nat, (16 - i) as nat) + out@);
    }
    assert(hex_fixed(m as nat, 0) =~= Seq::<char>::empty());
    assert(out@ =~= hex_fixed(seed as nat, 16));
    string_from_chars(out.as_slice())
}

} // verus!

verus! {

/// `16^k`.
pub open spec fn pow16(k: nat) -> nat
    decreases k,
{
    if k == 0 {
        1
    } else {
        16 * pow16((k - 1) as nat)
    }
}

proof fn lemma_hex_fixed_value(n: nat, k: nat)
    ensures
        hex_fixed(n, k).len() == k,
        hex_digits_value(hex_fixed(n, k)) == n % pow16(k),
        forall|j: int| 0 <= j < k ==> is_lower_hex_digit(#[trigger] hex_fixed(n, k)[j]),
    decreases k,
{
    if k > 0 {
        let k1 = (k - 1) as nat;
        lemma_hex_fixed_value(n / 16, k1);
        let h = hex_fixed(n, k);
        assert(h.drop_last() =~= hex_fixed(n / 16, k1));
        assert(is_lower_hex_digit(hex_digit((n % 16) as int)) && lower_hex_value(hex_digit((n % 16) as int))
            == n % 16);
        assert forall|j: int| 0 <= j < k implies is_lower_hex_digit(#[trigger] h[j]) by {
            if j < k1 {
                assert(h[j] == hex_fixed(n / 16, k1)[j]);
            }
        }
        let p = pow16(k1);
        assert(p > 0) by {
            lemma_pow16_pos(k1);
        }
        assert(16 * ((n / 16) % p) + n % 16 == n % (16 * p)) by (nonlinear_arith)
            requires
                p > 0,
        {
            vstd::arithmetic::div_mod::lemma_breakdown(n as int, 16, p as int);
        }
    }
}

proof fn lemma_pow16_pos(k: nat)
    ensures
        pow16(k) > 0,
    decreases k,
{
    if k > 0 {
        lemma_pow16_pos((k - 1) as nat);
    }
}

/// The database key text is sixteen lowercase hexadecimal digits that spell
/// the seed.
pub proof fn lemma_sqlite_key_spells_seed(seed: u64)
    ensures
        hex_fixed(seed as nat, 16).len() == 16,
        forall|j: int| 0 <= j < 16 ==> is_lower_hex_digit(#[trigger] hex_fixed(seed as nat, 16)[j]),
        hex_digits_value(hex_fixed(seed as nat, 16)) == seed,
{
    lemma_hex_fixed_value(seed as nat, 16);
    assert(pow16(16) == 0x1_0000_0000_0000_0000) by {
        reveal_with_fuel(pow16, 17);
    }
}

} // verus!
