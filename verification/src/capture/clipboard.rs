//! The text of a clipboard update: UTF-16 units up to the first NUL, within
//! the size of the clipboard's memory block.

use vstd::prelude::*;

use crate::text::{decode_utf16, string_from_utf16, str_trim, trimmed};

verus! {

/// Units of text that a block of `byte_size` bytes can hold, leaving room for
/// the terminating NUL.
pub fn clipboard_char_capacity(byte_size: usize) -> (res: usize)
    ensures
        res == (if byte_size / 2 >= 1 { byte_size / 2 - 1 } else { 0 }),
{
    (byte_size / 2).saturating_sub(1)
}

/// Number of units before the first NUL, or all of them when there is none.
pub open spec fn nul_terminated_len(units: Seq<u16>) -> int {
    if exists|i: int| 0 <= i < units.len() && units[i] == 0 {
        choose|i: int|
            0 <= i < units.len() && units[i] == 0 && forall|k: int| 0 <= k < i ==> units[k] != 0
    } else {
        units.len() as int
    }
}

/// Length of the text in `units`: the position of the first NUL, or the whole
/// slice when there is none.
pub fn text_len_before_nul(units: &[u16]) -> (res: usize)
    ensures
        res <= units@.len(),
        forall|k: int| 0 <= k < res ==> units@[k] != 0,
        res < units@.len() ==> units@[res as int] == 0,
        res == nul_terminated_len(units@),
{
    let mut n: usize = 0;
    while n < units.len() && units[n] != 0
        invariant
            n <= units@.len(),
            forall|k: int| 0 <= k < n ==> units@[k] != 0,
        decreases units@.len() - n,
    {
        n += 1;
    }
    proof {
        if n < units@.len() {
            let w = choose|i: int|
                0 <= i < units@.len() && units@[i] == 0 && forall|k: int| 0 <= k < i ==> units@[k] != 0;
            assert(units@[n as int] == 0);
            if w < n {
                assert(units@[w] != 0);
            } else if w > n {
                assert(units@[n as int] != 0);
            }
        } else {
            if exists|i: int| 0 <= i < units@.len() && units@[i] == 0 {
                let i = choose|i: int| 0 <= i < units@.len() && units@[i] == 0;
                assert(units@[i] != 0);
            }
        }
    }
    n
}

/// The text of a clipboard block: the UTF-16 units before the first NUL,
/// decoded. Nothing comes back when they are not valid UTF-16 or hold only
/// white space.
pub fn clipboard_text(units: &[u16]) -> (res: Option<String>)
    ensures
        match decode_utf16(units@.take(nul_terminated_len(units@))) {
            Some(c) => if trimmed(c).len() > 0 {
                res matches Some(s) && s@ == c
            } else {
                res is None
            },
            None => res is None,
        },
{
    let n = text_len_before_nul(units);
    let prefix = vstd::slice::slice_subrange(units, 0, n);
    assert(prefix@ =~= units@.take(n as int));
    match string_from_utf16(prefix) {
        Some(s) => {
            if str_trim(s.as_str()).is_empty() {
                None
            } else {
                Some(s)
            }
        },
        None => None,
    }
}

} // verus!

verus! {

/// The clipboard text ends at the first NUL: every unit before it is not NUL,
/// and the unit at it, when there is one, is.
pub proof fn lemma_text_ends_at_first_nul(units: Seq<u16>)
    ensures
        0 <= nul_terminated_len(units) <= units.len(),
        forall|k: int| 0 <= k < nul_terminated_len(units) ==> #[trigger] units[k] != 0,
        nul_terminated_len(units) < units.len() ==> units[nul_terminated_len(units)] == 0,
{
    if exists|i: int| 0 <= i < units.len() && units[i] == 0 {
        let w = choose|i: int| 0 <= i < units.len() && units[i] == 0;
        lemma_first_nul_exists(units, w);
    }
}

proof fn lemma_first_nul_exists(units: Seq<u16>, w: int)
    requires
        0 <= w < units.len(),
        units[w] == 0,
    ensures
        exists|i: int| 0 <= i < units.len() && units[i] == 0 && forall|k: int| 0 <= k < i ==> units[k] != 0,
    decreases w,
{
    if exists|k: int| 0 <= k < w && units[k] == 0 {
        let k = choose|k: int| 0 <= k < w && units[k] == 0;
        lemma_first_nul_exists(units, k);
    }
}

} // verus!
