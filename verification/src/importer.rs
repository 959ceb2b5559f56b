//! Bulk import of text files: which files qualify, how their bytes become
//! text, and the overlapping chunks that get embedded.

use vstd::prelude::*;
use vstd::string::StringExecFns;
use vstd::string::StringSliceAdditionalSpecFns;
use vstd::utf8::{decode_utf8, encode_utf8, valid_utf8};

use crate::text::{str_chars, str_trim, string_from_chars, string_from_utf8, trimmed};

verus! {

/// Characters per chunk.
pub const CHUNK_SIZE: usize = 500;

/// Characters from the start of one chunk to the start of the next: chunks
/// overlap by `CHUNK_SIZE - CHUNK_STEP` characters.
pub const CHUNK_STEP: usize = 400;

/// Fewest bytes of trimmed text a chunk must exceed to be embedded.
pub const MIN_CHUNK_BYTES: usize = 50;

/// What `encoding_rs::WINDOWS_1251.decode` makes of a byte string (a byte
/// order mark, when present, selects its own encoding).
pub uninterp spec fn windows_1251_decode(bytes: Seq<u8>) -> Seq<char>;

/// `encoding_rs::WINDOWS_1251.decode(bytes).0.into_owned()`.
///
/// Claimed: the text is `windows_1251_decode` of the bytes.
#[verifier::external_body]
fn decode_windows_1251(bytes: &[u8]) -> (res: String)
    ensures
        res@ == windows_1251_decode(bytes@),
{
    encoding_rs::WINDOWS_1251.decode(bytes).0.into_owned()
}

/// The file extensions that are imported.
pub open spec fn indexable_extension(ext: Seq<char>) -> bool {
    ||| ext == "txt"@
    ||| ext == "md"@
    ||| ext == "rs"@
    ||| ext == "toml"@
    ||| ext == "json"@
    ||| ext == "js"@
    ||| ext == "ts"@
    ||| ext == "py"@
}

fn equals_literal(ext: &str, lit: &str) -> (res: bool)
    ensures
        res == (ext@ == lit@),
{
    ext.to_owned() == lit.to_owned()
}

/// Whether a file with this extension is imported.
pub fn is_indexable_extension(ext: &str) -> (res: bool)
    ensures
        res == indexable_extension(ext@),
{
    equals_literal(ext, "txt") || equals_literal(ext, "md") || equals_literal(ext, "rs")
        || equals_literal(ext, "toml") || equals_literal(ext, "json") || equals_literal(ext, "js")
        || equals_literal(ext, "ts") || equals_literal(ext, "py")
}

/// The text of a file: UTF-8 when the bytes are valid UTF-8; otherwise a
/// `.txt` file is read as Windows-1251 and any other file gives empty text.
pub open spec fn file_text(content: Seq<u8>, is_txt: bool) -> Seq<char> {
    if valid_utf8(content) {
        decode_utf8(content)
    } else if is_txt {
        windows_1251_decode(content)
    } else {
        Seq::empty()
    }
}

/// The text of a file's bytes; `is_txt` tells whether its extension is `txt`.
pub fn decode_file_text(content: Vec<u8>, is_txt: bool) -> (res: String)
    ensures
        res@ == file_text(content@, is_txt),
{
    if is_txt {
        let copy = content.clone();
        match string_from_utf8(copy) {
            Some(s) => s,
            None => decode_windows_1251(content.as_slice()),
        }
    } else {
        match string_from_utf8(content) {
            Some(s) => s,
            None => String::new(),
        }
    }
}

/// Number of chunks of a text of `n` characters: one per start `0, 400, 800, ...`
/// below `n`.
pub open spec fn chunk_count(n: nat) -> nat {
    ((n + CHUNK_STEP - 1) / (CHUNK_STEP as int)) as nat
}

/// First character of chunk `k`.
pub open spec fn chunk_start(k: nat) -> int {
    k * CHUNK_STEP
}

/// One past the last character of chunk `k` of a text of `n` characters.
pub open spec fn chunk_end(k: nat, n: nat) -> int {
    if k * CHUNK_STEP + CHUNK_SIZE <= n {
        k * CHUNK_STEP + CHUNK_SIZE
    } else {
        n as int
    }
}

/// Chunk `k` of `s`, without leading and trailing white space.
pub open spec fn trimmed_chunk(s: Seq<char>, k: nat) -> Seq<char> {
    trimmed(s.subrange(chunk_start(k), chunk_end(k, s.len())))
}

/// Whether a trimmed chunk is long enough to embed: its UTF-8 form holds more
/// than 50 bytes.
pub open spec fn substantial(c: Seq<char>) -> bool {
    encode_utf8(c).len() as usize > MIN_CHUNK_BYTES
}

/// The trimmed chunks among the first `m` of `s` that are long enough, in order.
pub open spec fn kept_chunks(s: Seq<char>, m: nat) -> Seq<Seq<char>>
    decreases m,
{
    if m == 0 {
        Seq::empty()
    } else {
        let rest = kept_chunks(s, (m - 1) as nat);
        let c = trimmed_chunk(s, (m - 1) as nat);
        if substantial(c) {
            rest.push(c)
        } else {
            rest
        }
    }
}

/// The texts, as character sequences.
pub open spec fn texts(v: Seq<String>) -> Seq<Seq<char>> {
    v.map_values(|x: String| x@)
}

/// The chunks of a file's text that get embedded: windows of 500 characters
/// starting every 400 characters, trimmed, kept when they hold more than 50 bytes.
pub fn import_chunks(text: &str) -> (res: Vec<String>)
    ensures
        texts(res@) == kept_chunks(text@, chunk_count(text@.len())),
{
    let chars = str_chars(text);
    let n = chars.len();
    let mut out: Vec<String> = Vec::new();
    let mut i: usize = 0;
    let ghost mut k: nat = 0;
    while i < n
        invariant
            n == chars@.len(),
            chars@ == text@,
            i <= n,
            i < n ==> i == chunk_start(k),
            i == n ==> k == chunk_count(n as nat),
            i < n ==> k < chunk_count(n as nat),
            texts(out@) == kept_chunks(text@, k),
        decreases n - i,
    {
        let end = if n - i > CHUNK_SIZE {
            i + CHUNK_SIZE
        } else {
            n
        };
        assert(end == chunk_end(k, n as nat));
        let piece = vstd::slice::slice_subrange(chars.as_slice(), i, end);
        let chunk = string_from_chars(piece);
        let t = str_trim(chunk.as_str());
        assert(t@ == trimmed_chunk(text@, k));
        let ghost before = out@;
        if t.len() > MIN_CHUNK_BYTES {
            out.push(t.to_owned());
            proof {
                assert(texts(out@) =~= texts(before).push(t@));
            }
        }
        if n - i <= CHUNK_STEP {
            proof {
                assert(chunk_count(n as nat) == k + 1) by (nonlinear_arith)
                    requires
                        i == k * 400,
                        i < n,
                        n - i <= 400,
                        chunk_count(n as nat) == (n + 399) / 400,
                ;
            }
            i = n;
        } else {
            proof {
                assert(k + 1 < chunk_count(n as nat)) by (nonlinear_arith)
                    requires
                        i == k * 400,
                        n - i > 400,
                        chunk_count(n as nat) == (n + 399) / 400,
                ;
            }
            i += CHUNK_STEP;
        }
        proof {
            k = k + 1;
        }
    }
    proof {
        if n == 0 {
            assert(chunk_count(0) == 0);
        }
    }
    out
}

/// Character `j` of a text of `n` characters lies in some chunk.
pub open spec fn covered(n: nat, j: int) -> bool {
    exists|k: nat| k < chunk_count(n) && #[trigger] chunk_start(k) <= j < chunk_end(k, n)
}

/// Each chunk but the last overlaps the next by at most 100 characters, and by
/// exactly 100 when it is a full 500 characters; together the chunks cover every
/// character of the text.
pub proof fn lemma_chunks_cover(n: nat)
    ensures
        forall|k: nat|
            #![trigger chunk_start(k + 1)]
            k + 1 < chunk_count(n) ==> chunk_start(k + 1) < chunk_end(k, n) && chunk_end(k, n)
                - chunk_start(k + 1) <= CHUNK_SIZE - CHUNK_STEP && (chunk_end(k, n) - chunk_start(k)
                == CHUNK_SIZE ==> chunk_end(k, n) - chunk_start(k + 1) == CHUNK_SIZE - CHUNK_STEP),
        forall|j: int| 0 <= j < n ==> #[trigger] covered(n, j),
{
    assert forall|k: nat| #![trigger chunk_start(k + 1)] k + 1 < chunk_count(n) implies chunk_start(k + 1) < chunk_end(k, n) && chunk_end(k, n)
                - chunk_start(k + 1) <= CHUNK_SIZE - CHUNK_STEP && (chunk_end(k, n) - chunk_start(k)
                == CHUNK_SIZE ==> chunk_end(k, n) - chunk_start(k + 1) == CHUNK_SIZE - CHUNK_STEP) by {
        assert(k * 400 + 400 < n) by (nonlinear_arith)
            requires
                k + 1 < (n + 399) / 400,
        ;
        assert((k + 1) * 400 == k * 400 + 400) by (nonlinear_arith);
    }
    assert forall|j: int| 0 <= j < n implies #[trigger] covered(n, j) by {
        let k = (j / 400) as nat;
        assert(k * 400 <= j < k * 400 + 400) by (nonlinear_arith)
            requires
                k == j / 400,
                j >= 0,
        ;
        assert(k < (n + 399) / 400) by (nonlinear_arith)
            requires
                k * 400 <= j,
                j < n,
        ;
        assert(chunk_start(k) <= j < chunk_end(k, n));
    }
}

/// The extensions that are imported, listed.
pub open spec fn imported_extensions() -> Seq<Seq<char>> {
    seq!["txt"@, "md"@, "rs"@, "toml"@, "json"@, "js"@, "ts"@, "py"@]
}

/// An extension is imported exactly when it is one of `txt`, `md`, `rs`,
/// `toml`, `json`, `js`, `ts`, `py`, and no other.
pub proof fn lemma_imported_extensions_are_listed(ext: Seq<char>)
    ensures
        indexable_extension(ext) <==> imported_extensions().contains(ext),
{
    let l = imported_extensions();
    if indexable_extension(ext) {
        if ext == "txt"@ {
            assert(l[0] == ext);
        } else if ext == "md"@ {
            assert(l[1] == ext);
        } else if ext == "rs"@ {
            assert(l[2] == ext);
        } else if ext == "toml"@ {
            assert(l[3] == ext);
        } else if ext == "json"@ {
            assert(l[4] == ext);
        } else if ext == "js"@ {
            assert(l[5] == ext);
        } else if ext == "ts"@ {
            assert(l[6] == ext);
        } else {
            assert(l[7] == ext);
        }
    }
    if l.contains(ext) {
        let i = choose|i: int| 0 <= i < l.len() && l[i] == ext;
        assert(0 <= i < 8);
    }
}

/// The trimmed windows of `s` among the first `m`, in order.
pub open spec fn trimmed_windows(s: Seq<char>, m: nat) -> Seq<Seq<char>> {
    Seq::new(m, |k: int| trimmed_chunk(s, k as nat))
}

proof fn lemma_kept_prefix(s: Seq<char>, m: nat)
    ensures
        kept_chunks(s, m) == trimmed_windows(s, m).filter(|c: Seq<char>| substantial(c)),
    decreases m,
{
    reveal_with_fuel(Seq::filter, 1);
    let pred = |c: Seq<char>| substantial(c);
    if m == 0 {
        assert(trimmed_windows(s, 0).filter(pred) =~= Seq::<Seq<char>>::empty());
    } else {
        lemma_kept_prefix(s, (m - 1) as nat);
        assert(trimmed_windows(s, m).drop_last() =~= trimmed_windows(s, (m - 1) as nat));
        assert(trimmed_windows(s, m).last() == trimmed_chunk(s, (m - 1) as nat));
    }
}

/// The imported chunks are exactly the trimmed windows that hold more than 50
/// bytes, every one of them and in order, with one window starting at each
/// multiple of 400 below the text's length.
pub proof fn lemma_import_keeps_every_long_window(s: Seq<char>)
    ensures
        kept_chunks(s, chunk_count(s.len())) == trimmed_windows(s, chunk_count(s.len())).filter(
            |c: Seq<char>| substantial(c),
        ),
        forall|k: nat| #[trigger] chunk_start(k) < s.len() <==> k < chunk_count(s.len()),
{
    lemma_kept_prefix(s, chunk_count(s.len()));
    let n = s.len();
    assert forall|k: nat| #[trigger] chunk_start(k) < n <==> k < chunk_count(n) by {
        if k * 400 < n {
            assert(k < (n + 399) / 400) by (nonlinear_arith)
                requires
                    k * 400 < n,
            ;
        }
        if k < (n + 399) / 400 {
            assert(k * 400 < n) by (nonlinear_arith)
                requires
                    k < (n + 399) / 400,
            ;
        }
    }
}

} // verus!

verus! {

/// A file that is valid UTF-8 is read as UTF-8 whatever its extension; one
/// that is not is read as Windows-1251 when it is a `.txt` file and gives no
/// text otherwise.
pub proof fn lemma_file_text_choice(content: Seq<u8>, is_txt: bool)
    ensures
        valid_utf8(content) ==> file_text(content, is_txt) == decode_utf8(content),
        !valid_utf8(content) && is_txt ==> file_text(content, is_txt) == windows_1251_decode(content),
        !valid_utf8(content) && !is_txt ==> file_text(content, is_txt).len() == 0,
{
}

} // verus!
