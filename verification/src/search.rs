//! Decisions of a search: the full-text query made from the user's text, the
//! merge of the vector and full-text hits, and the split of vector hits into
//! chosen and rejected feedback.

use std::collections::HashSet;
use vstd::prelude::*;

use crate::text::{
    is_alphanumeric, is_whitespace, str_chars, string_from_chars, unicode_alphanumeric,
    unicode_white_space,
};

verus! {

broadcast use vstd::std_specs::hash::group_hash_axioms;

/// The alphanumeric characters of the word that `s` ends inside (empty when it
/// ends with white space).
pub open spec fn open_word(s: Seq<char>) -> Seq<char>
    decreases s.len(),
{
    if s.len() == 0 {
        Seq::empty()
    } else if unicode_white_space(s.last()) {
        Seq::empty()
    } else if unicode_alphanumeric(s.last()) {
        open_word(s.drop_last()).push(s.last())
    } else {
        open_word(s.drop_last())
    }
}

/// The alphanumeric characters of each white-space-separated word of `s`
/// that white space already ended, leaving out words that keep none.
pub open spec fn closed_words(s: Seq<char>) -> Seq<Seq<char>>
    decreases s.len(),
{
    if s.len() == 0 {
        Seq::empty()
    } else if unicode_white_space(s.last()) && open_word(s.drop_last()).len() > 0 {
        closed_words(s.drop_last()).push(open_word(s.drop_last()))
    } else {
        closed_words(s.drop_last())
    }
}

/// The terms of a full-text query: for each white-space-separated word of `s`,
/// its alphanumeric characters, leaving out words that keep none.
pub open spec fn query_terms(s: Seq<char>) -> Seq<Seq<char>> {
    if open_word(s).len() > 0 {
        closed_words(s).push(open_word(s))
    } else {
        closed_words(s)
    }
}

/// The words joined with single spaces.
pub open spec fn join_with_space(words: Seq<Seq<char>>) -> Seq<char>
    decreases words.len(),
{
    if words.len() == 0 {
        Seq::empty()
    } else if words.len() == 1 {
        words[0]
    } else {
        join_with_space(words.drop_last()) + seq![' '] + words.last()
    }
}

proof fn lemma_join_push(words: Seq<Seq<char>>, w: Seq<char>)
    ensures
        join_with_space(words.push(w)) == if words.len() == 0 {
            w
        } else {
            join_with_space(words) + seq![' '] + w
        },
{
    assert(words.push(w).drop_last() =~= words);
}

proof fn lemma_join_empty_iff(words: Seq<Seq<char>>)
    requires
        forall|k: int| 0 <= k < words.len() ==> (#[trigger] words[k]).len() > 0,
    ensures
        (join_with_space(words).len() == 0) == (words.len() == 0),
    decreases words.len(),
{
    if words.len() > 1 {
        lemma_join_empty_iff(words.drop_last());
    }
}

proof fn lemma_closed_words_nonempty(s: Seq<char>)
    ensures
        forall|k: int| 0 <= k < closed_words(s).len() ==> (#[trigger] closed_words(s)[k]).len() > 0,
    decreases s.len(),
{
    if s.len() > 0 {
        let p = s.drop_last();
        lemma_closed_words_nonempty(p);
        if unicode_white_space(s.last()) && open_word(p).len() > 0 {
            let c = closed_words(p).push(open_word(p));
            assert(closed_words(s) == c);
            assert forall|k: int| 0 <= k < c.len() implies (#[trigger] c[k]).len() > 0 by {
                if k < closed_words(p).len() {
                    assert(c[k] == closed_words(p)[k]);
                }
            }
        }
    }
}

/// The full-text query for the user's text: the alphanumeric characters of
/// each word, words that keep none left out, joined with single spaces.
pub fn fts_query(query: &str) -> (res: String)
    ensures
        res@ == join_with_space(query_terms(query@)),
{
    let chars = str_chars(query);
    let mut out: Vec<char> = Vec::new();
    let mut cur: Vec<char> = Vec::new();
    let mut i: usize = 0;
    while i < chars.len()
        invariant
            i <= chars@.len(),
            chars@ == query@,
            cur@ == open_word(chars@.take(i as int)),
            out@ == join_with_space(closed_words(chars@.take(i as int))),
        decreases chars@.len() - i,
    {
        let c = chars[i];
        let ghost prev = chars@.take(i as int);
        assert(chars@.take(i as int + 1).drop_last() =~= prev);
        assert(chars@.take(i as int + 1).last() == c);
        if is_whitespace(c) {
            if cur.len() > 0 {
                proof {
                    lemma_closed_words_nonempty(prev);
                    lemma_join_empty_iff(closed_words(prev));
                    lemma_join_push(closed_words(prev), cur@);
                }
                if out.len() > 0 {
                    out.push(' ');
                }
                let mut k: usize = 0;
                let ghost base = out@;
                while k < cur.len()
                    invariant
                        k <= cur@.len(),
                        out@ == base + cur@.take(k as int),
                    decreases cur@.len() - k,
                {
                    out.push(cur[k]);
                    k += 1;
                    assert(out@ =~= base + cur@.take(k as int));
                }
                assert(cur@.take(cur@.len() as int) =~= cur@);
                proof {
                    if base.len() > 0 {
                        assert(out@ =~= join_with_space(closed_words(prev)) + seq![' '] + cur@);
                    }
                }
                cur = Vec::new();
            }
        } else if is_alphanumeric(c) {
            cur.push(c);
        }
        i += 1;
    }
    assert(chars@.take(chars@.len() as int) =~= chars@);
    if cur.len() > 0 {
        proof {
            lemma_closed_words_nonempty(query@);
            lemma_join_empty_iff(closed_words(query@));
            lemma_join_push(closed_words(query@), cur@);
        }
        if out.len() > 0 {
            out.push(' ');
        }
        let mut k: usize = 0;
        let ghost base = out@;
        while k < cur.len()
            invariant
                k <= cur@.len(),
                out@ == base + cur@.take(k as int),
            decreases cur@.len() - k,
        {
            out.push(cur[k]);
            k += 1;
            assert(out@ =~= base + cur@.take(k as int));
        }
        assert(cur@.take(cur@.len() as int) =~= cur@);
        proof {
            if base.len() > 0 {
                assert(out@ =~= join_with_space(closed_words(query@)) + seq![' '] + cur@);
            }
        }
    }
    string_from_chars(out.as_slice())
}

} // verus!

verus! {

/// A hit of the merged result: position `index` in the vector hits, or in the
/// full-text hits when `from_fts` holds.
#[derive(PartialEq, Eq, Structural, Debug, Clone, Copy)]
pub struct HitRef {
    pub from_fts: bool,
    pub index: usize,
}

/// Position of a hit in the vector hits followed by the full-text hits.
pub open spec fn hit_position(h: HitRef, n_vector: nat) -> int {
    if h.from_fts {
        n_vector + h.index
    } else {
        h.index as int
    }
}

/// The positions among the first `n` of `ids` whose id does not occur earlier.
pub open spec fn first_positions(ids: Seq<u64>, n: nat) -> Seq<int>
    decreases n,
{
    if n == 0 {
        Seq::empty()
    } else {
        let p = first_positions(ids, (n - 1) as nat);
        if ids.take(n - 1).contains(ids[n - 1]) {
            p
        } else {
            p.push(n - 1)
        }
    }
}

/// The merged hits as positions in the vector hits followed by the full-text hits.
pub open spec fn merged_positions(hits: Seq<HitRef>, n_vector: nat) -> Seq<int> {
    hits.map_values(|h: HitRef| hit_position(h, n_vector))
}

proof fn lemma_take_push_contains(ids: Seq<u64>, i: int, x: u64)
    requires
        0 <= i < ids.len(),
    ensures
        ids.take(i + 1).contains(x) == (ids.take(i).contains(x) || ids[i] == x),
{
    if ids.take(i + 1).contains(x) {
        let k = choose|k: int| 0 <= k < i + 1 && #[trigger] ids.take(i + 1)[k] == x;
        if k < i {
            assert(ids.take(i)[k] == x);
        }
    }
    if ids.take(i).contains(x) {
        let k = choose|k: int| 0 <= k < i && #[trigger] ids.take(i)[k] == x;
        assert(ids.take(i + 1)[k] == x);
    }
    if ids[i] == x {
        assert(ids.take(i + 1)[i] == x);
    }
}

/// The vector hits followed by the full-text hits, each id once, at its
/// first position.
pub fn merge_hits(vector_ids: &[u64], fts_ids: &[u64]) -> (res: Vec<HitRef>)
    ensures
        merged_positions(res@, vector_ids@.len()) == first_positions(
            vector_ids@ + fts_ids@,
            (vector_ids@.len() + fts_ids@.len()) as nat,
        ),
        forall|k: int|
            0 <= k < res@.len() ==> if (#[trigger] res@[k]).from_fts {
                res@[k].index < fts_ids@.len()
            } else {
                res@[k].index < vector_ids@.len()
            },
{
    let ghost ids = vector_ids@ + fts_ids@;
    let ghost nv = vector_ids@.len();
    let mut seen: HashSet<u64> = HashSet::new();
    let mut out: Vec<HitRef> = Vec::new();
    let mut i: usize = 0;
    while i < vector_ids.len()
        invariant
            i <= vector_ids@.len(),
            ids == vector_ids@ + fts_ids@,
            nv == vector_ids@.len(),
            seen@ == Set::new(|x: u64| ids.take(i as int).contains(x)),
            merged_positions(out@, nv) == first_positions(ids, i as nat),
            forall|k: int| 0 <= k < out@.len() ==> !(#[trigger] out@[k]).from_fts && out@[k].index < i,
        decreases vector_ids@.len() - i,
    {
        let id = vector_ids[i];
        assert(ids[i as int] == id);
        proof {
            assert forall|x: u64| #[trigger] ids.take(i + 1).contains(x) == (ids.take(i as int).contains(x) || id == x) by {
                lemma_take_push_contains(ids, i as int, x);
            }
        }
        let fresh = seen.insert(id);
        if fresh {
            out.push(HitRef { from_fts: false, index: i });
        }
        proof {
            assert(seen@ =~= Set::new(|x: u64| ids.take(i + 1).contains(x)));
            assert(merged_positions(out@, nv) =~= first_positions(ids, (i + 1) as nat));
        }
        i += 1;
    }
    let mut j: usize = 0;
    while j < fts_ids.len()
        invariant
            j <= fts_ids@.len(),
            ids == vector_ids@ + fts_ids@,
            nv == vector_ids@.len(),
            seen@ == Set::new(|x: u64| ids.take(nv + j).contains(x)),
            merged_positions(out@, nv) == first_positions(ids, (nv + j) as nat),
            forall|k: int|
                0 <= k < out@.len() ==> if (#[trigger] out@[k]).from_fts {
                    out@[k].index < j
                } else {
                    out@[k].index < nv
                },
        decreases fts_ids@.len() - j,
    {
        let id = fts_ids[j];
        let ghost p = nv + j;
        assert(ids[p] == id);
        proof {
            assert forall|x: u64| #[trigger] ids.take(p + 1).contains(x) == (ids.take(p).contains(x) || id == x) by {
                lemma_take_push_contains(ids, p, x);
            }
        }
        let fresh = seen.insert(id);
        if fresh {
            out.push(HitRef { from_fts: true, index: j });
        }
        proof {
            assert(seen@ =~= Set::new(|x: u64| ids.take(p + 1).contains(x)));
            assert(merged_positions(out@, nv) =~= first_positions(ids, (p + 1) as nat));
        }
        j += 1;
    }
    out
}

} // verus!

verus! {

/// Each id of the vector and full-text hits comes out of the merge exactly
/// once, at the first position where it occurs, and the merged hits keep the
/// order of that list (vector hits first).
#[verifier::spinoff_prover]
#[verifier::rlimit(60)]
pub proof fn lemma_merge_each_id_once(ids: Seq<u64>, n: nat)
    requires
        n <= ids.len(),
    ensures
        forall|k: int|
            0 <= k < first_positions(ids, n).len() ==> 0 <= #[trigger] first_positions(ids, n)[k] < n,
        forall|k1: int, k2: int|
            0 <= k1 < k2 < first_positions(ids, n).len() ==> #[trigger] first_positions(ids, n)[k1]
                < #[trigger] first_positions(ids, n)[k2],
        forall|k1: int, k2: int|
            0 <= k1 < first_positions(ids, n).len() && 0 <= k2 < first_positions(ids, n).len() && k1
                != k2 ==> ids[#[trigger] first_positions(ids, n)[k1]] != ids[#[trigger] first_positions(
                ids,
                n,
            )[k2]],
        forall|j: int|
            #![trigger ids[j]]
            0 <= j < n ==> exists|k: int|
                0 <= k < first_positions(ids, n).len() && ids[#[trigger] first_positions(ids, n)[k]]
                    == ids[j],
    decreases n,
{
    if n > 0 {
        let m = (n - 1) as nat;
        lemma_merge_each_id_once(ids, m);
        let p = first_positions(ids, m);
        let q = first_positions(ids, n);
        if ids.take(m as int).contains(ids[m as int]) {
            assert(q == p);
            assert forall|j: int| #![trigger ids[j]] 0 <= j < n implies exists|k: int|
                0 <= k < q.len() && ids[#[trigger] q[k]] == ids[j] by {
                if j == m {
                    let w = choose|w: int| 0 <= w < m && #[trigger] ids.take(m as int)[w] == ids[m as int];
                    assert(ids[w] == ids[j]);
                    let k = choose|k: int| 0 <= k < p.len() && ids[#[trigger] p[k]] == ids[w];
                    assert(ids[q[k]] == ids[j]);
                } else {
                    let k = choose|k: int| 0 <= k < p.len() && ids[#[trigger] p[k]] == ids[j];
                    assert(ids[q[k]] == ids[j]);
                }
            }
        } else {
            assert(q == p.push(m as int));
            assert forall|k: int| 0 <= k < q.len() implies 0 <= #[trigger] q[k] < n by {
                if k < p.len() {
                    assert(q[k] == p[k]);
                }
            }
            assert forall|k1: int, k2: int| 0 <= k1 < k2 < q.len() implies #[trigger] q[k1] < #[trigger] q[k2] by {
                assert(q[k1] == p[k1]);
                if k2 < p.len() {
                    assert(q[k2] == p[k2]);
                }
            }
            assert forall|k1: int, k2: int|
                0 <= k1 < q.len() && 0 <= k2 < q.len() && k1 != k2 implies ids[#[trigger] q[k1]]
                != ids[#[trigger] q[k2]] by {
                if k1 < p.len() && k2 < p.len() {
                    assert(q[k1] == p[k1] && q[k2] == p[k2]);
                } else if k1 < p.len() {
                    assert(q[k1] == p[k1]);
                    assert(ids.take(m as int)[p[k1]] == ids[p[k1]]);
                } else {
                    assert(q[k2] == p[k2]);
                    assert(ids.take(m as int)[p[k2]] == ids[p[k2]]);
                }
            }
            assert forall|j: int| #![trigger ids[j]] 0 <= j < n implies exists|k: int|
                0 <= k < q.len() && ids[#[trigger] q[k]] == ids[j] by {
                if j == m {
                    assert(q[p.len() as int] == m);
                } else {
                    let k = choose|k: int| 0 <= k < p.len() && ids[#[trigger] p[k]] == ids[j];
                    assert(q[k] == p[k]);
                }
            }
        }
    }
}

} // verus!

verus! {

/// How a vector hit's similarity compares with the feedback threshold.
#[derive(PartialEq, Eq, Structural, Debug, Clone, Copy)]
pub enum HitQuality {
    /// At or above the threshold.
    High,
    /// Below the threshold.
    Low,
    /// Neither (the similarity is not a number).
    Unordered,
}

/// The ids among the first `n` hits whose quality is `q`, in order.
pub open spec fn ids_with_quality(ids: Seq<u64>, quality: Seq<HitQuality>, q: HitQuality, n: nat) -> Seq<
    u64,
>
    decreases n,
{
    if n == 0 {
        Seq::empty()
    } else {
        let rest = ids_with_quality(ids, quality, q, (n - 1) as nat);
        if quality[n - 1] == q {
            rest.push(ids[n - 1])
        } else {
            rest
        }
    }
}

/// Splits the vector hits into the ids to record as chosen (high similarity)
/// and as rejected (low similarity), each in hit order.
pub fn partition_feedback(ids: &[u64], quality: &[HitQuality]) -> (res: (Vec<u64>, Vec<u64>))
    requires
        ids@.len() == quality@.len(),
    ensures
        res.0@ == ids_with_quality(ids@, quality@, HitQuality::High, ids@.len() as nat),
        res.1@ == ids_with_quality(ids@, quality@, HitQuality::Low, ids@.len() as nat),
{
    let mut chosen: Vec<u64> = Vec::new();
    let mut rejected: Vec<u64> = Vec::new();
    let mut i: usize = 0;
    while i < ids.len()
        invariant
            i <= ids@.len(),
            ids@.len() == quality@.len(),
            chosen@ == ids_with_quality(ids@, quality@, HitQuality::High, i as nat),
            rejected@ == ids_with_quality(ids@, quality@, HitQuality::Low, i as nat),
        decreases ids@.len() - i,
    {
        match quality[i] {
            HitQuality::High => chosen.push(ids[i]),
            HitQuality::Low => rejected.push(ids[i]),
            HitQuality::Unordered => {},
        }
        i += 1;
    }
    (chosen, rejected)
}

} // verus!

verus! {

/// Each hit's id beside its quality, in hit order.
pub open spec fn hits_with_quality(ids: Seq<u64>, quality: Seq<HitQuality>) -> Seq<(u64, HitQuality)> {
    Seq::new(ids.len(), |i: int| (ids[i], quality[i]))
}

/// The ids recorded under a quality are exactly the ids of the hits of that
/// quality, every one of them and in hit order: the chosen list is the ids of
/// all high-similarity hits and the rejected list the ids of all low-similarity
/// hits.
pub proof fn lemma_feedback_lists_are_filters(ids: Seq<u64>, quality: Seq<HitQuality>, q: HitQuality)
    requires
        ids.len() == quality.len(),
    ensures
        ids_with_quality(ids, quality, q, ids.len()) == hits_with_quality(ids, quality).filter(
            |h: (u64, HitQuality)| h.1 == q,
        ).map_values(|h: (u64, HitQuality)| h.0),
{
    lemma_feedback_prefix(ids, quality, q, ids.len());
    assert(hits_with_quality(ids, quality).take(ids.len() as int) =~= hits_with_quality(ids, quality));
}

proof fn lemma_feedback_prefix(ids: Seq<u64>, quality: Seq<HitQuality>, q: HitQuality, n: nat)
    requires
        ids.len() == quality.len(),
        n <= ids.len(),
    ensures
        ids_with_quality(ids, quality, q, n) == hits_with_quality(ids, quality).take(n as int).filter(
            |h: (u64, HitQuality)| h.1 == q,
        ).map_values(|h: (u64, HitQuality)| h.0),
    decreases n,
{
    let pred = |h: (u64, HitQuality)| h.1 == q;
    let proj = |h: (u64, HitQuality)| h.0;
    let hs = hits_with_quality(ids, quality);
    reveal_with_fuel(Seq::filter, 1);
    if n == 0 {
        assert(hs.take(0).filter(pred) =~= Seq::<(u64, HitQuality)>::empty());
        assert(hs.take(0).filter(pred).map_values(proj) =~= Seq::<u64>::empty());
    } else {
        lemma_feedback_prefix(ids, quality, q, (n - 1) as nat);
        let t = hs.take(n as int);
        assert(t.drop_last() =~= hs.take(n - 1));
        assert(t.last() == (ids[n - 1], quality[n - 1]));
        let f0 = hs.take(n - 1).filter(pred);
        if quality[n - 1] == q {
            assert(t.filter(pred) == f0.push(t.last()));
            assert(f0.push(t.last()).map_values(proj) =~= f0.map_values(proj).push(ids[n - 1]));
        } else {
            assert(t.filter(pred) == f0);
        }
    }
}

} // verus!

verus! {

/// Where the word that `s` ends in starts: just after its last white space
/// (the length of `s` when `s` ends in white space or is empty).
pub open spec fn trailing_word_start(s: Seq<char>) -> int
    decreases s.len(),
{
    if s.len() == 0 || unicode_white_space(s.last()) {
        s.len() as int
    } else {
        trailing_word_start(s.drop_last())
    }
}

pub proof fn lemma_trailing_word_start(s: Seq<char>)
    ensures
        0 <= trailing_word_start(s) <= s.len(),
        s.len() > 0 && !unicode_white_space(s.last()) ==> trailing_word_start(s) < s.len(),
        trailing_word_start(s) > 0 ==> unicode_white_space(s[trailing_word_start(s) - 1]),
        forall|j: int| trailing_word_start(s) <= j < s.len() ==> !unicode_white_space(#[trigger] s[j]),
    decreases s.len(),
{
    if s.len() > 0 && !unicode_white_space(s.last()) {
        let p = s.drop_last();
        lemma_trailing_word_start(p);
        assert forall|j: int| trailing_word_start(s) <= j < s.len() implies !unicode_white_space(#[trigger] s[j]) by {
            if j < p.len() {
                assert(s[j] == p[j]);
            }
        }
        if trailing_word_start(s) > 0 {
            assert(s[trailing_word_start(s) - 1] == p[trailing_word_start(p) - 1]);
        }
    }
}

/// The white-space-separated words of `s`, in order: its maximal runs of
/// characters that are not white space.
pub open spec fn words(s: Seq<char>) -> Seq<Seq<char>>
    decreases s.len(),
{
    if s.len() == 0 {
        Seq::empty()
    } else if unicode_white_space(s.last()) {
        words(s.drop_last())
    } else {
        let i = trailing_word_start(s);
        proof {
            lemma_trailing_word_start(s);
        }
        words(s.take(i)).push(s.skip(i))
    }
}

/// The alphanumeric characters of a word, in order.
pub open spec fn alnum_of(w: Seq<char>) -> Seq<char> {
    w.filter(|c: char| unicode_alphanumeric(c))
}

/// The alphanumeric characters of each word of `s`, leaving out words that
/// keep none.
pub open spec fn word_terms(s: Seq<char>) -> Seq<Seq<char>> {
    words(s).map_values(|w: Seq<char>| alnum_of(w)).filter(|t: Seq<char>| t.len() > 0)
}

proof fn lemma_open_word_is_trailing_alnum(s: Seq<char>)
    ensures
        open_word(s) == alnum_of(s.skip(trailing_word_start(s))),
    decreases s.len(),
{
    reveal_with_fuel(Seq::filter, 1);
    lemma_trailing_word_start(s);
    if s.len() == 0 || unicode_white_space(s.last()) {
        assert(s.skip(trailing_word_start(s)) =~= Seq::<char>::empty());
        assert(alnum_of(Seq::<char>::empty()) =~= Seq::<char>::empty());
    } else {
        let p = s.drop_last();
        lemma_open_word_is_trailing_alnum(p);
        let i = trailing_word_start(s);
        assert(s.skip(i).drop_last() =~= p.skip(i));
        assert(s.skip(i).last() == s.last());
    }
}

proof fn lemma_closed_words_before_trailing_word(s: Seq<char>)
    requires
        s.len() > 0,
        !unicode_white_space(s.last()),
    ensures
        closed_words(s) == closed_words(s.take(trailing_word_start(s))),
    decreases s.len(),
{
    let p = s.drop_last();
    lemma_trailing_word_start(s);
    if p.len() == 0 || unicode_white_space(p.last()) {
        assert(s.take(trailing_word_start(s)) =~= p);
    } else {
        lemma_closed_words_before_trailing_word(p);
        assert(s.take(trailing_word_start(s)) =~= p.take(trailing_word_start(p)));
    }
}

proof fn lemma_push_terms(ws: Seq<Seq<char>>, w: Seq<char>)
    ensures
        ws.push(w).map_values(|x: Seq<char>| alnum_of(x)).filter(|t: Seq<char>| t.len() > 0) == if alnum_of(
            w,
        ).len() > 0 {
            ws.map_values(|x: Seq<char>| alnum_of(x)).filter(|t: Seq<char>| t.len() > 0).push(
                alnum_of(w),
            )
        } else {
            ws.map_values(|x: Seq<char>| alnum_of(x)).filter(|t: Seq<char>| t.len() > 0)
        },
{
    reveal_with_fuel(Seq::filter, 1);
    let m = ws.push(w).map_values(|x: Seq<char>| alnum_of(x));
    assert(m.drop_last() =~= ws.map_values(|x: Seq<char>| alnum_of(x)));
    assert(m.last() == alnum_of(w));
}

/// The terms of the full-text query are the words of the user's text, each
/// cut down to its alphanumeric characters (digits as much as letters), with
/// the words that keep none left out, in order.
pub proof fn lemma_query_terms_are_word_terms(s: Seq<char>)
    ensures
        query_terms(s) == word_terms(s),
    decreases s.len(),
{
    lemma_trailing_word_start(s);
    lemma_open_word_is_trailing_alnum(s);
    if s.len() == 0 {
    } else if unicode_white_space(s.last()) {
        let p = s.drop_last();
        lemma_query_terms_are_word_terms(p);
        assert(open_word(s) == Seq::<char>::empty());
        assert(query_terms(s) == query_terms(p));
    } else {
        let i = trailing_word_start(s);
        let t = s.take(i);
        lemma_closed_words_before_trailing_word(s);
        lemma_query_terms_are_word_terms(t);
        lemma_trailing_word_start(t);
        if t.len() > 0 {
            assert(t.last() == s[i - 1]);
        }
        assert(open_word(t) == Seq::<char>::empty());
        assert(query_terms(t) == closed_words(t));
        lemma_push_terms(words(t), s.skip(i));
    }
}

/// Where the last space of `r` stands, or -1 when it has none.
pub open spec fn last_space(r: Seq<char>) -> int
    decreases r.len(),
{
    if r.len() == 0 {
        -1
    } else if r.last() == ' ' {
        r.len() - 1
    } else {
        last_space(r.drop_last())
    }
}

pub proof fn lemma_last_space_bound(r: Seq<char>)
    ensures
        -1 <= last_space(r) < r.len(),
    decreases r.len(),
{
    if r.len() > 0 {
        lemma_last_space_bound(r.drop_last());
    }
}

/// The pieces of `r` between its spaces, in order (one piece when it has none).
pub open spec fn split_at_spaces(r: Seq<char>) -> Seq<Seq<char>>
    decreases r.len(),
{
    let k = last_space(r);
    proof {
        lemma_last_space_bound(r);
    }
    if k < 0 {
        seq![r]
    } else {
        split_at_spaces(r.take(k)).push(r.skip(k + 1))
    }
}

proof fn lemma_last_space_after(a: Seq<char>, w: Seq<char>)
    requires
        forall|j: int| 0 <= j < w.len() ==> w[j] != ' ',
    ensures
        last_space(a + seq![' '] + w) == a.len(),
        last_space(w) == -1,
    decreases w.len(),
{
    if w.len() > 0 {
        let w0 = w.drop_last();
        lemma_last_space_after(a, w0);
        assert((a + seq![' '] + w).drop_last() =~= a + seq![' '] + w0);
        assert(w.last() == w[w.len() - 1]);
    } else {
        assert((a + seq![' '] + w).last() == ' ');
    }
}

/// Splitting the joined terms at their spaces gives the terms back, when no
/// term is empty or holds a space: the query is the terms separated by single
/// spaces, with no space before the first or after the last.
pub proof fn lemma_split_join(ts: Seq<Seq<char>>)
    requires
        forall|k: int| 0 <= k < ts.len() ==> (#[trigger] ts[k]).len() > 0,
        forall|k: int, j: int| 0 <= k < ts.len() && 0 <= j < ts[k].len() ==> #[trigger] ts[k][j] != ' ',
    ensures
        ts.len() == 0 ==> join_with_space(ts).len() == 0,
        ts.len() > 0 ==> split_at_spaces(join_with_space(ts)) == ts,
    decreases ts.len(),
{
    if ts.len() == 1 {
        lemma_last_space_after(Seq::empty(), ts[0]);
        assert(split_at_spaces(ts[0]) == seq![ts[0]]);
        assert(seq![ts[0]] =~= ts);
    } else if ts.len() > 1 {
        let p = ts.drop_last();
        lemma_split_join(p);
        let a = join_with_space(p);
        let w = ts.last();
        let r = a + seq![' '] + w;
        assert(join_with_space(ts) == r);
        lemma_last_space_after(a, w);
        assert(r.take(a.len() as int) =~= a);
        assert(r.skip(a.len() as int + 1) =~= w);
        assert(p.push(w) =~= ts);
    }
}

proof fn lemma_filter_keeps_property(w: Seq<char>, keep: spec_fn(char) -> bool, good: spec_fn(char) -> bool)
    requires
        forall|j: int| 0 <= j < w.len() ==> good(#[trigger] w[j]),
    ensures
        forall|j: int| 0 <= j < w.filter(keep).len() ==> good(#[trigger] w.filter(keep)[j]),
    decreases w.len(),
{
    reveal_with_fuel(Seq::filter, 1);
    if w.len() > 0 {
        let p = w.drop_last();
        lemma_filter_keeps_property(p, keep, good);
        assert forall|j: int| 0 <= j < w.filter(keep).len() implies good(#[trigger] w.filter(keep)[j]) by {
            if j < p.filter(keep).len() {
                assert(w.filter(keep)[j] == p.filter(keep)[j]);
            } else {
                assert(w.filter(keep)[j] == w.last());
            }
        }
    }
}

proof fn lemma_words_have_no_white_space(s: Seq<char>)
    ensures
        forall|k: int, j: int|
            0 <= k < words(s).len() && 0 <= j < words(s)[k].len() ==> !unicode_white_space(
                #[trigger] words(s)[k][j],
            ),
    decreases s.len(),
{
    if s.len() > 0 {
        lemma_trailing_word_start(s);
        if unicode_white_space(s.last()) {
            lemma_words_have_no_white_space(s.drop_last());
            assert(words(s) == words(s.drop_last()));
        } else {
            let i = trailing_word_start(s);
            lemma_words_have_no_white_space(s.take(i));
            assert forall|k: int, j: int|
                0 <= k < words(s).len() && 0 <= j < words(s)[k].len() implies !unicode_white_space(
                #[trigger] words(s)[k][j]) by {
                if k < words(s.take(i)).len() {
                    assert(words(s)[k] == words(s.take(i))[k]);
                } else {
                    assert(words(s)[k] == s.skip(i));
                    assert(s.skip(i)[j] == s[i + j]);
                }
            }
        }
    }
}

/// The full-text query is the words of the user's text, each cut down to its
/// alphanumeric characters, words that keep none left out, separated by single
/// spaces: splitting it at its spaces gives exactly those terms, and it is
/// empty when there are none.
pub proof fn lemma_fts_query_is_word_terms(s: Seq<char>)
    ensures
        word_terms(s).len() == 0 ==> join_with_space(query_terms(s)).len() == 0,
        word_terms(s).len() > 0 ==> split_at_spaces(join_with_space(query_terms(s))) == word_terms(s),
{
    lemma_query_terms_are_word_terms(s);
    let ts = word_terms(s);
    let keep_nonempty = |t: Seq<char>| t.len() > 0;
    let m = words(s).map_values(|w: Seq<char>| alnum_of(w));
    broadcast use vstd::seq_lib::group_filter_ensures;
    lemma_words_have_no_white_space(s);
    assert forall|k: int| 0 <= k < ts.len() implies (#[trigger] ts[k]).len() > 0 by {
        m.lemma_filter_pred(keep_nonempty, k);
    }
    assert forall|k: int, j: int| 0 <= k < ts.len() && 0 <= j < ts[k].len() implies #[trigger] ts[k][j] != ' ' by {
        // Each term is the alphanumeric part of some word, and words hold no white space.
        lemma_term_from_word(s, k);
        let wi = choose|wi: int| 0 <= wi < words(s).len() && ts[k] == alnum_of(#[trigger] words(s)[wi]);
        let w = words(s)[wi];
        assert forall|x: int| 0 <= x < w.len() implies (|c: char| c != ' ')(#[trigger] w[x]) by {
            assert(!unicode_white_space(w[x]));
        }
        lemma_filter_keeps_property(w, |c: char| unicode_alphanumeric(c), |c: char| c != ' ');
    }
    lemma_split_join(ts);
}

proof fn lemma_term_from_word(s: Seq<char>, k: int)
    requires
        0 <= k < word_terms(s).len(),
    ensures
        exists|wi: int| 0 <= wi < words(s).len() && word_terms(s)[k] == alnum_of(#[trigger] words(s)[wi]),
{
    let m = words(s).map_values(|w: Seq<char>| alnum_of(w));
    lemma_filter_member(m, |t: Seq<char>| t.len() > 0, k);
    let j = choose|j: int| 0 <= j < m.len() && m[j] == word_terms(s)[k];
    assert(m[j] == alnum_of(words(s)[j]));
}

proof fn lemma_filter_member<A>(xs: Seq<A>, keep: spec_fn(A) -> bool, k: int)
    requires
        0 <= k < xs.filter(keep).len(),
    ensures
        exists|j: int| 0 <= j < xs.len() && xs[j] == xs.filter(keep)[k],
    decreases xs.len(),
{
    reveal_with_fuel(Seq::filter, 1);
    let p = xs.drop_last();
    if k < p.filter(keep).len() {
        lemma_filter_member(p, keep, k);
        let j = choose|j: int| 0 <= j < p.len() && p[j] == p.filter(keep)[k];
        assert(xs[j] == p[j]);
        assert(xs.filter(keep)[k] == p.filter(keep)[k]);
    } else {
        assert(xs[xs.len() - 1] == xs.filter(keep)[k]);
    }
}

} // verus!

verus! {

/// Every merged hit is the first occurrence of its id: no hit before it, in
/// the vector hits followed by the full-text hits, has the same id.
pub proof fn lemma_merge_keeps_first_occurrence(ids: Seq<u64>, n: nat)
    requires
        n <= ids.len(),
    ensures
        forall|k: int, j: int|
            #![trigger ids[j], first_positions(ids, n)[k]]
            0 <= k < first_positions(ids, n).len() && 0 <= j < first_positions(ids, n)[k] ==> ids[j]
                != ids[first_positions(ids, n)[k]],
    decreases n,
{
    if n > 0 {
        let m = (n - 1) as nat;
        lemma_merge_keeps_first_occurrence(ids, m);
        lemma_merge_each_id_once(ids, m);
        let p = first_positions(ids, m);
        let q = first_positions(ids, n);
        if !ids.take(m as int).contains(ids[m as int]) {
            assert forall|k: int, j: int| #![trigger ids[j], q[k]] 0 <= k < q.len() && 0 <= j < q[k] implies ids[j] != ids[q[k]] by {
                if k < p.len() {
                    assert(q[k] == p[k]);
                } else {
                    assert(q[k] == m);
                    if ids[j] == ids[m as int] {
                        assert(ids.take(m as int)[j] == ids[j]);
                    }
                }
            }
        }
    }
}

} // verus!
