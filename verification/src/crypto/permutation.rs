//! Dynamic axis permutation: a seeded Fisher-Yates shuffle of the 384
//! embedding axes, and the two directions of applying it.

use vstd::prelude::*;

verus! {

/// Number of axes of an embedding vector.
pub const DIM: usize = 384;

/// Multiplier of the linear congruential generator that drives the shuffle.
pub const LCG_MUL: u64 = 6364136223846793005;

/// Increment of the linear congruential generator that drives the shuffle.
pub const LCG_INC: u64 = 1442695040888963407;

/// One step of the generator: `state * LCG_MUL + LCG_INC` modulo 2^64.
pub open spec fn lcg_next(state: u64) -> u64 {
    ((state as nat * LCG_MUL as nat + LCG_INC as nat) % 0x1_0000_0000_0000_0000) as u64
}

/// The position that the step for slot `i` swaps with, given the new generator state.
pub open spec fn swap_target(state: u64, i: nat) -> nat {
    ((state >> 33u64) as nat) % (i + 1)
}

/// `s` with the elements at `i` and `j` exchanged.
pub open spec fn swap_at(s: Seq<u16>, i: int, j: int) -> Seq<u16> {
    s.update(i, s[j]).update(j, s[i])
}

/// The identity arrangement `0, 1, ..., DIM - 1`.
pub open spec fn identity_perm() -> Seq<u16> {
    Seq::new(DIM as nat, |k: int| k as u16)
}

/// The shuffle steps for slots `i, i - 1, ..., 1`, starting from generator
/// state `state` and arrangement `perm`.
pub open spec fn shuffle_down(state: u64, perm: Seq<u16>, i: nat) -> Seq<u16>
    decreases i,
{
    if i == 0 {
        perm
    } else {
        let next = lcg_next(state);
        shuffle_down(next, swap_at(perm, i as int, swap_target(next, i) as int), (i - 1) as nat)
    }
}

/// The arrangement of axes that a seed selects.
pub open spec fn permutation_of(seed: u64) -> Seq<u16> {
    shuffle_down(seed, identity_perm(), (DIM - 1) as nat)
}

/// `p` holds each of `0..DIM` exactly once.
pub open spec fn is_axis_permutation(p: Seq<u16>) -> bool {
    &&& p.len() == DIM
    &&& forall|k: int| 0 <= k < DIM ==> (#[trigger] p[k]) < DIM
    &&& forall|a: int, b: int| 0 <= a < DIM && 0 <= b < DIM && a != b ==> #[trigger] p[a] != #[trigger] p[b]
}

proof fn lemma_identity_is_permutation()
    ensures
        is_axis_permutation(identity_perm()),
{
}

proof fn lemma_swap_keeps_permutation(p: Seq<u16>, i: int, j: int)
    requires
        is_axis_permutation(p),
        0 <= i < DIM,
        0 <= j < DIM,
    ensures
        is_axis_permutation(swap_at(p, i, j)),
{
    let q = swap_at(p, i, j);
    assert forall|a: int, b: int| 0 <= a < DIM && 0 <= b < DIM && a != b implies #[trigger] q[a] != #[trigger] q[b] by {
        let pa = if a == j { i } else if a == i { j } else { a };
        let pb = if b == j { i } else if b == i { j } else { b };
        assert(q[a] == p[pa]);
        assert(q[b] == p[pb]);
    }
    assert forall|k: int| 0 <= k < DIM implies (#[trigger] q[k]) < DIM by {
        let pk = if k == j { i } else if k == i { j } else { k };
        assert(q[k] == p[pk]);
    }
}

proof fn lemma_shuffle_keeps_permutation(state: u64, p: Seq<u16>, i: nat)
    requires
        is_axis_permutation(p),
        i < DIM,
    ensures
        is_axis_permutation(shuffle_down(state, p, i)),
    decreases i,
{
    if i > 0 {
        let next = lcg_next(state);
        let j = swap_target(next, i);
        lemma_swap_keeps_permutation(p, i as int, j as int);
        lemma_shuffle_keeps_permutation(next, swap_at(p, i as int, j as int), (i - 1) as nat);
    }
}

/// Whatever the seed, the selected arrangement holds every axis exactly once.
pub proof fn lemma_permutation_of_is_permutation(seed: u64)
    ensures
        is_axis_permutation(permutation_of(seed)),
{
    lemma_identity_is_permutation();
    lemma_shuffle_keeps_permutation(seed, identity_perm(), (DIM - 1) as nat);
}

fn lcg_step(state: u64) -> (next: u64)
    ensures
        next == lcg_next(state),
{
    let r = state.wrapping_mul(LCG_MUL).wrapping_add(LCG_INC);
    proof {
        let m: int = 0x1_0000_0000_0000_0000;
        let prod = state as int * LCG_MUL as int;
        vstd::arithmetic::div_mod::lemma_add_mod_noop(prod, LCG_INC as int, m);
        vstd::arithmetic::div_mod::lemma_mod_twice(prod, m);
        vstd::arithmetic::div_mod::lemma_small_mod(LCG_INC as nat, m as nat);
        vstd::arithmetic::div_mod::lemma_add_mod_noop(prod % m, LCG_INC as int, m);
    }
    r
}

/// The arrangement of axes selected by `seed`: a Fisher-Yates shuffle of
/// `0..DIM` whose swap positions come from a linear congruential generator.
pub fn build_permutation(seed: u64) -> (res: [u16; 384])
    ensures
        res@ == permutation_of(seed),
        is_axis_permutation(res@),
{
    let mut indices: [u16; 384] = [0u16; 384];
    let mut k: usize = 0;
    while k < DIM
        invariant
            k <= DIM,
            indices@.len() == DIM,
            forall|m: int| 0 <= m < k ==> indices@[m] == m as u16,
        decreases DIM - k,
    {
        indices[k] = k as u16;
        k += 1;
    }
    assert(indices@ == identity_perm());
    let mut state = seed;
    let mut i: usize = DIM - 1;
    while i >= 1
        invariant
            i < DIM,
            indices@.len() == DIM,
            shuffle_down(state, indices@, i as nat) == permutation_of(seed),
        decreases i,
    {
        state = lcg_step(state);
        let hi = state >> 33u64;
        assert(hi < 0x8000_0000u64) by (bit_vector)
            requires hi == state >> 33u64;
        let j: usize = (hi as usize) % (i + 1);
        let ghost before = indices@;
        let vi = indices[i];
        let vj = indices[j];
        indices[i] = vj;
        indices[j] = vi;
        assert(indices@ == swap_at(before, i as int, j as int));
        i -= 1;
    }
    proof {
        lemma_permutation_of_is_permutation(seed);
    }
    indices
}

} // verus!

verus! {

/// The vector whose axis `map[i]` holds axis `i` of `v`, for every `i < DIM`.
pub open spec fn permuted<T>(map: Seq<u16>, v: Seq<T>) -> Seq<T>
    recommends
        is_axis_permutation(map),
{
    Seq::new(DIM as nat, |k: int| v[choose|i: int| 0 <= i < DIM && map[i] == k])
}

/// The vector whose axis `i` is axis `map[i]` of `v`, for every `i < DIM`.
pub open spec fn unpermuted<T>(map: Seq<u16>, v: Seq<T>) -> Seq<T> {
    Seq::new(DIM as nat, |i: int| v[map[i] as int])
}

proof fn lemma_permutation_is_onto(map: Seq<u16>, k: int)
    requires
        is_axis_permutation(map),
        0 <= k < DIM,
    ensures
        exists|i: int| 0 <= i < DIM && map[i] == k,
{
    // The image of `map` on 0..DIM is a subset of 0..DIM with DIM elements.
    let img = Set::new(|x: int| exists|i: int| 0 <= i < DIM && map[i] == x);
    let dom = Set::new(|i: int| 0 <= i < DIM);
    vstd::set_lib::lemma_int_range(0, DIM as int);
    assert(dom == vstd::set_lib::set_int_range(0, DIM as int));
    let f = |i: int| map[i] as int;
    assert(vstd::relations::injective_on(f, dom)) by {
        assert forall|a: int, b: int| dom.contains(a) && dom.contains(b) && #[trigger] f(a) == #[trigger] f(b) implies a == b by {
            if a != b {
                assert(map[a] != map[b]);
            }
        }
    }
    assert(dom.map(f) =~= img) by {
        assert forall|x: int| img.contains(x) implies dom.map(f).contains(x) by {
            let i = choose|i: int| 0 <= i < DIM && map[i] == x;
            assert(dom.contains(i) && f(i) == x);
        }
    }
    vstd::set_lib::lemma_map_size(dom, img, f);
    let range = vstd::set_lib::set_int_range(0, DIM as int);
    assert(img.subset_of(range)) by {
        assert forall|x: int| img.contains(x) implies range.contains(x) by {
            let i = choose|i: int| 0 <= i < DIM && map[i] == x;
            assert(map[i] < DIM);
        }
    }
    vstd::set_lib::lemma_subset_equality(img, range);
    assert(range.contains(k));
}

/// For an arrangement `map`, entry `map[i]` of the permuted vector is entry `i` of the input.
pub proof fn lemma_permuted_index<T>(map: Seq<u16>, v: Seq<T>, i: int)
    requires
        is_axis_permutation(map),
        0 <= i < DIM,
    ensures
        permuted(map, v)[map[i] as int] == v[i],
{
    let k = map[i] as int;
    lemma_permutation_is_onto(map, k);
    let c = choose|c: int| 0 <= c < DIM && map[c] == k;
    if c != i {
        assert(map[c] != map[i]);
    }
}

/// Applying an arrangement and then undoing it gives back the first `DIM` axes.
pub proof fn lemma_unpermute_permute<T>(map: Seq<u16>, v: Seq<T>)
    requires
        is_axis_permutation(map),
        v.len() >= DIM,
    ensures
        unpermuted(map, permuted(map, v)) == v.take(DIM as int),
{
    assert forall|i: int| 0 <= i < DIM implies #[trigger] unpermuted(map, permuted(map, v))[i] == v.take(DIM as int)[i] by {
        lemma_permuted_index(map, v, i);
    }
    assert(unpermuted(map, permuted(map, v)) =~= v.take(DIM as int));
}

/// Undoing an arrangement and then applying it gives back the first `DIM` axes.
pub proof fn lemma_permute_unpermute<T>(map: Seq<u16>, w: Seq<T>)
    requires
        is_axis_permutation(map),
        w.len() >= DIM,
    ensures
        permuted(map, unpermuted(map, w)) == w.take(DIM as int),
{
    let u = unpermuted(map, w);
    assert forall|k: int| 0 <= k < DIM implies #[trigger] permuted(map, u)[k] == w.take(DIM as int)[k] by {
        lemma_permutation_is_onto(map, k);
        let i = choose|i: int| 0 <= i < DIM && map[i] == k;
        lemma_permuted_index(map, u, i);
    }
    assert(permuted(map, u) =~= w.take(DIM as int));
}

/// Moves axis `i` of `v` to axis `map[i]`; the result has `DIM` axes.
pub fn permute_axes<T: Copy>(map: &[u16; 384], v: &[T]) -> (res: Vec<T>)
    requires
        is_axis_permutation(map@),
        v@.len() >= DIM,
    ensures
        res@ == permuted(map@, v@),
{
    let mut out: Vec<T> = Vec::new();
    let mut k: usize = 0;
    while k < DIM
        invariant
            k <= DIM,
            v@.len() >= DIM,
            out@.len() == k,
        decreases DIM - k,
    {
        out.push(v[k]);
        k += 1;
    }
    let mut i: usize = 0;
    while i < DIM
        invariant
            i <= DIM,
            is_axis_permutation(map@),
            v@.len() >= DIM,
            out@.len() == DIM,
            forall|m: int| 0 <= m < i ==> #[trigger] out@[map@[m] as int] == v@[m],
        decreases DIM - i,
    {
        let target = map[i] as usize;
        out.set(target, v[i]);
        assert forall|m: int| 0 <= m < i + 1 implies #[trigger] out@[map@[m] as int] == v@[m] by {
            if m < i {
                assert(map@[m] != map@[i as int]);
            }
        }
        i += 1;
    }
    proof {
        assert forall|k2: int| 0 <= k2 < DIM implies #[trigger] out@[k2] == permuted(map@, v@)[k2] by {
            lemma_permutation_is_onto(map@, k2);
            let m = choose|m: int| 0 <= m < DIM && map@[m] == k2;
            lemma_permuted_index(map@, v@, m);
        }
        assert(out@ =~= permuted(map@, v@));
    }
    out
}

/// Gathers axis `map[i]` of `v` into axis `i`; the result has `DIM` axes.
pub fn unpermute_axes<T: Copy>(map: &[u16; 384], v: &[T]) -> (res: Vec<T>)
    requires
        is_axis_permutation(map@),
        v@.len() >= DIM,
    ensures
        res@ == unpermuted(map@, v@),
{
    let mut out: Vec<T> = Vec::new();
    let mut i: usize = 0;
    while i < DIM
        invariant
            i <= DIM,
            is_axis_permutation(map@),
            v@.len() >= DIM,
            out@ == unpermuted(map@, v@).take(i as int),
        decreases DIM - i,
    {
        out.push(v[map[i] as usize]);
        i += 1;
        assert(out@ =~= unpermuted(map@, v@).take(i as int));
    }
    assert(unpermuted(map@, v@).take(DIM as int) =~= unpermuted(map@, v@));
    out
}

} // verus!

verus! {

/// The axes `i < DIM` at which `a` and `b` hold the pair `x`.
pub open spec fn axes_with_pair<A, B>(a: Seq<A>, b: Seq<B>, x: (A, B)) -> Set<int> {
    vstd::set_lib::set_int_range(0, DIM as int).filter(|i: int| a[i] == x.0 && b[i] == x.1)
}

/// Applying one arrangement to two vectors keeps their pairs of values axis by
/// axis: every pair occurs at as many axes after as before, so sums over the
/// pairs (dot products, distances) are unchanged up to their order.
pub proof fn lemma_permute_keeps_pairs<A, B>(map: Seq<u16>, a: Seq<A>, b: Seq<B>, x: (A, B))
    requires
        is_axis_permutation(map),
        a.len() >= DIM,
        b.len() >= DIM,
    ensures
        axes_with_pair(permuted(map, a), permuted(map, b), x).finite(),
        axes_with_pair(permuted(map, a), permuted(map, b), x).len() == axes_with_pair(a, b, x).len(),
{
    let s = axes_with_pair(a, b, x);
    let t = axes_with_pair(permuted(map, a), permuted(map, b), x);
    let f = |i: int| map[i] as int;
    let range = vstd::set_lib::set_int_range(0, DIM as int);
    vstd::set_lib::lemma_int_range(0, DIM as int);
    range.lemma_len_filter(|i: int| a[i] == x.0 && b[i] == x.1);
    assert(vstd::relations::injective_on(f, s)) by {
        assert forall|p: int, q: int| s.contains(p) && s.contains(q) && #[trigger] f(p) == #[trigger] f(q) implies p == q by {
            if p != q {
                assert(map[p] != map[q]);
            }
        }
    }
    assert(s.map(f) =~= t) by {
        assert forall|j: int| s.map(f).contains(j) implies t.contains(j) by {
            let i = choose|i: int| s.contains(i) && f(i) == j;
            lemma_permuted_index(map, a, i);
            lemma_permuted_index(map, b, i);
        }
        assert forall|j: int| t.contains(j) implies s.map(f).contains(j) by {
            lemma_permutation_is_onto(map, j);
            let i = choose|i: int| 0 <= i < DIM && map[i] == j;
            lemma_permuted_index(map, a, i);
            lemma_permuted_index(map, b, i);
            assert(s.contains(i) && f(i) == j);
        }
    }
    vstd::set_lib::lemma_map_size(s, t, f);
}

} // verus!
