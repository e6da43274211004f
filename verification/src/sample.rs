use vstd::prelude::*;
use vstd::relations::{sorted_by, total_ordering};
use vstd::seq_lib::lemma_sorted_unique;

verus! {

broadcast use vstd::seq_lib::group_to_multiset_ensures;

/// The indices the seeded sampler draws for bounds `n` and `k`: a pure
/// function of its three arguments.
pub uninterp spec fn sample_of(seed: u64, n: int, k: int) -> Seq<usize>;

/// The ordering under which sampled indices are emitted.
pub open spec fn usize_leq() -> spec_fn(usize, usize) -> bool {
    |a: usize, b: usize| a <= b
}

/// The sampled subset in ascending order.
pub open spec fn sorted_sample(seed: u64, n: int, k: int) -> Seq<usize> {
    sample_of(seed, n, k).sort_by(usize_leq())
}

pub proof fn lemma_usize_leq_total()
    ensures
        total_ordering(usize_leq()),
{
}

/// Determinism law: the sorted sample is a function of the seed and the
/// two bounds, so any two draws with identical arguments are identical.
pub proof fn lemma_sample_deterministic(seed: u64, n: int, k: int, r1: Seq<usize>, r2: Seq<usize>)
    requires
        r1 == sorted_sample(seed, n, k),
        r2 == sorted_sample(seed, n, k),
    ensures
        r1 == r2,
{
}

/// Relies on rand::seq::index::sample over a StdRng built by
/// SeedableRng::seed_from_u64: it draws exactly `k` distinct indices from
/// `0..n`, and panics when `k > n`, so that case is required away. Both
/// the seed expansion and the draw are deterministic, which is what lets
/// the result carry the name `sample_of`.
#[verifier::external_body]
fn sample_indices(seed: u64, n: usize, k: usize) -> (r: Vec<usize>)
    requires
        k <= n,
    ensures
        r@ == sample_of(seed, n as int, k as int),
        r@.len() == k,
        forall|i: int| 0 <= i < r@.len() ==> (#[trigger] r@[i]) < n,
        forall|i: int, j: int| 0 <= i < j < r@.len() ==> r@[i] != r@[j],
{
    let mut rng: rand::rngs::StdRng = rand::SeedableRng::seed_from_u64(seed);
    rand::seq::index::sample(&mut rng, n, k).into_vec()
}

/// Sort into ascending order by repeatedly moving the least remaining
/// element across.
fn sort_usize(v: Vec<usize>) -> (r: Vec<usize>)
    ensures
        r@.to_multiset() == v@.to_multiset(),
        sorted_by(r@, usize_leq()),
{
    let mut src = v;
    let mut out: Vec<usize> = Vec::new();
    proof {
        assert(out@.to_multiset().add(src@.to_multiset()) =~= v@.to_multiset());
    }
    while src.len() > 0
        invariant
            out@.to_multiset().add(src@.to_multiset()) == v@.to_multiset(),
            sorted_by(out@, usize_leq()),
            forall|a: int, b: int|
                0 <= a < out@.len() && 0 <= b < src@.len() ==> out@[a] <= src@[b],
        decreases src@.len(),
    {
        let mut m: usize = 0;
        let mut t: usize = 1;
        while t < src.len()
            invariant
                src@.len() > 0,
                m < t,
                t <= src@.len(),
                forall|x: int| 0 <= x < t ==> src@[m as int] <= (#[trigger] src@[x]),
            decreases src@.len() - t,
        {
            if src[t] < src[m] {
                m = t;
            }
            t = t + 1;
        }
        let ghost old_out = out@;
        let ghost old_src = src@;
        let x = src.remove(m);
        out.push(x);
        proof {
            assert(out@.to_multiset() =~= old_out.to_multiset().insert(x));
            assert(src@.to_multiset() =~= old_src.to_multiset().remove(x));
            assert(old_src.to_multiset().count(x) > 0) by {
                assert(old_src.contains(x));
            }
            assert(out@.to_multiset().add(src@.to_multiset()) =~= v@.to_multiset());
            assert forall|a: int, b: int|
                0 <= a < out@.len() && 0 <= b < src@.len() implies out@[a] <= src@[b] by {
                assert(src@[b] == old_src[if b < m {
                    b
                } else {
                    b + 1
                }]);
                if a < old_out.len() {
                } else {
                    assert(out@[a] == x);
                }
            }
            assert forall|a: int, b: int|
                0 <= a < b < out@.len() implies (usize_leq())(out@[a], out@[b]) by {
                if b < old_out.len() {
                } else {
                    assert(out@[b] == x);
                    assert(old_out.len() == 0 || out@[a] <= old_src[m as int]);
                }
            }
        }
    }
    proof {
        assert forall|x: usize| true implies src@.to_multiset().count(x) == 0 by {
            assert(!src@.contains(x));
        }
        assert(out@.to_multiset().add(src@.to_multiset()) =~= out@.to_multiset());
    }
    out
}

/// Draw `k` distinct indices below `n` for the given seed and return them
/// in ascending order: exactly the sequence `sorted_sample` names.
pub fn sample_sorted(seed: u64, n: usize, k: usize) -> (r: Vec<usize>)
    requires
        k <= n,
    ensures
        r@ == sorted_sample(seed, n as int, k as int),
        r@.len() == k,
        forall|i: int| 0 <= i < r@.len() ==> (#[trigger] r@[i]) < n,
        forall|i: int, j: int| 0 <= i < j < r@.len() ==> r@[i] < r@[j],
{
    let v = sample_indices(seed, n, k);
    let ghost sv = v@;
    let r = sort_usize(v);
    proof {
        lemma_usize_leq_total();
        sv.lemma_sort_by_ensures(usize_leq());
        lemma_sorted_unique(r@, sv.sort_by(usize_leq()), usize_leq());
        assert(r@ == sorted_sample(seed, n as int, k as int));
        assert(r@.len() == sv.to_multiset().len());
        assert(sv.to_multiset().len() == sv.len());
        assert forall|i: int| 0 <= i < r@.len() implies (#[trigger] r@[i]) < n by {
            assert(r@.contains(r@[i]));
            assert(r@.to_multiset().count(r@[i]) > 0);
            assert(sv.contains(r@[i]));
            let w = choose|w: int| 0 <= w < sv.len() && sv[w] == r@[i];
            assert(sv[w] < n);
        }
        assert(sv.no_duplicates()) by {
            assert forall|i: int, j: int|
                0 <= i < sv.len() && 0 <= j < sv.len() && i != j implies sv[i] != sv[j] by {
                if i < j {
                } else {
                    assert(sv[j] != sv[i]);
                }
            }
        }
        sv.lemma_multiset_has_no_duplicates();
        r@.lemma_multiset_has_no_duplicates_conv();
        assert forall|i: int, j: int| 0 <= i < j < r@.len() implies r@[i] < r@[j] by {
            assert((usize_leq())(r@[i], r@[j]));
            assert(r@[i] != r@[j]);
        }
    }
    r
}

} // verus!
