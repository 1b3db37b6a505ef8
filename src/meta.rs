//! The outer evolutionary loop over hyperparameters: which candidates a
//! generation makes, how a crossover mixes its parents, and how the scored
//! candidates are ranked. Scoring a candidate runs inner evolutions and is
//! left to the caller.

use vstd::prelude::*;
use rand::rngs::StdRng;
use crate::random::gen_index;

verus! {

/// How one new candidate of a meta generation is made from the current
/// population, which is sorted best first.
#[derive(Clone, Copy, Debug, PartialEq, Eq, Structural)]
pub enum Offspring {
    /// A mutation of the parameters of the entity of this rank.
    Mutate(usize),
    /// A crossover of the parameters of these two distinct ranks.
    Cross(usize, usize),
}

/// `o` names ranks of a population of `m` in the way `plan_generation` makes.
pub open spec fn offspring_ok(o: Offspring, m: nat) -> bool {
    match o {
        Offspring::Mutate(i) => i < m / 2,
        Offspring::Cross(a, b) => a < m && b < m && a != b,
    }
}

/// The candidates of one meta generation over a population of `m`, to
/// stand beside the best entity, which is kept: for each rank `i` in the
/// better half, with probability `(m - i) / m`, a mutation of it, in order of
/// rank; then crossovers of two distinct ranks drawn uniformly, until there
/// are `m - 1` candidates.
pub fn plan_generation(m: usize, rng: &mut StdRng) -> (r: Vec<Offspring>)
    requires
        m >= 1,
    ensures
        r.len() == m - 1,
        forall|k: int| 0 <= k < r.len() ==> offspring_ok(#[trigger] r[k], m as nat),
        forall|k: int, l: int|
            0 <= k < l < r.len() && r[l] is Mutate ==> (r[k] is Mutate && r[k]->Mutate_0 < r[l]->Mutate_0),
{
    let mut r: Vec<Offspring> = Vec::new();
    let mut i: usize = 0;
    while i < m / 2
        invariant
            i <= m / 2,
            r.len() <= i,
            forall|k: int| 0 <= k < r.len() ==> offspring_ok(#[trigger] r[k], m as nat),
            forall|k: int| 0 <= k < r.len() ==> (#[trigger] r[k]) is Mutate && r[k]->Mutate_0 < i,
            forall|k: int, l: int|
                0 <= k < l < r.len() ==> r[k]->Mutate_0 < r[l]->Mutate_0,
        decreases m / 2 - i,
    {
        if gen_index(rng, m) < m - i {
            r.push(Offspring::Mutate(i));
        }
        i += 1;
    }
    let ghost mutants = r.len();
    while r.len() < m - 1
        invariant
            m >= 1,
            mutants <= r.len() <= m - 1,
            forall|k: int| 0 <= k < r.len() ==> offspring_ok(#[trigger] r[k], m as nat),
            forall|k: int| 0 <= k < mutants ==> (#[trigger] r[k]) is Mutate,
            forall|k: int| mutants <= k < r.len() ==> (#[trigger] r[k]) is Cross,
            forall|k: int, l: int|
                0 <= k < l < mutants ==> r[k]->Mutate_0 < r[l]->Mutate_0,
        decreases m - 1 - r.len(),
    {
        let a = gen_index(rng, m);
        let b0 = gen_index(rng, m - 1);
        let b = if b0 >= a {
            b0 + 1
        } else {
            b0
        };
        r.push(Offspring::Cross(a, b));
    }
    r
}

/// Some parent holds `v` in field `f`.
pub open spec fn from_a_parent(parents: Seq<Vec<u32>>, f: int, v: u32) -> bool {
    exists|p: int| 0 <= p < parents.len() && parents[p]@[f] == v
}

/// Uniform-parent crossover: each field comes from a parent drawn uniformly
/// and independently, not from an average.
pub fn crossover(parents: &Vec<Vec<u32>>, rng: &mut StdRng) -> (r: Vec<u32>)
    requires
        parents.len() >= 1,
        forall|p: int| 0 <= p < parents.len() ==> (#[trigger] parents[p]).len() == parents[0].len(),
    ensures
        r.len() == parents[0].len(),
        forall|f: int| 0 <= f < r.len() ==> from_a_parent(parents@, f, #[trigger] r[f]),
{
    let n = parents[0].len();
    let mut r: Vec<u32> = Vec::new();
    let mut f: usize = 0;
    while f < n
        invariant
            n == parents[0].len(),
            f <= n,
            r.len() == f,
            forall|p: int| 0 <= p < parents.len() ==> (#[trigger] parents[p]).len() == n,
            parents.len() >= 1,
            forall|g: int| 0 <= g < f ==> from_a_parent(parents@, g, #[trigger] r[g]),
        decreases n - f,
    {
        let p = gen_index(rng, parents.len());
        let v = parents[p][f];
        assert(from_a_parent(parents@, f as int, v)) by {
            assert(parents@[p as int]@[f as int] == v);
        }
        r.push(v);
        f += 1;
    }
    r
}

/// Ranks ascend by key.
pub open spec fn ascending_by(order: Seq<usize>, keys: Seq<u32>) -> bool {
    forall|i: int, j: int| 0 <= i < j < order.len() ==> keys[order[i] as int] <= keys[order[j] as int]
}

/// The indices of the `keep` lowest keys (all of them where there are fewer),
/// lowest first; equal keys keep their order.
pub fn ranking(keys: &Vec<u32>, keep: usize) -> (r: Vec<usize>)
    ensures
        r.len() == if keys.len() < keep {
            keys.len()
        } else {
            keep
        },
        forall|i: int| 0 <= i < r.len() ==> #[trigger] r[i] < keys.len(),
        forall|i: int, j: int| 0 <= i < j < r.len() ==> r[i] != r[j],
        ascending_by(r@, keys@),
        r.len() > 0 ==> forall|j: int| 0 <= j < keys.len() ==> keys[r[0] as int] <= #[trigger] keys[j],
        r.len() > 0 ==> forall|j: usize|
            j < keys.len() && !r@.contains(j) ==> keys[r[r.len() - 1] as int] <= #[trigger] keys[j as int],
{
    let n = keys.len();
    let mut order: Vec<usize> = Vec::new();
    let mut m: usize = 0;
    while m < n
        invariant
            n == keys.len(),
            m <= n,
            order.len() == m,
            forall|i: int| 0 <= i < m ==> #[trigger] order[i] < m,
            forall|i: int, j: int| 0 <= i < j < m ==> order[i] != order[j],
            ascending_by(order@, keys@),
            m > 0 ==> forall|j: int| 0 <= j < m ==> keys[order[0] as int] <= #[trigger] keys[j],
            forall|j: usize| j < m ==> #[trigger] order@.contains(j),
        decreases n - m,
    {
        let k = keys[m];
        let mut p: usize = 0;
        while p < order.len() && keys[order[p]] <= k
            invariant
                n == keys.len(),
                p <= order.len(),
                forall|i: int| 0 <= i < order.len() ==> #[trigger] order[i] < n,
                forall|i: int| 0 <= i < p ==> keys[#[trigger] order[i] as int] <= k,
            decreases order.len() - p,
        {
            p += 1;
        }
        let ghost old_o = order@;
        order.insert(p, m);
        proof {
            assert forall|i: int, j: int| 0 <= i < j < order.len() implies keys[order[i] as int] <= keys[
                order[j] as int] by {
                if j < p {
                } else if j == p {
                } else if i < p {
                } else if i == p {
                    assert(keys[old_o[p as int] as int] > k);
                    assert(keys[old_o[p as int] as int] <= keys[old_o[j - 1] as int]);
                } else {
                }
            }
            assert forall|i: int, j: int| 0 <= i < j < m + 1 implies order[i] != order[j] by {
                if i < p && j < p {
                } else if i < p && j == p {
                } else if i < p && j > p {
                    assert(order[j] == old_o[j - 1]);
                } else if i == p {
                    assert(order[j] == old_o[j - 1]);
                } else {
                    assert(order[i] == old_o[i - 1]);
                    assert(order[j] == old_o[j - 1]);
                }
            }
            assert forall|i: int| 0 <= i < m + 1 implies #[trigger] order[i] < m + 1 by {
                if i < p {
                    assert(order[i] == old_o[i]);
                } else if i > p {
                    assert(order[i] == old_o[i - 1]);
                }
            }
            assert forall|j: usize| j < m + 1 implies #[trigger] order@.contains(j) by {
                if j == m {
                    assert(order@[p as int] == j);
                } else {
                    assert(old_o.contains(j));
                    let k = choose|k: int| 0 <= k < old_o.len() && old_o[k] == j;
                    if k < p {
                        assert(order@[k] == j);
                    } else {
                        assert(order@[k + 1] == j);
                    }
                }
            }
            assert forall|j: int| 0 <= j < m + 1 implies keys[order[0] as int] <= #[trigger] keys[j] by {
                if p > 0 && m > 0 {
                    assert(order[0] == old_o[0]);
                    if j == m {
                        assert(keys[old_o[0] as int] <= keys[old_o[p - 1] as int]);
                    }
                }
                if p == 0 && j < m {
                    assert(keys[old_o[0] as int] <= keys[j]);
                }
            }
        }
        m += 1;
    }
    let ghost full = order@;
    if keep < n {
        order.truncate(keep);
    }
    proof {
        if order.len() > 0 {
            assert forall|j: usize| j < keys.len() && !order@.contains(j) implies keys[order[order.len() - 1] as int]
                <= #[trigger] keys[j as int] by {
                assert(full.contains(j));
                let k = choose|k: int| 0 <= k < full.len() && full[k] == j;
                if k < order.len() {
                    assert(order@[k] == j);
                }
                assert(order[order.len() - 1] == full[order.len() - 1]);
            }
        }
    }
    order
}

} // verus!
