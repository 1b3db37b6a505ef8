//! The inner evolutionary loop: a population of expression trees, kept
//! sorted by fitness, renewed each generation by elitism, a cascade of
//! mutations of the better trees, and fresh random trees.

use vstd::prelude::*;
use vstd::multiset::Multiset;
use rand::rngs::StdRng;
use crate::expression::{
    built_from_draws, built_size, consts_canonical, folds_settle, lemma_simplified_settled, lemma_simplify_idempotent,
    mutated_from, simplified, Expr, SIZE_LIMIT,
};
use crate::numeric::{call1, order_key, order_key_of, Arith, Numerics};
use crate::random::{gen_index, gen_word, Chance, Draw};
use crate::tree::{fitness_of, tree_value, ExpTree};

verus! {

broadcast use vstd::multiset::group_multiset_axioms;

/// The largest tree that is mutated; a mutant of it still has a size that
/// fits in `u32`. A larger parent is copied instead.
pub const MUTABLE_SIZE: u32 = 8_388_607;

/// The sort key of `e`: the integer whose order is that of its fitness.
pub open spec fn key_of(e: Expr, data: Seq<[u32; 2]>, ar: spec_fn(Arith) -> u32) -> u32 {
    order_key_of(fitness_of(e, data, ar))
}

/// Keys in ascending order.
pub open spec fn sorted(keys: Seq<u32>) -> bool {
    forall|i: int, j: int| 0 <= i < j < keys.len() ==> keys[i] <= keys[j]
}

/// `e` is what simplification makes of some tree.
pub open spec fn is_simplification(e: Expr, ar: spec_fn(Arith) -> u32, near: spec_fn(u32, u32) -> bool) -> bool {
    exists|t: Expr| simplified(t, ar, near) == e
}

/// The trees are sorted by fitness on `data`: each key is the key of its
/// tree, and the keys ascend.
pub open spec fn ranked(pop: Seq<Expr>, keys: Seq<u32>, data: Seq<[u32; 2]>, ar: spec_fn(Arith) -> u32) -> bool {
    &&& pop.len() == keys.len()
    &&& sorted(keys)
    &&& forall|i: int| 0 <= i < pop.len() ==> keys[i] == key_of(#[trigger] pop[i], data, ar)
}

/// `m` is a fresh random tree of a size that the new-tree draw gave.
pub open spec fn fresh_from(m: Expr, dr: spec_fn(Draw) -> u32) -> bool {
    &&& built_from_draws(m, dr)
    &&& exists|w: u32| m.count() == built_size(#[trigger] dr(Draw::NewSize(w)))
}

/// `m` is a mutant of a member of `pop` (a whole tree), or a copy of a
/// member too large to mutate.
pub open spec fn mutant_of_member(m: Expr, pop: Seq<Expr>, dr: spec_fn(Draw) -> u32, ch: spec_fn(Chance) -> bool) -> bool {
    exists|j: int|
        0 <= j < pop.len() && (mutated_from(m, #[trigger] pop[j], pop[j].count(), dr, ch) || (pop[j].count()
            > MUTABLE_SIZE && m == pop[j]))
}

/// `b` is the simplification of a mutant of a member of `pop` or of a fresh
/// random tree.
pub open spec fn offspring_of(
    b: Expr,
    pop: Seq<Expr>,
    ar: spec_fn(Arith) -> u32,
    near: spec_fn(u32, u32) -> bool,
    dr: spec_fn(Draw) -> u32,
    ch: spec_fn(Chance) -> bool,
) -> bool {
    exists|m: Expr| b == #[trigger] simplified(m, ar, near) && (mutant_of_member(m, pop, dr, ch) || fresh_from(m, dr))
}

/// `b` is the simplification of a fresh random tree.
pub open spec fn born_fresh(b: Expr, ar: spec_fn(Arith) -> u32, near: spec_fn(u32, u32) -> bool, dr: spec_fn(Draw) -> u32) -> bool {
    exists|m: Expr| b == #[trigger] simplified(m, ar, near) && fresh_from(m, dr)
}

/// `m` is a tree a generation builds before simplifying: a mutant of a
/// member of `pop` or a fresh random tree.
pub open spec fn bred_from(m: Expr, pop: Seq<Expr>, dr: spec_fn(Draw) -> u32, ch: spec_fn(Chance) -> bool) -> bool {
    mutant_of_member(m, pop, dr, ch) || fresh_from(m, dr)
}

/// `built` is what one generation makes of the population `pop`, before
/// sorting: as many trees as `pop` has, the first the simplified best of
/// `pop`, each other the simplification of a mutant of a member or of a
/// fresh random tree.
pub open spec fn renewal(
    built: Seq<Expr>,
    pop: Seq<Expr>,
    ar: spec_fn(Arith) -> u32,
    near: spec_fn(u32, u32) -> bool,
    dr: spec_fn(Draw) -> u32,
    ch: spec_fn(Chance) -> bool,
) -> bool {
    &&& built.len() == pop.len()
    &&& built.len() >= 1
    &&& built[0] == simplified(pop[0], ar, near)
    &&& forall|i: int| 1 <= i < built.len() ==> offspring_of(#[trigger] built[i], pop, ar, near, dr, ch)
}

/// `e` stands at some index of `ts`.
pub open spec fn member_of(e: Expr, ts: Seq<Expr>) -> bool {
    exists|k: int| 0 <= k < ts.len() && ts[k] == e
}

/// The pair `(e, k)` stands at some index of `trees` and `keys`.
pub open spec fn pair_in(e: Expr, k: u32, trees: Seq<Expr>, keys: Seq<u32>) -> bool {
    exists|j: int| 0 <= j < trees.len() && trees[j] == e && keys[j] == k
}

/// The expressions of a sequence of trees.
pub open spec fn exprs(trees: Seq<ExpTree>) -> Seq<Expr> {
    trees.map_values(|t: ExpTree| t@)
}

proof fn lemma_empty_multiset()
    ensures
        Seq::<Expr>::empty().to_multiset() =~= Multiset::<Expr>::empty(),
{
    vstd::seq_lib::to_multiset_len(Seq::<Expr>::empty());
    vstd::multiset::lemma_multiset_empty_len(Seq::<Expr>::empty().to_multiset());
}

/// Sorts trees by their keys, ascending; trees of equal key keep their order.
fn sort_by_key(trees: Vec<ExpTree>, keys: Vec<u32>) -> (r: (Vec<ExpTree>, Vec<u32>))
    requires
        trees.len() == keys.len(),
        forall|i: int| 0 <= i < trees.len() ==> (#[trigger] trees[i]).wf(),
    ensures
        r.0.len() == trees.len(),
        r.1.len() == trees.len(),
        sorted(r.1@),
        forall|i: int|
            0 <= i < r.0.len() ==> (#[trigger] r.0[i]).wf() && pair_in(r.0[i]@, r.1[i], exprs(trees@), keys@),
        r.1.len() > 0 ==> forall|j: int| 0 <= j < keys.len() ==> r.1[0] <= #[trigger] keys[j],
        exprs(r.0@).to_multiset() == exprs(trees@).to_multiset(),
{
    let ghost in_trees = exprs(trees@);
    let ghost in_keys = keys@;
    let n = keys.len();
    let mut trees = trees;
    let mut keys = keys;
    let mut out_t: Vec<ExpTree> = Vec::new();
    let mut out_k: Vec<u32> = Vec::new();
    let mut m: usize = 0;
    proof {
        assert(in_trees.subrange(0, n as int) =~= in_trees);
        assert(exprs(out_t@) =~= Seq::<Expr>::empty());
        lemma_empty_multiset();
    }
    while m < n
        invariant
            n == in_keys.len(),
            n == in_trees.len(),
            m <= n,
            trees.len() == n - m,
            keys.len() == n - m,
            forall|j: int| 0 <= j < n - m ==> (#[trigger] trees[j]).wf() && trees[j]@ == in_trees[m + j],
            forall|j: int| 0 <= j < n - m ==> #[trigger] keys[j] == in_keys[m + j],
            out_t.len() == m,
            out_k.len() == m,
            sorted(out_k@),
            forall|i: int|
                0 <= i < m ==> (#[trigger] out_t[i]).wf() && pair_in(out_t[i]@, out_k[i], in_trees, in_keys),
            m > 0 ==> forall|j: int| 0 <= j < m ==> out_k[0] <= #[trigger] in_keys[j],
            exprs(out_t@).to_multiset().add(in_trees.subrange(m as int, n as int).to_multiset())
                == in_trees.to_multiset(),
        decreases n - m,
    {
        let t = trees.remove(0);
        let k = keys.remove(0);
        assert(t@ == in_trees[m as int] && k == in_keys[m as int]);
        let mut p: usize = 0;
        while p < out_k.len() && out_k[p] <= k
            invariant
                p <= out_k.len(),
                forall|i: int| 0 <= i < p ==> #[trigger] out_k[i] <= k,
            decreases out_k.len() - p,
        {
            p += 1;
        }
        let ghost old_t = out_t@;
        let ghost old_k = out_k@;
        let ghost x = t@;
        out_t.insert(p, t);
        out_k.insert(p, k);
        proof {
            let rest = in_trees.subrange(m + 1, n as int);
            assert(in_trees.subrange(m as int, n as int) =~= seq![x] + rest);
            vstd::seq_lib::lemma_multiset_commutative(seq![x], rest);
            assert(seq![x] =~= Seq::<Expr>::empty().push(x));
            vstd::seq_lib::to_multiset_build(Seq::<Expr>::empty(), x);
            lemma_empty_multiset();
            assert(exprs(out_t@) =~= exprs(old_t).insert(p as int, x));
            vstd::seq_lib::to_multiset_insert(exprs(old_t), p as int, x);
            assert(exprs(out_t@).to_multiset().add(rest.to_multiset()) =~= exprs(old_t).to_multiset().add(
                in_trees.subrange(m as int, n as int).to_multiset(),
            ));
            assert(pair_in(t@, k, in_trees, in_keys));
            assert forall|i: int, j: int| 0 <= i < j < out_k.len() implies out_k[i] <= out_k[j] by {
                if j < p {
                } else if j == p {
                } else if i < p {
                } else if i == p {
                    assert(old_k[p as int] > k);
                    assert(old_k[p as int] <= old_k[j - 1]);
                } else {
                }
            }
            assert forall|i: int| 0 <= i < m + 1 implies (#[trigger] out_t[i]).wf() && pair_in(
                out_t[i]@,
                out_k[i],
                in_trees,
                in_keys,
            ) by {
                if i < p {
                    assert(out_t[i] == old_t[i]);
                } else if i > p {
                    assert(out_t[i] == old_t[i - 1]);
                }
            }
            assert forall|j: int| 0 <= j < m + 1 implies out_k[0] <= #[trigger] in_keys[j] by {
                if p > 0 && m > 0 {
                    assert(out_k[0] == old_k[0]);
                    if j == m {
                        assert(old_k[0] <= old_k[p - 1]);
                    }
                }
                if p == 0 && j < m {
                    assert(old_k[0] <= in_keys[j]);
                    assert(k < old_k[0]);
                }
            }
            assert forall|j: int| 0 <= j < n - (m + 1) implies (#[trigger] trees[j]).wf() && trees[j]@ == in_trees[m
                + 1 + j] by {}
        }
        m += 1;
    }
    proof {
        assert(in_trees.subrange(n as int, n as int) =~= Seq::<Expr>::empty());
        lemma_empty_multiset();
        assert(exprs(out_t@).to_multiset().add(Multiset::<Expr>::empty()) =~= exprs(out_t@).to_multiset());
    }
    (out_t, out_k)
}

/// The state of one evolutionary run: the samples, the numerics that carry
/// the hyperparameters, and a population sorted by fitness.
pub struct Evolve<A, N, D, C> {
    pop: Vec<ExpTree>,
    keys: Vec<u32>,
    data: Vec<[u32; 2]>,
    num: Numerics<A, N, D, C>,
    total_iterations: usize,
    iters_to_best: usize,
}

impl<A: Fn(Arith) -> u32, N: Fn(u32, u32) -> bool, D: Fn(Draw) -> u32, C: Fn(Chance) -> bool> Evolve<A, N, D, C> {
    /// The population, best first.
    pub closed spec fn population(&self) -> Seq<Expr> {
        exprs(self.pop@)
    }

    /// The sort keys of the population, in the same order.
    pub closed spec fn fitness_keys(&self) -> Seq<u32> {
        self.keys@
    }

    /// The samples, each an `[x, y]` pair.
    pub closed spec fn samples(&self) -> Seq<[u32; 2]> {
        self.data@
    }

    /// The numerics of the run.
    pub closed spec fn numerics(&self) -> Numerics<A, N, D, C> {
        self.num
    }

    /// The number of generations run so far.
    pub closed spec fn generations(&self) -> nat {
        self.total_iterations as nat
    }

    /// The generation in which the best fitness last improved.
    pub closed spec fn best_found_at(&self) -> nat {
        self.iters_to_best as nat
    }

    /// The population is not empty, each key is the key of its tree, the keys
    /// ascend, and each tree is a simplification.
    pub closed spec fn wf(&self) -> bool {
        &&& self.num.ready()
        &&& self.pop.len() >= 1
        &&& self.keys.len() == self.pop.len()
        &&& self.data.len() >= 1
        &&& forall|i: int|
            0 <= i < self.pop.len() ==> {
                &&& (#[trigger] self.pop[i]).wf()
                &&& self.keys[i] == key_of(self.pop[i]@, self.data@, self.num.arith())
                &&& is_simplification(self.pop[i]@, self.num.arith(), self.num.nearness())
            }
        &&& sorted(self.keys@)
        &&& self.iters_to_best <= self.total_iterations
    }

    /// A first population of `population_num` random trees, each of a size
    /// drawn from the new-tree distribution and simplified, sorted by
    /// fitness on `data`. `None` where `data` or the population is empty.
    pub fn new(data: Vec<[u32; 2]>, population_num: usize, num: Numerics<A, N, D, C>, rng: &mut StdRng) -> (r: Option<Self>)
        requires
            num.ready(),
        ensures
            r is Some <==> data.len() >= 1 && population_num >= 1,
            r matches Some(e) ==> {
                &&& e.wf()
                &&& ranked(e.population(), e.fitness_keys(), data@, num.arith())
                &&& forall|i: int|
                    0 <= i < e.population().len() ==> born_fresh(#[trigger] e.population()[i], num.arith(), num.nearness(), num.draws())
                &&& e.population().len() == population_num
                &&& e.samples() == data@
                &&& e.numerics() == num
                &&& e.generations() == 0
                &&& e.best_found_at() == 0
            },
    {
        if data.len() == 0 || population_num == 0 {
            return None;
        }
        let mut trees: Vec<ExpTree> = Vec::new();
        let mut keys: Vec<u32> = Vec::new();
        let mut i: usize = 0;
        while i < population_num
            invariant
                num.ready(),
                i <= population_num,
                trees.len() == i,
                keys.len() == i,
                forall|j: int|
                    0 <= j < i ==> {
                        &&& (#[trigger] trees[j]).wf()
                        &&& keys[j] == key_of(trees[j]@, data@, num.arith())
                        &&& is_simplification(trees[j]@, num.arith(), num.nearness())
                        &&& born_fresh(trees[j]@, num.arith(), num.nearness(), num.draws())
                    },
            decreases population_num - i,
        {
            let f = Self::fresh_tree(&num, rng);
            let t = f.simplify(&num.ar, &num.near);
            assert(born_fresh(t@, num.arith(), num.nearness(), num.draws())) by {
                assert(t@ == simplified(f@, num.arith(), num.nearness()));
            }
            let k = order_key(t.fitness(&data, &num.ar));
            trees.push(t);
            keys.push(k);
            i += 1;
        }
        let ghost ts = exprs(trees@);
        let (pop, keys) = Self::rank(trees, keys, &data, &num);
        let e = Evolve { pop, keys, data, num, total_iterations: 0, iters_to_best: 0 };
        proof {
            assert forall|i: int| 0 <= i < e.population().len() implies born_fresh(#[trigger] e.population()[i], num.arith(), num.nearness(), num.draws()) by {
                assert(e.population()[i] == e.pop[i]@);
                assert(member_of(e.pop[i]@, ts));
                let k = choose|k: int| 0 <= k < ts.len() && ts[k] == e.pop[i]@;
                assert(ts[k] == trees[k]@);
            }
        }
        Some(e)
    }

    /// Advances `iterations` generations; see `generation`. The population
    /// stays sorted by fitness; zero generations change nothing; the best
    /// fitness does not worsen where folds settle (so that simplifying the
    /// best tree again keeps it); the generation of the last improvement only
    /// moves forward, into the generations run here.
    pub fn step(&mut self, iterations: usize, rng: &mut StdRng)
        requires
            old(self).wf(),
            old(self).generations() + iterations <= usize::MAX,
        ensures
            final(self).wf(),
            final(self).population().len() == old(self).population().len(),
            final(self).samples() == old(self).samples(),
            final(self).numerics() == old(self).numerics(),
            final(self).generations() == old(self).generations() + iterations,
            ranked(final(self).population(), final(self).fitness_keys(), final(self).samples(), final(self).numerics().arith()),
            iterations == 0 ==> final(self).population() == old(self).population() && final(self).fitness_keys()
                == old(self).fitness_keys() && final(self).best_found_at() == old(self).best_found_at(),
            folds_settle(old(self).numerics().arith(), old(self).numerics().nearness()) ==> final(self).fitness_keys()[0]
                <= old(self).fitness_keys()[0],
            old(self).best_found_at() <= final(self).best_found_at(),
            final(self).best_found_at() != old(self).best_found_at() ==> old(self).generations()
                <= final(self).best_found_at() < final(self).generations(),
            final(self).fitness_keys()[0] < old(self).fitness_keys()[0] ==> old(self).generations()
                <= final(self).best_found_at(),
            iterations == 1 && final(self).fitness_keys()[0] < old(self).fitness_keys()[0] ==> final(self).best_found_at()
                == old(self).generations(),
            iterations == 1 && final(self).fitness_keys()[0] >= old(self).fitness_keys()[0] ==> final(self).best_found_at()
                == old(self).best_found_at(),
    {
        let mut c: usize = 0;
        while c < iterations
            invariant
                c <= iterations,
                self.wf(),
                self.population().len() == old(self).population().len(),
                self.samples() == old(self).samples(),
                self.numerics() == old(self).numerics(),
                self.generations() == old(self).generations() + c,
                old(self).generations() + iterations <= usize::MAX,
                c == 0 ==> self.population() == old(self).population() && self.fitness_keys() == old(self).fitness_keys()
                    && self.best_found_at() == old(self).best_found_at(),
                folds_settle(old(self).numerics().arith(), old(self).numerics().nearness()) ==> self.fitness_keys()[0]
                    <= old(self).fitness_keys()[0],
                old(self).best_found_at() <= self.best_found_at(),
                self.best_found_at() != old(self).best_found_at() ==> old(self).generations() <= self.best_found_at()
                    < self.generations(),
                self.fitness_keys()[0] < old(self).fitness_keys()[0] ==> old(self).generations() <= self.best_found_at(),
                c == 1 && self.fitness_keys()[0] < old(self).fitness_keys()[0] ==> self.best_found_at()
                    == old(self).generations(),
                c == 1 && self.fitness_keys()[0] >= old(self).fitness_keys()[0] ==> self.best_found_at()
                    == old(self).best_found_at(),
            decreases iterations - c,
        {
            self.generation(rng);
            c += 1;
        }
    }

    /// One generation. The new population keeps the best tree; it is filled
    /// by sweeps over the ranks `i`, each starting with probability
    /// `(N - i) / N` a run of mutants of the tree of rank `i` (the first
    /// always, each further one while `RepeatMutation` comes up, at most `N`),
    /// and between sweeps a sweep that adds a fresh random tree at rank `i`
    /// where `Insert` comes up. Then every tree is simplified and all are
    /// sorted by fitness. The best fitness does not worsen where the old best
    /// tree has only constants that rounding keeps.
    pub fn generation(&mut self, rng: &mut StdRng)
        requires
            old(self).wf(),
            old(self).generations() < usize::MAX,
        ensures
            final(self).wf(),
            ranked(final(self).population(), final(self).fitness_keys(), final(self).samples(), final(self).numerics().arith()),
            exists|built: Seq<Expr>|
                {
                    &&& renewal(
                        built,
                        old(self).population(),
                        old(self).numerics().arith(),
                        old(self).numerics().nearness(),
                        old(self).numerics().draws(),
                        old(self).numerics().coins(),
                    )
                    &&& #[trigger] built.to_multiset() == final(self).population().to_multiset()
                },
            final(self).population().len() == old(self).population().len(),
            final(self).samples() == old(self).samples(),
            final(self).numerics() == old(self).numerics(),
            final(self).generations() == old(self).generations() + 1,
            consts_canonical(old(self).population()[0], old(self).numerics().arith(), old(self).numerics().nearness())
                ==> final(self).fitness_keys()[0] <= old(self).fitness_keys()[0],
            folds_settle(old(self).numerics().arith(), old(self).numerics().nearness()) ==> final(self).fitness_keys()[0]
                <= old(self).fitness_keys()[0],
            final(self).fitness_keys()[0] < old(self).fitness_keys()[0] ==> final(self).best_found_at()
                == old(self).generations(),
            final(self).fitness_keys()[0] >= old(self).fitness_keys()[0] ==> final(self).best_found_at()
                == old(self).best_found_at(),
    {
        let n = self.pop.len();
        let mut q: Vec<ExpTree> = Vec::new();
        q.push(self.pop[0].duplicate());
        let mut full = n == 1;
        while !full
            invariant
                self.wf(),
                n == self.pop.len(),
                1 <= q.len() <= n,
                full == (q.len() == n),
                q[0]@ == self.pop[0]@,
                forall|j: int| 1 <= j < q.len() ==> bred_from((#[trigger] q[j])@, self.population(), self.num.draws(), self.num.coins()),
                forall|j: int| 0 <= j < q.len() ==> (#[trigger] q[j]).wf(),
            decreases n - q.len(),
        {
            let ghost before = q.len();
            let mut i: usize = 0;
            while i < n && !full
                invariant
                    self.wf(),
                    n == self.pop.len(),
                    i <= n,
                    1 <= before <= q.len() <= n,
                    full == (q.len() == n),
                    i >= 1 ==> q.len() > before,
                    q[0]@ == self.pop[0]@,
                forall|j: int| 1 <= j < q.len() ==> bred_from((#[trigger] q[j])@, self.population(), self.num.draws(), self.num.coins()),
                    forall|j: int| 0 <= j < q.len() ==> (#[trigger] q[j]).wf(),
                decreases n - i,
            {
                if gen_index(rng, n) < n - i {
                    let mut j: usize = 0;
                    let mut go = true;
                    let ghost start = q.len();
                    while go && !full
                        invariant
                            self.wf(),
                            n == self.pop.len(),
                            i < n,
                            j <= n,
                            1 <= start <= q.len() <= n,
                            full == (q.len() == n),
                            !go ==> j >= 1,
                            go ==> j < n,
                            j >= 1 ==> q.len() > start,
                            q[0]@ == self.pop[0]@,
                forall|j: int| 1 <= j < q.len() ==> bred_from((#[trigger] q[j])@, self.population(), self.num.draws(), self.num.coins()),
                            forall|k: int| 0 <= k < q.len() ==> (#[trigger] q[k]).wf(),
                        decreases 2 * (n - j) + if go { 1int } else { 0int },
                    {
                        let more = if j == 0 {
                            true
                        } else {
                            let w = gen_word(rng);
                            call1(&self.num.chance, Chance::RepeatMutation(#[verifier::truncate] (i as u32), w))
                        };
                        if more {
                            let m = self.mutant(i, rng);
                            q.push(m);
                            assert(q[q.len() - 1] == m);
                            full = q.len() == n;
                            j += 1;
                            if j == n {
                                go = false;
                            }
                        } else {
                            go = false;
                        }
                    }
                }
                i += 1;
            }
            let mut i: usize = 0;
            while i < n && !full
                invariant
                    self.wf(),
                    n == self.pop.len(),
                    i <= n,
                    1 <= before < q.len() <= n,
                    full == (q.len() == n),
                    q[0]@ == self.pop[0]@,
                forall|j: int| 1 <= j < q.len() ==> bred_from((#[trigger] q[j])@, self.population(), self.num.draws(), self.num.coins()),
                    forall|j: int| 0 <= j < q.len() ==> (#[trigger] q[j]).wf(),
                decreases n - i,
            {
                let w = gen_word(rng);
                if call1(&self.num.chance, Chance::Insert(#[verifier::truncate] (i as u32), w)) {
                    let t = Self::fresh_tree(&self.num, rng);
                    q.push(t);
                    assert(q[q.len() - 1] == t);
                    full = q.len() == n;
                }
                i += 1;
            }
        }
        let ghost ar = self.num.arith();
        let ghost near = self.num.nearness();
        let mut trees: Vec<ExpTree> = Vec::new();
        let mut keys: Vec<u32> = Vec::new();
        let mut i: usize = 0;
        while i < n
            invariant
                self.wf(),
                n == self.pop.len(),
                q.len() == n,
                q[0]@ == self.pop[0]@,
                forall|j: int| 1 <= j < q.len() ==> bred_from((#[trigger] q[j])@, self.population(), self.num.draws(), self.num.coins()),
                forall|j: int| 0 <= j < q.len() ==> (#[trigger] q[j]).wf(),
                i <= n,
                trees.len() == i,
                keys.len() == i,
                ar == self.num.arith(),
                near == self.num.nearness(),
                forall|j: int| 0 <= j < i ==> (#[trigger] trees[j])@ == simplified(q[j]@, ar, near),
                forall|j: int|
                    0 <= j < i ==> {
                        &&& (#[trigger] trees[j]).wf()
                        &&& keys[j] == key_of(trees[j]@, self.data@, ar)
                        &&& is_simplification(trees[j]@, ar, near)
                    },
            decreases n - i,
        {
            let t = q[i].simplify(&self.num.ar, &self.num.near);
            let k = order_key(t.fitness(&self.data, &self.num.ar));
            assert(is_simplification(t@, ar, near)) by {
                assert(simplified(q[i as int]@, ar, near) == t@);
            }
            trees.push(t);
            keys.push(k);
            i += 1;
        }
        let ghost elite_key = keys[0];
        let ghost built = exprs(trees@);
        let ghost old_pop = self.population();
        proof {
            assert forall|i: int| 1 <= i < built.len() implies offspring_of(#[trigger] built[i], old_pop, ar, near, self.num.draws(), self.num.coins()) by {
                assert(built[i] == trees[i]@);
                assert(trees[i]@ == simplified(q[i]@, ar, near));
                assert(bred_from(q[i]@, old_pop, self.num.draws(), self.num.coins()));
            }
            assert(built[0] == trees[0]@);
            assert(renewal(built, old_pop, ar, near, self.num.draws(), self.num.coins()));
        }
        let (pop, keys) = Self::rank(trees, keys, &self.data, &self.num);
        proof {
            assert(keys[0] <= elite_key);
            let b = self.pop[0]@;
            if folds_settle(ar, near) {
                let t0 = choose|t: Expr| simplified(t, ar, near) == b;
                lemma_simplified_settled(t0, ar, near);
            }
            if consts_canonical(b, ar, near) {
                let t0 = choose|t: Expr| simplified(t, ar, near) == b;
                lemma_simplify_idempotent(t0, ar, near);
            }
        }
        if keys[0] < self.keys[0] {
            self.iters_to_best = self.total_iterations;
        }
        self.pop = pop;
        self.keys = keys;
        self.total_iterations = self.total_iterations + 1;
    }

    /// A mutant of the tree of rank `i`, or a copy where that tree is too
    /// large to mutate.
    fn mutant(&self, i: usize, rng: &mut StdRng) -> (r: ExpTree)
        requires
            self.wf(),
            i < self.pop.len(),
        ensures
            r.wf(),
            mutant_of_member(r@, self.population(), self.num.draws(), self.num.coins()),
    {
        let p = &self.pop[i];
        let r = if p.size() <= MUTABLE_SIZE {
            p.mutate(rng, &self.num.draw, &self.num.chance)
        } else {
            p.duplicate()
        };
        assert(self.population()[i as int] == p@);
        r
    }

    /// The fitness of the best tree.
    pub fn best_fitness(&self) -> (r: u32)
        requires
            self.wf(),
        ensures
            r == fitness_of(self.population()[0], self.samples(), self.numerics().arith()),
    {
        self.pop[0].fitness(&self.data, &self.num.ar)
    }

    /// The value of the best tree at `x`.
    pub fn best_eval(&self, x: u32) -> (r: u32)
        requires
            self.wf(),
        ensures
            r == tree_value(self.population()[0], x, self.numerics().arith()),
    {
        self.pop[0].eval(x, &self.num.ar)
    }

    /// The best tree.
    pub fn best_individual(&self) -> (r: &ExpTree)
        requires
            self.wf(),
        ensures
            r.wf(),
            r@ == self.population()[0],
    {
        &self.pop[0]
    }

    /// The generation in which the best fitness last improved.
    pub fn iters_to_best(&self) -> (r: usize)
        ensures
            r == self.best_found_at(),
    {
        self.iters_to_best
    }

    /// The number of generations run so far.
    pub fn total_iterations(&self) -> (r: usize)
        ensures
            r == self.generations(),
    {
        self.total_iterations
    }

    /// The population, best first.
    pub fn members(&self) -> (r: &[ExpTree])
        requires
            self.wf(),
        ensures
            exprs(r@) == self.population(),
            forall|i: int| 0 <= i < r@.len() ==> (#[trigger] r@[i]).wf(),
    {
        self.pop.as_slice()
    }

    /// A random tree of a size drawn from the new-tree distribution.
    fn fresh_tree(num: &Numerics<A, N, D, C>, rng: &mut StdRng) -> (r: ExpTree)
        requires
            num.ready(),
        ensures
            r.wf(),
            fresh_from(r@, num.draws()),
    {
        let w = gen_word(rng);
        let size = call1(&num.draw, Draw::NewSize(w));
        let r = ExpTree::new_random(size, rng, &num.draw);
        assert(r@.count() == built_size(num.draws()(Draw::NewSize(w))));
        r
    }

    /// Sorts trees by key, keeping what is known of each.
    fn rank(trees: Vec<ExpTree>, keys: Vec<u32>, data: &Vec<[u32; 2]>, num: &Numerics<A, N, D, C>) -> (r: (
        Vec<ExpTree>,
        Vec<u32>,
    ))
        requires
            trees.len() == keys.len(),
            forall|j: int|
                0 <= j < trees.len() ==> {
                    &&& (#[trigger] trees[j]).wf()
                    &&& keys[j] == key_of(trees[j]@, data@, num.arith())
                    &&& is_simplification(trees[j]@, num.arith(), num.nearness())
                },
        ensures
            r.0.len() == trees.len(),
            r.1.len() == trees.len(),
            sorted(r.1@),
            forall|j: int|
                0 <= j < r.0.len() ==> {
                    &&& (#[trigger] r.0[j]).wf()
                    &&& r.1[j] == key_of(r.0[j]@, data@, num.arith())
                    &&& is_simplification(r.0[j]@, num.arith(), num.nearness())
                },
            r.1.len() > 0 ==> forall|j: int| 0 <= j < keys.len() ==> r.1[0] <= #[trigger] keys[j],
            exprs(r.0@).to_multiset() == exprs(trees@).to_multiset(),
            forall|j: int| 0 <= j < r.0.len() ==> member_of((#[trigger] r.0[j])@, exprs(trees@)),
    {
        let ghost ts = exprs(trees@);
        let ghost ks = keys@;
        let r = sort_by_key(trees, keys);
        proof {
            assert forall|j: int| 0 <= j < r.0.len() implies {
                &&& (#[trigger] r.0[j]).wf()
                &&& r.1[j] == key_of(r.0[j]@, data@, num.arith())
                &&& is_simplification(r.0[j]@, num.arith(), num.nearness())
            } by {
                assert(pair_in(r.0[j]@, r.1[j], ts, ks));
                let w = choose|w: int| 0 <= w < ts.len() && ts[w] == r.0[j]@ && ks[w] == r.1[j];
                assert(ts[w] == trees[w]@);
            }
            assert forall|j: int| 0 <= j < r.0.len() implies member_of((#[trigger] r.0[j])@, exprs(trees@)) by {
                assert(pair_in(r.0[j]@, r.1[j], ts, ks));
            }
        }
        r
    }
}

} // verus!
