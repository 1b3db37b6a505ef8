//! An expression tree: the owner of a root node.

use vstd::prelude::*;
use rand::rngs::StdRng;
use crate::expression::{built_from_draws, built_size, evaluated, mutated_from, random_expression, simplified, ExpNode, Expr, SIZE_LIMIT};
use crate::numeric::{Arith, call1, meaning1, meaning2, pure_fn1, pure_fn2, INFINITY_BITS, ZERO_BITS};
use crate::random::{Chance, Draw};

verus! {

/// The value of `e` at `x` at the tree boundary: a value that is not finite
/// becomes zero.
pub open spec fn tree_value(e: Expr, x: u32, ar: spec_fn(Arith) -> u32) -> u32 {
    ar(Arith::Finite(evaluated(e, x, ar)))
}

/// The sum of the absolute errors of `e` on the first `n` samples, each an
/// `[x, y]` pair, added up in order from zero.
pub open spec fn error_sum(e: Expr, data: Seq<[u32; 2]>, n: nat, ar: spec_fn(Arith) -> u32) -> u32
    decreases n,
{
    if n == 0 || n > data.len() {
        ZERO_BITS
    } else {
        let s = data[n - 1];
        ar(
            Arith::Add(
                error_sum(e, data, (n - 1) as nat, ar),
                ar(Arith::Abs(ar(Arith::Sub(tree_value(e, s[0], ar), s[1])))),
            ),
        )
    }
}

/// The fitness of `e` on `data`, lower being better: the sum of absolute
/// errors plus the number of nodes; infinity for a tree over the size limit.
pub open spec fn fitness_of(e: Expr, data: Seq<[u32; 2]>, ar: spec_fn(Arith) -> u32) -> u32 {
    if e.count() > SIZE_LIMIT {
        INFINITY_BITS
    } else {
        ar(Arith::Add(error_sum(e, data, data.len(), ar), ar(Arith::Count(e.count() as u32))))
    }
}

/// A whole expression, owning its root node.
#[derive(Debug)]
pub struct ExpTree {
    root: ExpNode,
}

impl View for ExpTree {
    type V = Expr;

    closed spec fn view(&self) -> Expr {
        self.root@
    }
}

impl ExpTree {
    /// Every node of the tree keeps its cached size and depth right.
    pub closed spec fn wf(&self) -> bool {
        self.root.wf()
    }

    /// The tree with root `root`.
    pub fn new(root: ExpNode) -> (r: Self)
        requires
            root.wf(),
        ensures
            r.wf(),
            r@ == root@,
    {
        ExpTree { root }
    }

    /// A random tree of `size` nodes, at most `SIZE_LIMIT`; see
    /// `random_expression`.
    pub fn new_random<D: Fn(Draw) -> u32>(size: u32, rng: &mut StdRng, draw: &D) -> (r: Self)
        requires
            pure_fn1(*draw),
        ensures
            r.wf(),
            r@.count() == built_size(size),
            built_from_draws(r@, meaning1(*draw)),
    {
        ExpTree::new(random_expression(size, rng, draw))
    }

    /// The root node.
    pub fn root(&self) -> (r: &ExpNode)
        requires
            self.wf(),
        ensures
            r.wf(),
            r@ == self@,
    {
        &self.root
    }

    /// The value of the tree at `x`: the value of the root with a value that
    /// is not finite replaced by zero.
    pub fn eval<A: Fn(Arith) -> u32>(&self, x: u32, ar: &A) -> (r: u32)
        requires
            self.wf(),
            pure_fn1(*ar),
        ensures
            r == meaning1(*ar)(Arith::Finite(evaluated(self@, x, meaning1(*ar)))),
    {
        let v = self.root.eval(x, ar);
        call1(ar, Arith::Finite(v))
    }

    /// A copy of the tree.
    pub fn duplicate(&self) -> (r: Self)
        requires
            self.wf(),
        ensures
            r.wf(),
            r@ == self@,
    {
        ExpTree::new(self.root.duplicate())
    }

    /// The fitness on the samples `data`; see `fitness_of`.
    pub fn fitness<A: Fn(Arith) -> u32>(&self, data: &Vec<[u32; 2]>, ar: &A) -> (r: u32)
        requires
            self.wf(),
            pure_fn1(*ar),
        ensures
            r == fitness_of(self@, data@, meaning1(*ar)),
    {
        let size = self.size();
        if size > SIZE_LIMIT {
            return INFINITY_BITS;
        }
        let mut sum: u32 = ZERO_BITS;
        let mut i: usize = 0;
        while i < data.len()
            invariant
                self.wf(),
                pure_fn1(*ar),
                i <= data.len(),
                sum == error_sum(self@, data@, i as nat, meaning1(*ar)),
            decreases data.len() - i,
        {
            let s = data[i];
            let v = self.eval(s[0], ar);
            let d = call1(ar, Arith::Sub(v, s[1]));
            let a = call1(ar, Arith::Abs(d));
            sum = call1(ar, Arith::Add(sum, a));
            i += 1;
        }
        let n = call1(ar, Arith::Count(size));
        call1(ar, Arith::Add(sum, n))
    }

    /// The tree with its root mutated; see `ExpNode::mutate`.
    pub fn mutate<D: Fn(Draw) -> u32, C: Fn(Chance) -> bool>(
        &self,
        rng: &mut StdRng,
        draw: &D,
        chance: &C,
    ) -> (r: Self)
        requires
            self.wf(),
            self@.count() * SIZE_LIMIT <= u32::MAX,
            pure_fn1(*draw),
            pure_fn1(*chance),
        ensures
            r.wf(),
            r@.count() <= self@.count() * SIZE_LIMIT,
            mutated_from(r@, self@, self@.count(), meaning1(*draw), meaning1(*chance)),
            self@.count() >= SIZE_LIMIT ==> r@.count() == self@.count() && r@.height() == self@.height(),
    {
        ExpTree::new(self.root.mutate(self, rng, draw, chance))
    }

    /// The tree simplified; see `simplified`.
    pub fn simplify<A: Fn(Arith) -> u32, N: Fn(u32, u32) -> bool>(&self, ar: &A, near: &N) -> (r: Self)
        requires
            self.wf(),
            pure_fn1(*ar),
            pure_fn2(*near),
        ensures
            r.wf(),
            r@ == simplified(self@, meaning1(*ar), meaning2(*near)),
            r@.count() <= self@.count(),
    {
        ExpTree::new(self.root.simplify(ar, near))
    }

    /// The number of nodes on a longest path from the root to a leaf.
    pub fn depth(&self) -> (r: u32)
        requires
            self.wf(),
        ensures
            r as nat == self@.height(),
    {
        self.root.depth()
    }

    /// The number of nodes.
    pub fn size(&self) -> (r: u32)
        requires
            self.wf(),
        ensures
            r as nat == self@.count(),
    {
        self.root.size()
    }
}

} // verus!
