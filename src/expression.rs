//! Expression trees over one variable: the node type with its cached size
//! and depth, construction, evaluation and algebraic simplification.

use vstd::prelude::*;
use rand::rngs::StdRng;
use crate::numeric::{Arith, call1, call2, pure_fn1, pure_fn2, meaning1, meaning2, ONE_BITS, ZERO_BITS};
use crate::random::{gen_index, gen_word, Chance, Draw};
use crate::tree::ExpTree;

verus! {

/// The largest number of nodes an expression built or mutated here may have.
pub const SIZE_LIMIT: u32 = 512;

/// The operator at a node. `Exp` raises its first child to the power of its
/// second; `Log` takes the logarithm of its second child in the base of its
/// first. A constant holds the bit pattern of its value.
#[derive(Clone, Copy, Debug, PartialEq, Eq, Structural)]
pub enum ExpNodeOp {
    Add,
    Mul,
    Exp,
    Log,
    Sin,
    Var,
    Const(u32),
}

/// How many children a node with this operator has.
pub open spec fn arity(op: ExpNodeOp) -> nat {
    match op {
        ExpNodeOp::Add | ExpNodeOp::Mul | ExpNodeOp::Exp | ExpNodeOp::Log => 2,
        ExpNodeOp::Sin => 1,
        ExpNodeOp::Var | ExpNodeOp::Const(_) => 0,
    }
}

impl ExpNodeOp {
    /// Whether this is a constant.
    pub fn is_const(self) -> (r: bool)
        ensures
            r == self is Const,
    {
        if let ExpNodeOp::Const(_) = self {
            true
        } else {
            false
        }
    }

    /// Whether nodes with this operator are leaves.
    pub fn is_nullary(self) -> (r: bool)
        ensures
            r == (arity(self) == 0),
    {
        self == ExpNodeOp::Var || self.is_const()
    }

    /// Whether nodes with this operator have one child.
    pub fn is_unary(self) -> (r: bool)
        ensures
            r == (arity(self) == 1),
    {
        self == ExpNodeOp::Sin
    }

    /// Whether nodes with this operator have two children.
    pub fn is_binary(self) -> (r: bool)
        ensures
            r == (arity(self) == 2),
    {
        match self {
            ExpNodeOp::Add | ExpNodeOp::Mul | ExpNodeOp::Exp | ExpNodeOp::Log => true,
            _ => false,
        }
    }
}

/// The mathematical value of an expression tree.
pub enum Expr {
    Var,
    Const(u32),
    Add(Box<Expr>, Box<Expr>),
    Mul(Box<Expr>, Box<Expr>),
    Exp(Box<Expr>, Box<Expr>),
    Log(Box<Expr>, Box<Expr>),
    Sin(Box<Expr>),
}

impl Expr {
    /// The number of nodes.
    pub open spec fn count(self) -> nat
        decreases self,
    {
        match self {
            Expr::Var | Expr::Const(_) => 1,
            Expr::Sin(a) => 1 + a.count(),
            Expr::Add(a, b) | Expr::Mul(a, b) | Expr::Exp(a, b) | Expr::Log(a, b) => 1
                + a.count() + b.count(),
        }
    }

    /// The number of nodes on a longest path from the root to a leaf.
    pub open spec fn height(self) -> nat
        decreases self,
    {
        match self {
            Expr::Var | Expr::Const(_) => 1,
            Expr::Sin(a) => 1 + a.height(),
            Expr::Add(a, b) | Expr::Mul(a, b) | Expr::Exp(a, b) | Expr::Log(a, b) => 1
                + if a.height() >= b.height() {
                a.height()
            } else {
                b.height()
            },
        }
    }

    /// The operator at the root.
    pub open spec fn op(self) -> ExpNodeOp {
        match self {
            Expr::Var => ExpNodeOp::Var,
            Expr::Const(c) => ExpNodeOp::Const(c),
            Expr::Add(_, _) => ExpNodeOp::Add,
            Expr::Mul(_, _) => ExpNodeOp::Mul,
            Expr::Exp(_, _) => ExpNodeOp::Exp,
            Expr::Log(_, _) => ExpNodeOp::Log,
            Expr::Sin(_) => ExpNodeOp::Sin,
        }
    }

    /// The first child, where there is one.
    pub open spec fn left(self) -> Expr {
        match self {
            Expr::Sin(a) => *a,
            Expr::Add(a, _) | Expr::Mul(a, _) | Expr::Exp(a, _) | Expr::Log(a, _) => *a,
            _ => Expr::Var,
        }
    }

    /// The second child, where there is one.
    pub open spec fn right(self) -> Expr {
        match self {
            Expr::Add(_, b) | Expr::Mul(_, b) | Expr::Exp(_, b) | Expr::Log(_, b) => *b,
            _ => Expr::Var,
        }
    }
}

/// The tree with operator `op` at the root over children `a` and `b`; a
/// unary operator takes `a` alone, a nullary one neither.
pub open spec fn compose(op: ExpNodeOp, a: Expr, b: Expr) -> Expr {
    match op {
        ExpNodeOp::Add => Expr::Add(Box::new(a), Box::new(b)),
        ExpNodeOp::Mul => Expr::Mul(Box::new(a), Box::new(b)),
        ExpNodeOp::Exp => Expr::Exp(Box::new(a), Box::new(b)),
        ExpNodeOp::Log => Expr::Log(Box::new(a), Box::new(b)),
        ExpNodeOp::Sin => Expr::Sin(Box::new(a)),
        ExpNodeOp::Var => Expr::Var,
        ExpNodeOp::Const(c) => Expr::Const(c),
    }
}

/// A tree is at least one node high and no higher than it has nodes.
pub proof fn lemma_height_le_count(e: Expr)
    ensures
        1 <= e.height() <= e.count(),
    decreases e,
{
    match e {
        Expr::Var | Expr::Const(_) => {},
        Expr::Sin(a) => lemma_height_le_count(*a),
        Expr::Add(a, b) | Expr::Mul(a, b) | Expr::Exp(a, b) | Expr::Log(a, b) => {
            lemma_height_le_count(*a);
            lemma_height_le_count(*b);
        },
    }
}

/// The value of `e` at `x`, where `ar` gives the floating-point operations:
/// each node applies its operation to the values of its children, and any
/// value that is not finite is replaced by zero where it arises.
pub open spec fn evaluated(e: Expr, x: u32, ar: spec_fn(Arith) -> u32) -> u32
    decreases e,
{
    match e {
        Expr::Var => ar(Arith::Finite(x)),
        Expr::Const(c) => ar(Arith::Finite(c)),
        Expr::Add(a, b) => ar(Arith::Finite(ar(Arith::Add(evaluated(*a, x, ar), evaluated(*b, x, ar))))),
        Expr::Mul(a, b) => ar(Arith::Finite(ar(Arith::Mul(evaluated(*a, x, ar), evaluated(*b, x, ar))))),
        Expr::Exp(a, b) => ar(Arith::Finite(ar(Arith::Pow(evaluated(*a, x, ar), evaluated(*b, x, ar))))),
        Expr::Log(a, b) => ar(Arith::Finite(ar(Arith::Log(evaluated(*a, x, ar), evaluated(*b, x, ar))))),
        Expr::Sin(a) => ar(Arith::Finite(ar(Arith::Sin(evaluated(*a, x, ar))))),
    }
}

/// A constant as simplification leaves it: its rounded value where `near`
/// holds between the two, itself otherwise.
pub open spec fn canonical(c: u32, ar: spec_fn(Arith) -> u32, near: spec_fn(u32, u32) -> bool) -> u32 {
    let r = ar(Arith::Round(c));
    if near(c, r) {
        r
    } else {
        c
    }
}

/// One rewrite at a node with operator `op` whose children have already been
/// simplified to `s0` and `s1` (`s1` unused for a unary operator, both for a
/// leaf). `near(c, k)` says that `c` is within machine epsilon of `k`.
pub open spec fn reduce(
    op: ExpNodeOp,
    s0: Expr,
    s1: Expr,
    ar: spec_fn(Arith) -> u32,
    near: spec_fn(u32, u32) -> bool,
) -> Expr {
    match op {
        ExpNodeOp::Add => if s0 is Const && s1 is Const {
            Expr::Const(ar(Arith::Add(s0->Const_0, s1->Const_0)))
        } else if s0 is Const && near(s0->Const_0, ZERO_BITS) {
            s1
        } else if s1 is Const && near(s1->Const_0, ZERO_BITS) {
            s0
        } else {
            compose(op, s0, s1)
        },
        ExpNodeOp::Mul => if s0 is Const && s1 is Const {
            Expr::Const(ar(Arith::Mul(s0->Const_0, s1->Const_0)))
        } else if s0 is Const && near(s0->Const_0, ONE_BITS) {
            s1
        } else if s1 is Const && near(s1->Const_0, ONE_BITS) {
            s0
        } else {
            compose(op, s0, s1)
        },
        ExpNodeOp::Exp => if s0 is Const && s1 is Const {
            Expr::Const(ar(Arith::Finite(ar(Arith::Pow(s0->Const_0, s1->Const_0)))))
        } else if s1 is Const && near(s1->Const_0, ONE_BITS) {
            s0
        } else if s1 is Const && near(s1->Const_0, ZERO_BITS) {
            Expr::Const(ZERO_BITS)
        } else {
            compose(op, s0, s1)
        },
        ExpNodeOp::Log => if s0 is Const && s1 is Const {
            Expr::Const(ar(Arith::Finite(ar(Arith::Log(s0->Const_0, s1->Const_0)))))
        } else {
            compose(op, s0, s1)
        },
        ExpNodeOp::Sin => if s0 is Const {
            Expr::Const(ar(Arith::Sin(s0->Const_0)))
        } else {
            compose(op, s0, s1)
        },
        ExpNodeOp::Var => Expr::Var,
        ExpNodeOp::Const(c) => Expr::Const(canonical(c, ar, near)),
    }
}

/// `e` simplified bottom-up in a single pass: the children first, then one
/// rewrite at the node.
pub open spec fn simplified(e: Expr, ar: spec_fn(Arith) -> u32, near: spec_fn(u32, u32) -> bool) -> Expr
    decreases e,
{
    match e {
        Expr::Var | Expr::Const(_) => reduce(e.op(), Expr::Var, Expr::Var, ar, near),
        Expr::Sin(a) => reduce(e.op(), simplified(*a, ar, near), Expr::Var, ar, near),
        Expr::Add(a, b) | Expr::Mul(a, b) | Expr::Exp(a, b) | Expr::Log(a, b) => reduce(
            e.op(),
            simplified(*a, ar, near),
            simplified(*b, ar, near),
            ar,
            near,
        ),
    }
}

/// Simplification never adds nodes.
pub proof fn lemma_simplified_count(e: Expr, ar: spec_fn(Arith) -> u32, near: spec_fn(u32, u32) -> bool)
    ensures
        simplified(e, ar, near).count() <= e.count(),
    decreases e,
{
    match e {
        Expr::Var | Expr::Const(_) => {},
        Expr::Sin(a) => lemma_simplified_count(*a, ar, near),
        Expr::Add(a, b) | Expr::Mul(a, b) | Expr::Exp(a, b) | Expr::Log(a, b) => {
            lemma_simplified_count(*a, ar, near);
            lemma_simplified_count(*b, ar, near);
        },
    }
}

/// Every constant in `e` is already as `canonical` leaves it.
pub open spec fn consts_canonical(e: Expr, ar: spec_fn(Arith) -> u32, near: spec_fn(u32, u32) -> bool) -> bool
    decreases e,
{
    match e {
        Expr::Var => true,
        Expr::Const(c) => canonical(c, ar, near) == c,
        Expr::Sin(a) => consts_canonical(*a, ar, near),
        Expr::Add(a, b) | Expr::Mul(a, b) | Expr::Exp(a, b) | Expr::Log(a, b) => consts_canonical(*a, ar, near)
            && consts_canonical(*b, ar, near),
    }
}

/// Simplification is idempotent: simplifying a simplified tree changes
/// nothing, provided that every constant the first pass leaves is one that
/// rounding keeps as it is. (A folded constant within machine epsilon of an
/// integer, but not equal to it, is rounded by a second pass.)
pub proof fn lemma_simplify_idempotent(e: Expr, ar: spec_fn(Arith) -> u32, near: spec_fn(u32, u32) -> bool)
    requires
        consts_canonical(simplified(e, ar, near), ar, near),
    ensures
        simplified(simplified(e, ar, near), ar, near) == simplified(e, ar, near),
    decreases e,
{
    match e {
        Expr::Var | Expr::Const(_) => {},
        Expr::Sin(a) => {
            if consts_canonical(simplified(*a, ar, near), ar, near) {
                lemma_simplify_idempotent(*a, ar, near);
            }
        },
        Expr::Add(a, b) | Expr::Mul(a, b) | Expr::Exp(a, b) | Expr::Log(a, b) => {
            if consts_canonical(simplified(*a, ar, near), ar, near) {
                lemma_simplify_idempotent(*a, ar, near);
            }
            if consts_canonical(simplified(*b, ar, near), ar, near) {
                lemma_simplify_idempotent(*b, ar, near);
            }
        },
    }
}

/// Adding zero, multiplying by one and raising to the power one do not change
/// what a tree simplifies to. This needs zero and one to be kept by rounding
/// and to be near themselves, and, where `t` simplifies to a constant `c`,
/// `c + 0`, `c * 1` and the finite part of `c ^ 1` to give `c` back (which
/// fails for negative zero and not-a-number patterns).
pub proof fn lemma_identity_rules(t: Expr, ar: spec_fn(Arith) -> u32, near: spec_fn(u32, u32) -> bool)
    requires
        canonical(ZERO_BITS, ar, near) == ZERO_BITS,
        canonical(ONE_BITS, ar, near) == ONE_BITS,
        near(ZERO_BITS, ZERO_BITS),
        near(ONE_BITS, ONE_BITS),
        simplified(t, ar, near) is Const ==> {
            let c = simplified(t, ar, near)->Const_0;
            &&& ar(Arith::Add(c, ZERO_BITS)) == c
            &&& ar(Arith::Mul(c, ONE_BITS)) == c
            &&& ar(Arith::Finite(ar(Arith::Pow(c, ONE_BITS)))) == c
        },
    ensures
        simplified(Expr::Add(Box::new(t), Box::new(Expr::Const(ZERO_BITS))), ar, near) == simplified(t, ar, near),
        simplified(Expr::Mul(Box::new(t), Box::new(Expr::Const(ONE_BITS))), ar, near) == simplified(t, ar, near),
        simplified(Expr::Exp(Box::new(t), Box::new(Expr::Const(ONE_BITS))), ar, near) == simplified(t, ar, near),
{
    assert(simplified(Expr::Const(ZERO_BITS), ar, near) == Expr::Const(ZERO_BITS));
    assert(simplified(Expr::Const(ONE_BITS), ar, near) == Expr::Const(ONE_BITS));
}

/// Every constant that simplification can leave is one that rounding keeps:
/// rounding is idempotent, keeps zero, and keeps each folded value.
pub open spec fn folds_settle(ar: spec_fn(Arith) -> u32, near: spec_fn(u32, u32) -> bool) -> bool {
    &&& forall|c: u32| #[trigger] canonical(canonical(c, ar, near), ar, near) == canonical(c, ar, near)
    &&& canonical(ZERO_BITS, ar, near) == ZERO_BITS
    &&& forall|a: u32, b: u32| #[trigger] canonical(ar(Arith::Add(a, b)), ar, near) == ar(Arith::Add(a, b))
    &&& forall|a: u32, b: u32| #[trigger] canonical(ar(Arith::Mul(a, b)), ar, near) == ar(Arith::Mul(a, b))
    &&& forall|a: u32, b: u32|
        #[trigger] canonical(ar(Arith::Finite(ar(Arith::Pow(a, b)))), ar, near) == ar(Arith::Finite(ar(Arith::Pow(a, b))))
    &&& forall|a: u32, b: u32|
        #[trigger] canonical(ar(Arith::Finite(ar(Arith::Log(a, b)))), ar, near) == ar(Arith::Finite(ar(Arith::Log(a, b))))
    &&& forall|a: u32| #[trigger] canonical(ar(Arith::Sin(a)), ar, near) == ar(Arith::Sin(a))
}

/// Where folds settle, every simplified tree has only constants that
/// rounding keeps, so simplifying it again changes nothing.
pub proof fn lemma_simplified_settled(e: Expr, ar: spec_fn(Arith) -> u32, near: spec_fn(u32, u32) -> bool)
    requires
        folds_settle(ar, near),
    ensures
        consts_canonical(simplified(e, ar, near), ar, near),
        simplified(simplified(e, ar, near), ar, near) == simplified(e, ar, near),
    decreases e,
{
    match e {
        Expr::Var | Expr::Const(_) => {},
        Expr::Sin(a) => lemma_simplified_settled(*a, ar, near),
        Expr::Add(a, b) | Expr::Mul(a, b) | Expr::Exp(a, b) | Expr::Log(a, b) => {
            lemma_simplified_settled(*a, ar, near);
            lemma_simplified_settled(*b, ar, near);
        },
    }
    lemma_simplify_idempotent(e, ar, near);
}

/// Every constant of `e` is a draw of a new constant.
pub open spec fn built_from_draws(e: Expr, dr: spec_fn(Draw) -> u32) -> bool
    decreases e,
{
    match e {
        Expr::Var => true,
        Expr::Const(c) => exists|w: u32| #[trigger] dr(Draw::NewConst(w)) == c,
        Expr::Sin(a) => built_from_draws(*a, dr),
        Expr::Add(a, b) | Expr::Mul(a, b) | Expr::Exp(a, b) | Expr::Log(a, b) => built_from_draws(*a, dr)
            && built_from_draws(*b, dr),
    }
}

/// The number of nodes of a random tree built for the requested `size`.
pub open spec fn built_size(size: u32) -> nat {
    if size == 0 {
        1
    } else if size <= SIZE_LIMIT {
        size as nat
    } else {
        SIZE_LIMIT as nat
    }
}

/// The number of nodes of a tree that replaces a subtree of `s` nodes when
/// the replacement-size draw gave `g`: `g` clamped to between one and the
/// room left under the size limit.
pub open spec fn replacement_size(g: u32, s: nat) -> nat {
    if g == 0 {
        1
    } else if g > SIZE_LIMIT - s {
        (SIZE_LIMIT - s) as nat
    } else {
        g as nat
    }
}

/// `r` is a fresh random tree that may replace the subtree `s`.
pub open spec fn replacement_of(r: Expr, s: Expr, dr: spec_fn(Draw) -> u32) -> bool {
    &&& built_from_draws(r, dr)
    &&& exists|w: u32| r.count() == replacement_size(#[trigger] dr(Draw::ReplaceSize(s.count() as u32, w)), s.count())
}

/// The constant-mutation coin comes up heads for every word.
pub open spec fn const_mutation_sure(ch: spec_fn(Chance) -> bool) -> bool {
    forall|w: u32| #[trigger] ch(Chance::ConstMutation(w))
}

/// The constant-mutation coin comes up tails for every word.
pub open spec fn const_mutation_never(ch: spec_fn(Chance) -> bool) -> bool {
    forall|w: u32| !(#[trigger] ch(Chance::ConstMutation(w)))
}

/// The child-swap coin comes up heads for every word.
pub open spec fn switch_sure(ch: spec_fn(Chance) -> bool) -> bool {
    forall|w: u32| #[trigger] ch(Chance::BinarySwitch(w))
}

/// The child-swap coin comes up tails for every word.
pub open spec fn switch_never(ch: spec_fn(Chance) -> bool) -> bool {
    forall|w: u32| !(#[trigger] ch(Chance::BinarySwitch(w)))
}

/// The replacement coin for a subtree of `s` nodes comes up heads for every
/// word.
pub open spec fn replace_sure(ch: spec_fn(Chance) -> bool, s: u32) -> bool {
    forall|w: u32| #[trigger] ch(Chance::Replace(s, w))
}

/// The replacement coin for a subtree of `s` nodes comes up tails for every
/// word.
pub open spec fn replace_never(ch: spec_fn(Chance) -> bool, s: u32) -> bool {
    forall|w: u32| !(#[trigger] ch(Chance::Replace(s, w)))
}

/// `r` is a jitter of `s` inside a tree of `tc` nodes: the variable stays;
/// a constant stays or becomes a jitter draw of itself (surely so, or surely
/// not, when the coin is sure); every other node keeps its operator over
/// mutants of its children, in order, or for `Exp` and `Log` possibly
/// swapped (surely so, or surely not, when the coin is sure).
pub open spec fn jittered_from(
    r: Expr,
    s: Expr,
    tc: nat,
    dr: spec_fn(Draw) -> u32,
    ch: spec_fn(Chance) -> bool,
) -> bool
    decreases s, 0nat,
{
    match s {
        Expr::Var => r == Expr::Var,
        Expr::Const(c) => {
            let moved = exists|w: u32| r == Expr::Const(#[trigger] dr(Draw::Jitter(c, w)));
            &&& r == s || moved
            &&& const_mutation_sure(ch) ==> moved
            &&& const_mutation_never(ch) ==> r == s
        },
        Expr::Sin(a) => r.op() == s.op() && mutated_from(r.left(), *a, tc, dr, ch),
        Expr::Add(a, b) | Expr::Mul(a, b) => r.op() == s.op() && mutated_from(r.left(), *a, tc, dr, ch)
            && mutated_from(r.right(), *b, tc, dr, ch),
        Expr::Exp(a, b) | Expr::Log(a, b) => {
            let straight = mutated_from(r.left(), *a, tc, dr, ch) && mutated_from(r.right(), *b, tc, dr, ch);
            let crossed = mutated_from(r.left(), *b, tc, dr, ch) && mutated_from(r.right(), *a, tc, dr, ch);
            &&& r.op() == s.op()
            &&& straight || crossed
            &&& switch_sure(ch) ==> crossed
            &&& switch_never(ch) ==> straight
        },
    }
}

/// `r` is a mutant of the subtree `s` of a tree of `tc` nodes: under the
/// size limit a fresh replacement or a jitter (surely the one, or surely the
/// other, when the replacement coin is sure); at the limit a jitter.
pub open spec fn mutated_from(
    r: Expr,
    s: Expr,
    tc: nat,
    dr: spec_fn(Draw) -> u32,
    ch: spec_fn(Chance) -> bool,
) -> bool
    decreases s, 1nat,
{
    if tc < SIZE_LIMIT {
        &&& replacement_of(r, s, dr) || jittered_from(r, s, tc, dr, ch)
        &&& replace_sure(ch, s.count() as u32) ==> replacement_of(r, s, dr)
        &&& replace_never(ch, s.count() as u32) ==> jittered_from(r, s, tc, dr, ch)
    } else {
        jittered_from(r, s, tc, dr, ch)
    }
}

/// At the size limit nothing is replaced, so a jitter keeps the number of
/// nodes and the height.
pub proof fn lemma_jitter_at_limit(
    r: Expr,
    s: Expr,
    tc: nat,
    dr: spec_fn(Draw) -> u32,
    ch: spec_fn(Chance) -> bool,
)
    requires
        tc >= SIZE_LIMIT,
        jittered_from(r, s, tc, dr, ch),
    ensures
        r.count() == s.count(),
        r.height() == s.height(),
    decreases s,
{
    match s {
        Expr::Var => {},
        Expr::Const(c) => {
            if r != s {
                let w = choose|w: u32| r == Expr::Const(#[trigger] dr(Draw::Jitter(c, w)));
            }
        },
        Expr::Sin(a) => {
            lemma_jitter_at_limit(r.left(), *a, tc, dr, ch);
        },
        Expr::Add(a, b) | Expr::Mul(a, b) => {
            lemma_jitter_at_limit(r.left(), *a, tc, dr, ch);
            lemma_jitter_at_limit(r.right(), *b, tc, dr, ch);
        },
        Expr::Exp(a, b) | Expr::Log(a, b) => {
            if mutated_from(r.left(), *a, tc, dr, ch) && mutated_from(r.right(), *b, tc, dr, ch) {
                lemma_jitter_at_limit(r.left(), *a, tc, dr, ch);
                lemma_jitter_at_limit(r.right(), *b, tc, dr, ch);
            } else {
                lemma_jitter_at_limit(r.left(), *b, tc, dr, ch);
                lemma_jitter_at_limit(r.right(), *a, tc, dr, ch);
            }
        },
    }
}

/// A node of an expression tree. Each node owns its children and caches the
/// size and depth of its subtree.
#[derive(Debug)]
pub struct ExpNode {
    size: u32,
    depth: u32,
    children: Vec<ExpNode>,
    op: ExpNodeOp,
}

impl ExpNode {
    /// The expression this node stands for.
    pub closed spec fn model(self) -> Expr
        decreases self,
    {
        let k0 = if self.children.len() >= 1 {
            self.children@[0].model()
        } else {
            Expr::Var
        };
        let k1 = if self.children.len() >= 2 {
            self.children@[1].model()
        } else {
            Expr::Var
        };
        compose(self.op, k0, k1)
    }

    /// The number of nodes cached at this node.
    pub closed spec fn cached_size(self) -> nat {
        self.size as nat
    }

    /// The depth cached at this node.
    pub closed spec fn cached_depth(self) -> nat {
        self.depth as nat
    }

    /// The children match the operator, the cached size and depth equal the
    /// size and height of the subtree, at every node.
    pub closed spec fn wf(self) -> bool
        decreases self,
    {
        &&& self.children.len() == arity(self.op)
        &&& self.children.len() >= 1 ==> self.children@[0].wf()
        &&& self.children.len() >= 2 ==> self.children@[1].wf()
        &&& self.size as nat == self.model().count()
        &&& self.depth as nat == self.model().height()
    }
}

impl ExpNode {
    /// A node with operator `op` over the children `a` and `b`.
    pub fn new_binary(op: ExpNodeOp, a: Self, b: Self) -> (r: Self)
        requires
            arity(op) == 2,
            a.wf(),
            b.wf(),
            a@.count() + b@.count() + 1 <= u32::MAX,
        ensures
            r.wf(),
            r@ == compose(op, a@, b@),
    {
        proof {
            lemma_height_le_count(a@);
            lemma_height_le_count(b@);
        }
        let depth = if a.depth >= b.depth {
            a.depth + 1
        } else {
            b.depth + 1
        };
        let r = ExpNode { size: a.size + b.size + 1, depth, children: vec![a, b], op };
        proof {
            assert(r.children@[0] == a);
            assert(r.children@[1] == b);
        }
        r
    }

    /// A node with operator `op` over the child `a`.
    pub fn new_unary(op: ExpNodeOp, a: Self) -> (r: Self)
        requires
            arity(op) == 1,
            a.wf(),
            a@.count() + 1 <= u32::MAX,
        ensures
            r.wf(),
            r@ == compose(op, a@, Expr::Var),
    {
        proof {
            lemma_height_le_count(a@);
        }
        let r = ExpNode { size: a.size + 1, depth: a.depth + 1, children: vec![a], op };
        proof {
            assert(r.children@[0] == a);
        }
        r
    }

    /// A leaf with operator `op`.
    pub fn new_nullary(op: ExpNodeOp) -> (r: Self)
        requires
            arity(op) == 0,
        ensures
            r.wf(),
            r@ == compose(op, Expr::Var, Expr::Var),
    {
        ExpNode { size: 1, depth: 1, children: Vec::new(), op }
    }

    /// The number of nodes in this subtree.
    pub fn size(&self) -> (r: u32)
        requires
            self.wf(),
        ensures
            r as nat == self@.count(),
            r as nat == self.cached_size(),
    {
        self.size
    }

    /// The number of nodes on a longest path from this node to a leaf.
    pub fn depth(&self) -> (r: u32)
        requires
            self.wf(),
        ensures
            r as nat == self@.height(),
            r as nat == self.cached_depth(),
    {
        self.depth
    }

    /// The operator at this node.
    pub fn op(&self) -> (r: ExpNodeOp)
        requires
            self.wf(),
        ensures
            r == self@.op(),
    {
        self.op
    }

    /// The value of this subtree at `x`; see `evaluated`. The result is
    /// whatever `ar` gives for `Finite`, at a leaf too.
    pub fn eval<A: Fn(Arith) -> u32>(&self, x: u32, ar: &A) -> (r: u32)
        requires
            self.wf(),
            pure_fn1(*ar),
        ensures
            r == evaluated(self@, x, meaning1(*ar)),
            self@ is Var ==> r == meaning1(*ar)(Arith::Finite(x)),
            self@ is Const ==> r == meaning1(*ar)(Arith::Finite(self@->Const_0)),
        decreases self@.count(),
    {
        proof {
            self.lemma_unfold();
        }
        let raw = match self.op {
            ExpNodeOp::Var => x,
            ExpNodeOp::Const(c) => c,
            ExpNodeOp::Sin => {
                let a = self.children[0].eval(x, ar);
                call1(ar, Arith::Sin(a))
            },
            ExpNodeOp::Add => {
                let a = self.children[0].eval(x, ar);
                let b = self.children[1].eval(x, ar);
                call1(ar, Arith::Add(a, b))
            },
            ExpNodeOp::Mul => {
                let a = self.children[0].eval(x, ar);
                let b = self.children[1].eval(x, ar);
                call1(ar, Arith::Mul(a, b))
            },
            ExpNodeOp::Exp => {
                let a = self.children[0].eval(x, ar);
                let b = self.children[1].eval(x, ar);
                call1(ar, Arith::Pow(a, b))
            },
            ExpNodeOp::Log => {
                let a = self.children[0].eval(x, ar);
                let b = self.children[1].eval(x, ar);
                call1(ar, Arith::Log(a, b))
            },
        };
        call1(ar, Arith::Finite(raw))
    }

    /// This subtree simplified: the children first, then at most one rewrite
    /// at this node (see `reduce`).
    pub fn simplify<A: Fn(Arith) -> u32, N: Fn(u32, u32) -> bool>(&self, ar: &A, near: &N) -> (r: ExpNode)
        requires
            self.wf(),
            pure_fn1(*ar),
            pure_fn2(*near),
        ensures
            r.wf(),
            r@ == simplified(self@, meaning1(*ar), meaning2(*near)),
            r@.count() <= self@.count(),
        decreases self@.count(),
    {
        proof {
            self.lemma_unfold();
            lemma_simplified_count(self@, meaning1(*ar), meaning2(*near));
        }
        match self.op {
            ExpNodeOp::Var => ExpNode::new_nullary(ExpNodeOp::Var),
            ExpNodeOp::Const(c) => {
                let r = call1(ar, Arith::Round(c));
                let k = if call2(near, c, r) {
                    r
                } else {
                    c
                };
                ExpNode::new_nullary(ExpNodeOp::Const(k))
            },
            ExpNodeOp::Sin => {
                let s = self.children[0].simplify(ar, near);
                proof {
                    s.lemma_unfold();
                }
                match s.op {
                    ExpNodeOp::Const(c) => ExpNode::new_nullary(ExpNodeOp::Const(call1(ar, Arith::Sin(c)))),
                    _ => ExpNode::new_unary(ExpNodeOp::Sin, s),
                }
            },
            _ => {
                let s0 = self.children[0].simplify(ar, near);
                let s1 = self.children[1].simplify(ar, near);
                ExpNode::reduce_binary(self.op, s0, s1, ar, near)
            },
        }
    }

    /// The rewrite of `reduce` at a binary node over simplified children.
    fn reduce_binary<A: Fn(Arith) -> u32, N: Fn(u32, u32) -> bool>(
        op: ExpNodeOp,
        s0: ExpNode,
        s1: ExpNode,
        ar: &A,
        near: &N,
    ) -> (r: ExpNode)
        requires
            arity(op) == 2,
            s0.wf(),
            s1.wf(),
            s0@.count() + s1@.count() + 1 <= u32::MAX,
            pure_fn1(*ar),
            pure_fn2(*near),
        ensures
            r.wf(),
            r@ == reduce(op, s0@, s1@, meaning1(*ar), meaning2(*near)),
    {
        proof {
            s0.lemma_unfold();
            s1.lemma_unfold();
        }
        match (op, s0.op, s1.op) {
            (ExpNodeOp::Add, ExpNodeOp::Const(a), ExpNodeOp::Const(b)) => ExpNode::new_nullary(
                ExpNodeOp::Const(call1(ar, Arith::Add(a, b))),
            ),
            (ExpNodeOp::Mul, ExpNodeOp::Const(a), ExpNodeOp::Const(b)) => ExpNode::new_nullary(
                ExpNodeOp::Const(call1(ar, Arith::Mul(a, b))),
            ),
            (ExpNodeOp::Exp, ExpNodeOp::Const(a), ExpNodeOp::Const(b)) => {
                let p = call1(ar, Arith::Pow(a, b));
                ExpNode::new_nullary(ExpNodeOp::Const(call1(ar, Arith::Finite(p))))
            },
            (ExpNodeOp::Log, ExpNodeOp::Const(a), ExpNodeOp::Const(b)) => {
                let l = call1(ar, Arith::Log(a, b));
                ExpNode::new_nullary(ExpNodeOp::Const(call1(ar, Arith::Finite(l))))
            },
            (ExpNodeOp::Add, ExpNodeOp::Const(a), _) if call2(near, a, ZERO_BITS) => s1,
            (ExpNodeOp::Add, _, ExpNodeOp::Const(b)) if call2(near, b, ZERO_BITS) => s0,
            (ExpNodeOp::Mul, ExpNodeOp::Const(a), _) if call2(near, a, ONE_BITS) => s1,
            (ExpNodeOp::Mul, _, ExpNodeOp::Const(b)) if call2(near, b, ONE_BITS) => s0,
            (ExpNodeOp::Exp, _, ExpNodeOp::Const(b)) if call2(near, b, ONE_BITS) => s0,
            (ExpNodeOp::Exp, _, ExpNodeOp::Const(b)) if call2(near, b, ZERO_BITS) => {
                ExpNode::new_nullary(ExpNodeOp::Const(ZERO_BITS))
            },
            _ => ExpNode::new_binary(op, s0, s1),
        }
    }

    /// This node changed slightly: the operator stays (a constant stays a
    /// constant, possibly jittered; the children of `Exp` and `Log` may swap)
    /// and each child is mutated.
    pub fn jitter<D: Fn(Draw) -> u32, C: Fn(Chance) -> bool>(
        &self,
        tree: &ExpTree,
        rng: &mut StdRng,
        draw: &D,
        chance: &C,
    ) -> (r: ExpNode)
        requires
            self.wf(),
            tree.wf(),
            self@.count() <= tree@.count(),
            tree@.count() * SIZE_LIMIT <= u32::MAX,
            pure_fn1(*draw),
            pure_fn1(*chance),
        ensures
            r.wf(),
            r@.count() <= self@.count() * SIZE_LIMIT,
            jittered_from(r@, self@, tree@.count(), meaning1(*draw), meaning1(*chance)),
        decreases self@.count(), 0nat,
    {
        proof {
            self.lemma_unfold();
        }
        match self.op {
            ExpNodeOp::Var => ExpNode::new_nullary(ExpNodeOp::Var),
            ExpNodeOp::Const(c) => {
                let w = gen_word(rng);
                if call1(chance, Chance::ConstMutation(w)) {
                    let w2 = gen_word(rng);
                    let r = ExpNode::new_nullary(ExpNodeOp::Const(call1(draw, Draw::Jitter(c, w2))));
                    assert(r@ == Expr::Const(meaning1(*draw)(Draw::Jitter(c, w2))));
                    r
                } else {
                    ExpNode::new_nullary(ExpNodeOp::Const(c))
                }
            },
            ExpNodeOp::Sin => {
                let m = self.children[0].mutate(tree, rng, draw, chance);
                proof {
                    assert(m@.count() + 1 <= self@.count() * SIZE_LIMIT) by (nonlinear_arith)
                        requires
                            m@.count() <= (self@.count() - 1) * SIZE_LIMIT,
                            self@.count() >= 1;
                }
                ExpNode::new_unary(ExpNodeOp::Sin, m)
            },
            _ => {
                let swap = if self.op == ExpNodeOp::Exp || self.op == ExpNodeOp::Log {
                    let w = gen_word(rng);
                    call1(chance, Chance::BinarySwitch(w))
                } else {
                    false
                };
                let (m0, m1) = if swap {
                    let m1 = self.children[1].mutate(tree, rng, draw, chance);
                    let m0 = self.children[0].mutate(tree, rng, draw, chance);
                    (m1, m0)
                } else {
                    let m0 = self.children[0].mutate(tree, rng, draw, chance);
                    let m1 = self.children[1].mutate(tree, rng, draw, chance);
                    (m0, m1)
                };
                proof {
                    let a = self.children@[0]@.count();
                    let b = self.children@[1]@.count();
                    assert(m0@.count() + m1@.count() + 1 <= self@.count() * SIZE_LIMIT) by (nonlinear_arith)
                        requires
                            m0@.count() + m1@.count() <= a * SIZE_LIMIT + b * SIZE_LIMIT,
                            a + b + 1 == self@.count(),
                            SIZE_LIMIT == 512;
                }
                let r = ExpNode::new_binary(self.op, m0, m1);
                proof {
                    assert(r@.left() == m0@ && r@.right() == m1@);
                }
                r
            },
        }
    }

    /// This node changed, possibly a lot: while `tree`, the tree it belongs
    /// to, is under the size limit, it is replaced by a fresh random tree
    /// with probability `mutate_replace_rate ^ -size`, of a size drawn around
    /// its own and no larger than the limit less its own size; otherwise it
    /// is jittered.
    pub fn mutate<D: Fn(Draw) -> u32, C: Fn(Chance) -> bool>(
        &self,
        tree: &ExpTree,
        rng: &mut StdRng,
        draw: &D,
        chance: &C,
    ) -> (r: ExpNode)
        requires
            self.wf(),
            tree.wf(),
            self@.count() <= tree@.count(),
            tree@.count() * SIZE_LIMIT <= u32::MAX,
            pure_fn1(*draw),
            pure_fn1(*chance),
        ensures
            r.wf(),
            r@.count() <= self@.count() * SIZE_LIMIT,
            mutated_from(r@, self@, tree@.count(), meaning1(*draw), meaning1(*chance)),
            tree@.count() >= SIZE_LIMIT ==> r@.count() == self@.count() && r@.height() == self@.height(),
        decreases self@.count(), 1nat,
    {
        if tree.size() < SIZE_LIMIT {
            let w = gen_word(rng);
            if call1(chance, Chance::Replace(self.size, w)) {
                let w2 = gen_word(rng);
                let g = call1(draw, Draw::ReplaceSize(self.size, w2));
                let budget = SIZE_LIMIT - self.size;
                let n = if g > budget {
                    budget
                } else {
                    g
                };
                let r = random_expression(n, rng, draw);
                proof {
                    self.lemma_unfold();
                    assert(self@.count() as u32 == self.size);
                    assert(r@.count() == replacement_size(meaning1(*draw)(Draw::ReplaceSize(self.size, w2)), self@.count()));
                    assert(replacement_of(r@, self@, meaning1(*draw)));
                    assert(r@.count() <= self@.count() * SIZE_LIMIT) by (nonlinear_arith)
                        requires
                            r@.count() <= SIZE_LIMIT,
                            self@.count() >= 1;
                }
                return r;
            }
        }
        let r = self.jitter(tree, rng, draw, chance);
        proof {
            if tree@.count() >= SIZE_LIMIT {
                lemma_jitter_at_limit(r@, self@, tree@.count(), meaning1(*draw), meaning1(*chance));
            }
        }
        r
    }

    /// A copy of this subtree, node by node.
    pub fn duplicate(&self) -> (r: ExpNode)
        requires
            self.wf(),
        ensures
            r.wf(),
            r@ == self@,
        decreases self@.count(),
    {
        proof {
            self.lemma_unfold();
        }
        match self.op {
            ExpNodeOp::Sin => ExpNode::new_unary(ExpNodeOp::Sin, self.children[0].duplicate()),
            ExpNodeOp::Var | ExpNodeOp::Const(_) => ExpNode::new_nullary(self.op),
            _ => {
                let a = self.children[0].duplicate();
                let b = self.children[1].duplicate();
                ExpNode::new_binary(self.op, a, b)
            },
        }
    }

    /// What `wf` says of this node, one level down.
    proof fn lemma_unfold(&self)
        requires
            self.wf(),
        ensures
            self@.op() == self.op,
            self.op is Const ==> self@ == Expr::Const(self.op->Const_0),
            self.children.len() >= 1 ==> self.children@[0].wf() && self.children@[0]@ == self@.left()
                && self.children@[0]@.count() < self@.count(),
            self.children.len() >= 2 ==> self.children@[1].wf() && self.children@[1]@ == self@.right()
                && self.children@[0]@.count() + self.children@[1]@.count() + 1 == self@.count(),
            self.children.len() == 1 ==> self@ == compose(self.op, self.children@[0]@, Expr::Var),
            self.children.len() == 2 ==> self@ == compose(self.op, self.children@[0]@, self.children@[1]@),
            self@.count() <= u32::MAX,
    {
    }

    /// The children of this node, in order.
    pub fn children(&self) -> (r: &[ExpNode])
        requires
            self.wf(),
        ensures
            r@.len() == arity(self@.op()),
            r@.len() >= 1 ==> r@[0].wf() && r@[0]@ == self@.left(),
            r@.len() >= 2 ==> r@[1].wf() && r@[1]@ == self@.right(),
    {
        self.children.as_slice()
    }
}

/// Every well-formed node caches the number of nodes and the height of its
/// subtree (its children, as `children` hands them out, are well-formed
/// too). Every node built, jittered,
/// mutated, simplified or copied here is well-formed.
pub proof fn lemma_caches_agree(n: ExpNode)
    requires
        n.wf(),
    ensures
        n.cached_size() == n@.count(),
        n.cached_depth() == n@.height(),
{
}

impl View for ExpNode {
    type V = Expr;

    open spec fn view(&self) -> Expr {
        self.model()
    }
}

/// A random tree of `size` nodes, or of `SIZE_LIMIT` nodes where `size` is
/// larger; a size of zero gives a leaf. A leaf is the variable or a new
/// constant with equal chance; two
/// nodes make a sine over a leaf; more make a sine or one of the four binary
/// operators with equal chance, the nodes below a binary one split at a point
/// drawn uniformly so that each side has at least one.
pub fn random_expression<D: Fn(Draw) -> u32>(size: u32, rng: &mut StdRng, draw: &D) -> (r: ExpNode)
    requires
        pure_fn1(*draw),
    ensures
        r.wf(),
        r@.count() == built_size(size),
        built_from_draws(r@, meaning1(*draw)),
        size == 2 ==> r@ is Sin,
    decreases size,
{
    let size = if size > SIZE_LIMIT {
        SIZE_LIMIT
    } else {
        size
    };
    if size <= 1 {
        if gen_index(rng, 2) == 0 {
            ExpNode::new_nullary(ExpNodeOp::Var)
        } else {
            let w = gen_word(rng);
            let r = ExpNode::new_nullary(ExpNodeOp::Const(call1(draw, Draw::NewConst(w))));
            assert(r@ == Expr::Const(meaning1(*draw)(Draw::NewConst(w))));
            r
        }
    } else if size == 2 {
        ExpNode::new_unary(ExpNodeOp::Sin, random_expression(1, rng, draw))
    } else {
        let k = gen_index(rng, 5);
        if k == 0 {
            ExpNode::new_unary(ExpNodeOp::Sin, random_expression(size - 1, rng, draw))
        } else {
            let op = if k == 1 {
                ExpNodeOp::Add
            } else if k == 2 {
                ExpNodeOp::Mul
            } else if k == 3 {
                ExpNodeOp::Exp
            } else {
                ExpNodeOp::Log
            };
            let d = (gen_index(rng, (size - 2) as usize) + 2) as u32;
            let a = random_expression(d - 1, rng, draw);
            let b = random_expression(size - d, rng, draw);
            ExpNode::new_binary(op, a, b)
        }
    }
}

} // verus!
