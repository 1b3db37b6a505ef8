use evolutionary_regression::evolve::Evolve;
use evolutionary_regression::expression::{random_expression, ExpNode, ExpNodeOp, SIZE_LIMIT};
use evolutionary_regression::meta::{crossover, plan_generation, ranking, Offspring};
use evolutionary_regression::numeric::{order_key, Arith, Numerics};
use evolutionary_regression::random::{Chance, Draw};
use evolutionary_regression::tree::ExpTree;
use rand::rngs::StdRng;
use rand::SeedableRng;
use statrs::distribution::{ContinuousCDF, Normal};

fn f(b: u32) -> f32 {
    f32::from_bits(b)
}

fn b(x: f32) -> u32 {
    x.to_bits()
}

fn arith(q: Arith) -> u32 {
    match q {
        Arith::Add(x, y) => b(f(x) + f(y)),
        Arith::Mul(x, y) => b(f(x) * f(y)),
        Arith::Pow(x, y) => b(f(x).powf(f(y))),
        Arith::Log(x, y) => b(f(y).log(f(x))),
        Arith::Sin(x) => b(f(x).sin()),
        Arith::Round(x) => b(f(x).round()),
        Arith::Finite(x) => {
            if f(x).is_finite() {
                x
            } else {
                0
            }
        }
        Arith::Sub(x, y) => b(f(x) - f(y)),
        Arith::Abs(x) => b(f(x).abs()),
        Arith::Count(n) => b(n as f32),
    }
}

fn near(x: u32, y: u32) -> bool {
    approx::RelativeEq::relative_eq(&f(x), &f(y), f32::EPSILON, f32::EPSILON)
}

fn unit(w: u32) -> f64 {
    (w as f64 + 0.5) / 4_294_967_296.0
}

fn geometric(p: f64, w: u32) -> u32 {
    if p >= 1.0 {
        return 1;
    }
    let k = ((1.0 - unit(w)).ln() / (1.0 - p).ln()).ceil();
    if k < 1.0 {
        1
    } else if k > 1.0e9 {
        1_000_000_000
    } else {
        k as u32
    }
}

fn draw(d: Draw) -> u32 {
    match d {
        Draw::NewConst(w) => b(Normal::new(0.0, 2.0).unwrap().inverse_cdf(unit(w)) as f32),
        Draw::Jitter(c, w) => {
            let v = f(c).abs().max(0.0001) / 3.0;
            b(f(c) + Normal::new(0.0, v as f64).unwrap().inverse_cdf(unit(w)) as f32)
        }
        Draw::NewSize(w) => geometric(0.1, w),
        Draw::ReplaceSize(s, w) => geometric(1.0 / (s as f64 + 1.0), w),
    }
}

fn chance(c: Chance) -> bool {
    match c {
        Chance::ConstMutation(w) => unit(w) < 0.01,
        Chance::BinarySwitch(w) => unit(w) < 0.01,
        Chance::Replace(s, w) => unit(w) < 3.0f64.powf(-(s as f64)),
        Chance::RepeatMutation(i, w) => unit(w) < 1.5f64.powf(-(i as f64)),
        Chance::Insert(i, w) => unit(w) < 3.0f64.powf(-(i as f64)),
    }
}

fn konst(x: f32) -> ExpNode {
    ExpNode::new_nullary(ExpNodeOp::Const(b(x)))
}

fn var() -> ExpNode {
    ExpNode::new_nullary(ExpNodeOp::Var)
}

fn bin(op: ExpNodeOp, l: ExpNode, r: ExpNode) -> ExpNode {
    ExpNode::new_binary(op, l, r)
}

fn simp(n: &ExpNode) -> ExpNode {
    n.simplify(&arith, &near)
}

fn const_value(n: &ExpNode) -> Option<f32> {
    match n.op() {
        ExpNodeOp::Const(c) => Some(f(c)),
        _ => None,
    }
}

fn same(x: &ExpNode, y: &ExpNode) -> bool {
    x.op() == y.op()
        && x.size() == y.size()
        && x.depth() == y.depth()
        && x.children().len() == y.children().len()
        && x.children().iter().zip(y.children()).all(|(p, q)| same(p, q))
}

fn count_nodes(n: &ExpNode) -> u32 {
    1 + n.children().iter().map(count_nodes).sum::<u32>()
}

fn longest_path(n: &ExpNode) -> u32 {
    1 + n.children().iter().map(longest_path).max().unwrap_or(0)
}

fn caches_hold(n: &ExpNode) -> bool {
    n.size() == count_nodes(n) && n.depth() == longest_path(n) && n.children().iter().all(caches_hold)
}

fn samples(points: &[(f32, f32)]) -> Vec<[u32; 2]> {
    points.iter().map(|&(x, y)| [b(x), b(y)]).collect()
}

fn numerics() -> Numerics<fn(Arith) -> u32, fn(u32, u32) -> bool, fn(Draw) -> u32, fn(Chance) -> bool> {
    Numerics { ar: arith, near, draw, chance }
}

#[test]
fn node_caches_size_and_depth() {
    let t = bin(ExpNodeOp::Add, var(), ExpNode::new_unary(ExpNodeOp::Sin, konst(1.0)));
    assert_eq!(t.size(), 4);
    assert_eq!(t.depth(), 3);
    assert_eq!(t.children().len(), 2);
    assert!(caches_hold(&t));
}

#[test]
fn operator_kinds() {
    assert!(ExpNodeOp::Const(0).is_const());
    assert!(ExpNodeOp::Var.is_nullary());
    assert!(!ExpNodeOp::Var.is_const());
    assert!(ExpNodeOp::Sin.is_unary());
    assert!(ExpNodeOp::Log.is_binary());
    assert!(!ExpNodeOp::Sin.is_binary());
}

#[test]
fn eval_of_leaves() {
    assert_eq!(f(var().eval(b(1.5), &arith)), 1.5);
    assert_eq!(f(konst(-3.25).eval(b(9.0), &arith)), -3.25);
    assert_eq!(f(konst(f32::NAN).eval(b(0.0), &arith)), 0.0);
    assert_eq!(f(konst(f32::INFINITY).eval(b(0.0), &arith)), 0.0);
}

#[test]
fn eval_of_operators() {
    let e = bin(ExpNodeOp::Mul, bin(ExpNodeOp::Add, var(), konst(1.0)), var());
    assert_eq!(f(e.eval(b(3.0), &arith)), 12.0);
    let p = bin(ExpNodeOp::Exp, konst(2.0), var());
    assert_eq!(f(p.eval(b(3.0), &arith)), 8.0);
    let l = bin(ExpNodeOp::Log, konst(2.0), konst(8.0));
    assert!((f(l.eval(b(0.0), &arith)) - 3.0).abs() < 1e-6);
    let s = ExpNode::new_unary(ExpNodeOp::Sin, var());
    assert!((f(s.eval(b(1.0), &arith)) - 1.0f32.sin()).abs() < 1e-6);
}

#[test]
fn eval_replaces_non_finite_by_zero() {
    let l = bin(ExpNodeOp::Log, konst(1.0), var());
    assert_eq!(f(l.eval(b(2.0), &arith)), 0.0);
    let big = bin(ExpNodeOp::Exp, konst(10.0), konst(100.0));
    assert_eq!(f(big.eval(b(0.0), &arith)), 0.0);
}

#[test]
fn simplify_folds_constants() {
    assert_eq!(const_value(&simp(&bin(ExpNodeOp::Add, konst(1.0), konst(2.0)))), Some(3.0));
    assert_eq!(const_value(&simp(&bin(ExpNodeOp::Mul, konst(1.5), konst(4.0)))), Some(6.0));
    assert_eq!(const_value(&simp(&bin(ExpNodeOp::Exp, konst(2.0), konst(3.0)))), Some(8.0));
    let l = const_value(&simp(&bin(ExpNodeOp::Log, konst(2.0), konst(8.0)))).unwrap();
    assert!((l - 3.0).abs() < 1e-6);
    let s = const_value(&simp(&ExpNode::new_unary(ExpNodeOp::Sin, konst(0.5)))).unwrap();
    assert_eq!(s, 0.5f32.sin());
}

#[test]
fn simplify_folds_non_finite_powers_to_zero() {
    assert_eq!(const_value(&simp(&bin(ExpNodeOp::Exp, konst(10.0), konst(100.0)))), Some(0.0));
    assert_eq!(const_value(&simp(&bin(ExpNodeOp::Log, konst(1.0), konst(5.0)))), Some(0.0));
}

#[test]
fn simplify_identities() {
    let x_plus_0 = simp(&bin(ExpNodeOp::Add, var(), konst(0.0)));
    assert_eq!(x_plus_0.op(), ExpNodeOp::Var);
    let zero_plus_x = simp(&bin(ExpNodeOp::Add, konst(0.0), var()));
    assert_eq!(zero_plus_x.op(), ExpNodeOp::Var);
    let x_times_1 = simp(&bin(ExpNodeOp::Mul, var(), konst(1.0)));
    assert_eq!(x_times_1.op(), ExpNodeOp::Var);
    let one_times_x = simp(&bin(ExpNodeOp::Mul, konst(1.0), var()));
    assert_eq!(one_times_x.op(), ExpNodeOp::Var);
    let x_pow_1 = simp(&bin(ExpNodeOp::Exp, var(), konst(1.0)));
    assert_eq!(x_pow_1.op(), ExpNodeOp::Var);
}

#[test]
fn simplify_power_zero_gives_zero() {
    let r = simp(&bin(ExpNodeOp::Exp, var(), konst(0.0)));
    assert_eq!(const_value(&r), Some(0.0));
}

#[test]
fn simplify_keeps_zero_factor_and_base_rules() {
    let x_times_0 = simp(&bin(ExpNodeOp::Mul, var(), konst(0.0)));
    assert_eq!(x_times_0.op(), ExpNodeOp::Mul);
    let one_pow_x = simp(&bin(ExpNodeOp::Exp, konst(1.0), var()));
    assert_eq!(one_pow_x.op(), ExpNodeOp::Exp);
    let zero_pow_x = simp(&bin(ExpNodeOp::Exp, konst(0.0), var()));
    assert_eq!(zero_pow_x.op(), ExpNodeOp::Exp);
}

#[test]
fn simplify_rounds_near_integers() {
    let c = 2.0f32 + f32::EPSILON;
    assert_eq!(const_value(&simp(&konst(c))), Some(2.0));
    assert_eq!(const_value(&simp(&konst(2.5))), Some(2.5));
}

#[test]
fn simplify_with_zero_and_one_under_operators() {
    let t = ExpNode::new_unary(ExpNodeOp::Sin, var());
    let plus = simp(&bin(ExpNodeOp::Add, t.duplicate(), konst(0.0)));
    assert!(same(&plus, &simp(&t)));
    let times = simp(&bin(ExpNodeOp::Mul, t.duplicate(), konst(1.0)));
    assert!(same(&times, &simp(&t)));
    let pow = simp(&bin(ExpNodeOp::Exp, t.duplicate(), konst(1.0)));
    assert!(same(&pow, &simp(&t)));
}

#[test]
fn simplify_twice_is_simplify_once() {
    let mut rng = StdRng::seed_from_u64(7);
    for size in 1..60u32 {
        let t = random_expression(size, &mut rng, &draw);
        let once = simp(&t);
        let twice = simp(&once);
        assert!(same(&once, &twice));
        assert!(caches_hold(&once));
        assert!(once.size() <= t.size());
    }
}

#[test]
fn simplify_keeps_the_value() {
    let e = bin(
        ExpNodeOp::Add,
        bin(ExpNodeOp::Mul, konst(1.0), var()),
        bin(ExpNodeOp::Add, konst(2.0), konst(3.0)),
    );
    let s = simp(&e);
    assert_eq!(s.size(), 3);
    for x in [-2.0f32, -0.5, 0.0, 1.0, 4.0] {
        assert_eq!(f(e.eval(b(x), &arith)), f(s.eval(b(x), &arith)));
    }
}

#[test]
fn random_expression_has_requested_size() {
    let mut rng = StdRng::seed_from_u64(1);
    for size in 1..100u32 {
        let t = random_expression(size, &mut rng, &draw);
        assert_eq!(t.size(), size);
        assert!(caches_hold(&t));
    }
    let t = random_expression(SIZE_LIMIT + 100, &mut rng, &draw);
    assert_eq!(t.size(), SIZE_LIMIT);
    let t = random_expression(2, &mut rng, &draw);
    assert_eq!(t.op(), ExpNodeOp::Sin);
    let t = random_expression(0, &mut rng, &draw);
    assert_eq!(t.size(), 1);
}

#[test]
fn mutation_keeps_caches() {
    let mut rng = StdRng::seed_from_u64(3);
    for size in 1..40u32 {
        let t = ExpTree::new_random(size, &mut rng, &draw);
        let m = t.mutate(&mut rng, &draw, &chance);
        assert!(caches_hold(m.root()));
        assert!(m.size() <= t.size() * SIZE_LIMIT);
        let j = t.root().jitter(&t, &mut rng, &draw, &chance);
        assert!(caches_hold(&j));
        assert_eq!(j.op().is_const(), t.root().op().is_const());
    }
}

#[test]
fn tree_fitness_counts_errors_and_size() {
    let t = ExpTree::new(var());
    let data = samples(&[(0.0, 1.0), (1.0, 1.0), (2.0, 0.0)]);
    assert_eq!(f(t.fitness(&data, &arith)), 1.0 + 0.0 + 2.0 + 1.0);
    let t = ExpTree::new(bin(ExpNodeOp::Add, var(), konst(1.0)));
    assert_eq!(f(t.fitness(&data, &arith)), 0.0 + 1.0 + 3.0 + 3.0);
    assert_eq!(t.depth(), 2);
    assert_eq!(f(t.eval(b(2.0), &arith)), 3.0);
}

#[test]
fn tree_fitness_over_size_limit_is_infinite() {
    let mut rng = StdRng::seed_from_u64(5);
    let a = random_expression(SIZE_LIMIT, &mut rng, &draw);
    let t = ExpTree::new(bin(ExpNodeOp::Add, a, var()));
    assert_eq!(f(t.fitness(&samples(&[(0.0, 0.0)]), &arith)), f32::INFINITY);
}

#[test]
fn evolve_rejects_empty_input() {
    let mut rng = StdRng::seed_from_u64(1);
    assert!(Evolve::new(Vec::new(), 10, numerics(), &mut rng).is_none());
    assert!(Evolve::new(samples(&[(0.0, 0.0)]), 0, numerics(), &mut rng).is_none());
}

#[test]
fn evolve_population_stays_sorted() {
    let mut rng = StdRng::seed_from_u64(11);
    let data = samples(&[(-2.0, -2.0), (-1.0, -1.0), (0.0, 0.0), (1.0, 1.0), (2.0, 2.0)]);
    let mut e = Evolve::new(data.clone(), 20, numerics(), &mut rng).unwrap();
    let mut best = f(e.best_fitness());
    for g in 0..200 {
        e.step(1, &mut rng);
        let fits: Vec<f32> = e.members().iter().map(|t| f(t.fitness(&data, &arith))).collect();
        assert_eq!(fits.len(), 20);
        assert!(fits.windows(2).all(|w| w[0] <= w[1]));
        let now = f(e.best_fitness());
        assert!(now <= best);
        best = now;
        assert_eq!(e.total_iterations(), g + 1);
        assert!(e.iters_to_best() <= g);
    }
}

#[test]
fn evolve_finds_identity() {
    let mut rng = StdRng::seed_from_u64(2024);
    let data = samples(&[(-2.0, -2.0), (-1.0, -1.0), (0.0, 0.0), (1.0, 1.0), (2.0, 2.0)]);
    let mut e = Evolve::new(data, 50, numerics(), &mut rng).unwrap();
    e.step(10_000, &mut rng);
    assert!(f(e.best_fitness()) <= 1.5);
    assert_eq!(f(e.best_eval(b(1.5))), 1.5);
}

#[test]
fn evolve_finds_constant() {
    let mut rng = StdRng::seed_from_u64(99);
    let data = samples(&[(-2.0, 2.0), (-1.0, 2.0), (0.0, 2.0), (1.0, 2.0), (2.0, 2.0)]);
    let mut e = Evolve::new(data, 50, numerics(), &mut rng).unwrap();
    e.step(10_000, &mut rng);
    let best = e.best_individual().simplify(&arith, &near);
    let c = const_value(best.root()).unwrap();
    assert!((c - 2.0).abs() < 0.02);
    assert!(f(e.best_fitness()) <= 1.1);
}

#[test]
fn meta_plan_has_one_less_than_population() {
    let mut rng = StdRng::seed_from_u64(4);
    for m in 1..12usize {
        let plan = plan_generation(m, &mut rng);
        assert_eq!(plan.len(), m - 1);
        for o in &plan {
            match *o {
                Offspring::Mutate(i) => assert!(i < m / 2),
                Offspring::Cross(a, c) => assert!(a < m && c < m && a != c),
            }
        }
    }
}

#[test]
fn crossover_takes_each_field_from_a_parent() {
    let mut rng = StdRng::seed_from_u64(8);
    let parents = vec![vec![1u32, 2, 3, 4, 5, 6, 7, 8, 9, 10], vec![11u32, 12, 13, 14, 15, 16, 17, 18, 19, 20]];
    let mut from_first = 0;
    for _ in 0..20 {
        let child = crossover(&parents, &mut rng);
        assert_eq!(child.len(), 10);
        for (k, v) in child.iter().enumerate() {
            assert!(*v == parents[0][k] || *v == parents[1][k]);
            if *v == parents[0][k] {
                from_first += 1;
            }
        }
    }
    assert!(from_first > 0 && from_first < 200);
}

#[test]
fn ranking_sorts_and_truncates() {
    let keys = vec![5u32, 1, 4, 1, 9, 2];
    assert_eq!(ranking(&keys, 4), vec![1, 3, 5, 2]);
    assert_eq!(ranking(&keys, 10), vec![1, 3, 5, 2, 0, 4]);
    assert_eq!(ranking(&keys, 0), Vec::<usize>::new());
    assert_eq!(ranking(&Vec::new(), 3), Vec::<usize>::new());
}

#[test]
fn meta_generation_keeps_population_of_four() {
    let mut rng = StdRng::seed_from_u64(6);
    let mut keys = vec![40u32, 10, 30, 20];
    for _ in 0..2 {
        let order = ranking(&keys, 4);
        let sorted: Vec<u32> = order.iter().map(|&i| keys[i]).collect();
        let plan = plan_generation(4, &mut rng);
        let mut next = vec![sorted[0]];
        for (k, _) in plan.iter().enumerate() {
            next.push(sorted[0] + 1 + k as u32);
        }
        keys = next;
        assert_eq!(keys.len(), 4);
    }
    let order = ranking(&keys, 4);
    assert_eq!(order.len(), 4);
    assert!(order.windows(2).all(|w| keys[w[0]] <= keys[w[1]]));
}

#[test]
fn evolve_finds_sine() {
    let mut rng = StdRng::seed_from_u64(31);
    let points: Vec<(f32, f32)> = (-5..=5).map(|i| (i as f32, (i as f32).sin())).collect();
    let mut e = Evolve::new(samples(&points), 50, numerics(), &mut rng).unwrap();
    e.step(50_000, &mut rng);
    assert!(f(e.best_fitness()) < 3.0);
}

#[test]
fn order_keys_follow_value_order() {
    let values = [f32::NEG_INFINITY, -3.5, -1.0, -0.0, 0.0, 1.0e-6, 2.0, 7.25, f32::INFINITY];
    for w in values.windows(2) {
        assert!(order_key(b(w[0])) < order_key(b(w[1])));
    }
}

fn always_heads(_: Chance) -> bool {
    true
}

fn always_tails(_: Chance) -> bool {
    false
}

#[test]
fn jitter_with_sure_coins() {
    let mut rng = StdRng::seed_from_u64(12);
    let c = ExpTree::new(konst(4.0));
    let kept = c.root().jitter(&c, &mut rng, &draw, &always_tails);
    assert_eq!(const_value(&kept), Some(4.0));
    let moved = c.root().jitter(&c, &mut rng, &draw, &always_heads);
    assert!(const_value(&moved).is_some());
    let p = ExpTree::new(bin(ExpNodeOp::Exp, var(), konst(3.0)));
    let straight = p.root().jitter(&p, &mut rng, &draw, &always_tails);
    assert_eq!(straight.children()[0].op(), ExpNodeOp::Var);
    assert_eq!(const_value(&straight.children()[1]), Some(3.0));
}

#[test]
fn mutate_with_sure_replacement() {
    let mut rng = StdRng::seed_from_u64(13);
    let t = ExpTree::new(bin(ExpNodeOp::Add, var(), var()));
    for _ in 0..20 {
        let m = t.mutate(&mut rng, &draw, &always_heads);
        assert!(m.size() >= 1 && m.size() <= SIZE_LIMIT - 3);
        assert!(caches_hold(m.root()));
    }
    let same_shape = t.mutate(&mut rng, &draw, &always_tails);
    assert!(same(same_shape.root(), t.root()));
}

#[test]
fn generation_with_tails_keeps_copies_of_the_best() {
    let mut rng = StdRng::seed_from_u64(14);
    let data = samples(&[(0.0, 0.0), (1.0, 1.0)]);
    let num: Numerics<fn(Arith) -> u32, fn(u32, u32) -> bool, fn(Draw) -> u32, fn(Chance) -> bool> =
        Numerics { ar: arith, near, draw, chance: always_tails };
    let mut e = Evolve::new(data.clone(), 4, num, &mut rng).unwrap();
    let best = e.best_individual().simplify(&arith, &near);
    e.step(1, &mut rng);
    let members = e.members();
    assert_eq!(members.len(), 4);
    assert!(members.iter().filter(|m| same(m.root(), best.root())).count() >= 2);
}
