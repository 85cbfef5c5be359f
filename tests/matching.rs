use ac_matcher::{
    ac_match, multiset, try_ac_match, Arena, MathAC, MatchError, Op, Pattern, Subst, SubstValue,
};

fn name(s: &str) -> String {
    s.to_string()
}

#[test]
fn test_pattern() {
    let add_zero = Pattern::Op(
        Op::Add,
        vec![Pattern::Const(0), Pattern::Var(name("x")), Pattern::Rest(name("xs"))],
    );
    let mul_zero = Pattern::Op(Op::Mul, vec![Pattern::Const(0), Pattern::Rest(name("xs"))]);

    println!("{add_zero:?}");
    println!("{mul_zero:?}");
}

#[test]
fn test_match() {
    let add_zero = Pattern::Op(
        Op::Add,
        vec![Pattern::Const(0), Pattern::Var(name("x")), Pattern::Rest(name("xs"))],
    );
    let mul_zero = Pattern::Op(Op::Mul, vec![Pattern::Const(0), Pattern::Rest(name("xs"))]);

    let mut arena = Arena::new();
    let ex = arena.insert(MathAC::Var(name("x")));
    let ey = arena.insert(MathAC::Var(name("y")));
    let e0 = arena.insert(MathAC::Const(0));
    let e1 = arena.insert(MathAC::Const(1));

    let expr = arena.insert(MathAC::OpAC(Op::Add, multiset(vec![ex, e1, e0, ey])));
    let expr2 = arena.insert(MathAC::OpAC(Op::Mul, multiset(vec![ex, e1, e0, ey])));

    {
        let mut subst = Subst::new();
        assert!(ac_match(expr, &add_zero, &arena, &mut subst));
        for i in 0..arena.len() {
            println!("{i}: {:?}", arena.index(i));
        }
        for i in 0..subst.len() {
            let (k, v) = subst.binding(i);
            println!("{k} |-> {v:?}");
        }
    }

    {
        let mut subst = Subst::new();
        assert!(ac_match(expr2, &mul_zero, &arena, &mut subst));
        for i in 0..subst.len() {
            let (k, v) = subst.binding(i);
            println!("{k} |-> {v:?}");
        }
    }
}

/// Arena of four leaves and an AC node over them, with the given operator.
fn leaves_and_ac(op: Op) -> (Arena, usize) {
    let mut arena = Arena::new();
    let ex = arena.insert(MathAC::Var(name("x")));
    let ey = arena.insert(MathAC::Var(name("y")));
    let e0 = arena.insert(MathAC::Const(0));
    let e1 = arena.insert(MathAC::Const(1));
    let h = arena.insert(MathAC::OpAC(op, multiset(vec![ex, ey, e0, e1])));
    (arena, h)
}

#[test]
fn insert_hands_out_consecutive_handles() {
    let mut arena = Arena::new();
    assert_eq!(arena.insert(MathAC::Const(3)), 0);
    assert_eq!(arena.insert(MathAC::Var(name("a"))), 1);
    assert_eq!(arena.insert(MathAC::Op(Op::Sub, [0, 1])), 2);
    assert_eq!(arena.len(), 3);
    assert!(matches!(arena.index(2), MathAC::Op(Op::Sub, [0, 1])));
}

#[test]
fn multiset_counts_and_orders_handles() {
    let m = multiset(vec![5, 1, 5, 3, 5]);
    assert_eq!(m.len(), 3);
    assert_eq!(m.entry(0), (1, 1));
    assert_eq!(m.entry(1), (3, 1));
    assert_eq!(m.entry(2), (5, 3));
    assert_eq!(m.count(5), 3);
    assert_eq!(m.count(4), 0);
    assert_eq!(multiset(vec![]).len(), 0);
    assert_eq!(multiset(vec![3, 1, 3]), multiset(vec![1, 3, 3]));
}

#[test]
fn scenario_add_zero_binds_atom_and_rest() {
    let (arena, h) = leaves_and_ac(Op::Add);
    let pat = Pattern::Op(
        Op::Add,
        vec![Pattern::Const(0), Pattern::Var(name("x")), Pattern::Rest(name("xs"))],
    );
    let mut subst = Subst::new();
    assert!(ac_match(h, &pat, &arena, &mut subst));
    assert_eq!(subst.len(), 2);
    assert_eq!(subst.get(&name("x")), Some(&SubstValue::Atom(0)));
    assert_eq!(subst.get(&name("xs")), Some(&SubstValue::Rest(multiset(vec![1, 3]))));
}

#[test]
fn scenario_mul_zero_binds_three_remaining() {
    let (arena, h) = leaves_and_ac(Op::Mul);
    let pat = Pattern::Op(Op::Mul, vec![Pattern::Const(0), Pattern::Rest(name("xs"))]);
    let mut subst = Subst::new();
    assert!(ac_match(h, &pat, &arena, &mut subst));
    assert_eq!(subst.len(), 1);
    assert_eq!(subst.get(&name("xs")), Some(&SubstValue::Rest(multiset(vec![0, 1, 3]))));
}

#[test]
fn scenario_top_level_rest_aborts() {
    let (arena, h) = leaves_and_ac(Op::Add);
    let mut subst = Subst::new();
    let r = try_ac_match(h, &Pattern::Rest(name("xs")), &arena, &mut subst);
    assert_eq!(r, Err(MatchError::RestOutsideOp));
    assert_eq!(subst.len(), 0);
}

#[test]
fn scenario_const_mismatch_fails_untouched() {
    let mut arena = Arena::new();
    let h = arena.insert(MathAC::Const(5));
    let mut subst = Subst::new();
    assert!(!ac_match(h, &Pattern::Const(0), &arena, &mut subst));
    assert_eq!(subst.len(), 0);
    assert!(ac_match(h, &Pattern::Const(5), &arena, &mut subst));
    assert_eq!(subst.len(), 0);
}

#[test]
fn repeated_matches_agree() {
    let (arena, h) = leaves_and_ac(Op::Add);
    let pat = Pattern::Op(
        Op::Add,
        vec![Pattern::Var(name("a")), Pattern::Var(name("b")), Pattern::Rest(name("r"))],
    );
    let mut s1 = Subst::new();
    let mut s2 = Subst::new();
    assert_eq!(ac_match(h, &pat, &arena, &mut s1), ac_match(h, &pat, &arena, &mut s2));
    assert_eq!(s1.len(), s2.len());
    for i in 0..s1.len() {
        assert_eq!(s1.binding(i), s2.binding(i));
    }
    assert_eq!(s1.get(&name("a")), Some(&SubstValue::Atom(0)));
    assert_eq!(s1.get(&name("b")), Some(&SubstValue::Atom(1)));
    assert_eq!(s1.get(&name("r")), Some(&SubstValue::Rest(multiset(vec![2, 3]))));
}

#[test]
fn same_variable_needs_same_handle() {
    let mut arena = Arena::new();
    let a = arena.insert(MathAC::Var(name("a")));
    let b = arena.insert(MathAC::Var(name("a")));
    let same = arena.insert(MathAC::Op(Op::Sub, [a, a]));
    let differ = arena.insert(MathAC::Op(Op::Sub, [a, b]));
    let pat = Pattern::Op(Op::Sub, vec![Pattern::Var(name("x")), Pattern::Var(name("x"))]);

    let mut subst = Subst::new();
    assert!(ac_match(same, &pat, &arena, &mut subst));
    assert_eq!(subst.len(), 1);
    assert_eq!(subst.get(&name("x")), Some(&SubstValue::Atom(a)));

    // structurally equal but separately inserted nodes are different handles
    let mut subst = Subst::new();
    assert!(!ac_match(differ, &pat, &arena, &mut subst));
    assert_eq!(subst.len(), 0);
}

#[test]
fn success_binds_each_pattern_variable_once() {
    let mut arena = Arena::new();
    let x = arena.insert(MathAC::Var(name("x")));
    let one = arena.insert(MathAC::Const(1));
    let inner = arena.insert(MathAC::Op(Op::Div, [x, one]));
    let top = arena.insert(MathAC::OpAC(Op::Add, multiset(vec![inner, one, one])));
    let pat = Pattern::Op(
        Op::Add,
        vec![
            Pattern::Op(Op::Div, vec![Pattern::Var(name("n")), Pattern::Var(name("d"))]),
            Pattern::Var(name("d")),
            Pattern::Rest(name("more")),
        ],
    );
    let mut subst = Subst::new();
    assert!(ac_match(top, &pat, &arena, &mut subst));
    assert_eq!(subst.len(), 3);
    assert_eq!(subst.get(&name("n")), Some(&SubstValue::Atom(x)));
    assert_eq!(subst.get(&name("d")), Some(&SubstValue::Atom(one)));
    assert_eq!(subst.get(&name("more")), Some(&SubstValue::Rest(multiset(vec![one]))));
}

#[test]
fn failed_binary_match_leaves_no_bindings() {
    let mut arena = Arena::new();
    let x = arena.insert(MathAC::Var(name("x")));
    let two = arena.insert(MathAC::Const(2));
    let node = arena.insert(MathAC::Op(Op::Add, [x, two]));
    let pat = Pattern::Op(Op::Add, vec![Pattern::Var(name("v")), Pattern::Const(7)]);
    let mut subst = Subst::new();
    assert!(!ac_match(node, &pat, &arena, &mut subst));
    assert_eq!(subst.len(), 0);
}

#[test]
fn failed_ac_match_leaves_no_bindings() {
    let (arena, h) = leaves_and_ac(Op::Add);
    let pat = Pattern::Op(Op::Add, vec![Pattern::Var(name("v")), Pattern::Const(9)]);
    let mut subst = Subst::new();
    assert!(!ac_match(h, &pat, &arena, &mut subst));
    assert_eq!(subst.len(), 0);
}

#[test]
fn greedy_search_misses_a_split() {
    let mut arena = Arena::new();
    let zero = arena.insert(MathAC::Const(0));
    let one = arena.insert(MathAC::Const(1));
    let sum = arena.insert(MathAC::OpAC(Op::Add, multiset(vec![zero, one])));
    // `v` takes handle 0 first, which `0` would have needed.
    let pat = Pattern::Op(Op::Add, vec![Pattern::Var(name("v")), Pattern::Const(0)]);
    let mut subst = Subst::new();
    assert!(!ac_match(sum, &pat, &arena, &mut subst));
    assert_eq!(subst.len(), 0);
    // the other order of sub-patterns finds it
    let pat = Pattern::Op(Op::Add, vec![Pattern::Const(0), Pattern::Var(name("v"))]);
    assert!(ac_match(sum, &pat, &arena, &mut subst));
    assert_eq!(subst.get(&name("v")), Some(&SubstValue::Atom(one)));
}

#[test]
fn leftover_operands_are_ignored_without_rest() {
    let (arena, h) = leaves_and_ac(Op::Add);
    let pat = Pattern::Op(Op::Add, vec![Pattern::Const(1)]);
    let mut subst = Subst::new();
    assert!(ac_match(h, &pat, &arena, &mut subst));
    assert_eq!(subst.len(), 0);
}

#[test]
fn repeated_operand_can_be_taken_twice() {
    let mut arena = Arena::new();
    let zero = arena.insert(MathAC::Const(0));
    let sum = arena.insert(MathAC::OpAC(Op::Mul, multiset(vec![zero, zero])));
    let pat = Pattern::Op(
        Op::Mul,
        vec![Pattern::Const(0), Pattern::Const(0), Pattern::Rest(name("r"))],
    );
    let mut subst = Subst::new();
    assert!(ac_match(sum, &pat, &arena, &mut subst));
    assert_eq!(subst.get(&name("r")), Some(&SubstValue::Rest(multiset(vec![]))));
    let three = Pattern::Op(Op::Mul, vec![Pattern::Const(0), Pattern::Const(0), Pattern::Const(0)]);
    let mut subst = Subst::new();
    assert!(!ac_match(sum, &three, &arena, &mut subst));
}

#[test]
fn operator_mismatch_fails() {
    let (arena, h) = leaves_and_ac(Op::Add);
    let pat = Pattern::Op(Op::Mul, vec![Pattern::Rest(name("xs"))]);
    let mut subst = Subst::new();
    assert!(!ac_match(h, &pat, &arena, &mut subst));
    assert!(!ac_match(0, &Pattern::Const(0), &arena, &mut subst));
    assert_eq!(subst.len(), 0);
}

#[test]
fn rest_already_bound_is_checked() {
    let (arena, h) = leaves_and_ac(Op::Add);
    let pat = Pattern::Op(Op::Add, vec![Pattern::Rest(name("xs"))]);
    let mut subst = Subst::new();
    assert!(ac_match(h, &pat, &arena, &mut subst));
    assert!(ac_match(h, &pat, &arena, &mut subst));
    assert_eq!(subst.len(), 1);
    let smaller = Pattern::Op(Op::Add, vec![Pattern::Const(0), Pattern::Rest(name("xs"))]);
    assert!(!ac_match(h, &smaller, &arena, &mut subst));
    assert_eq!(subst.len(), 1);
}

#[test]
fn binary_pattern_arity_aborts() {
    let mut arena = Arena::new();
    let a = arena.insert(MathAC::Const(1));
    let node = arena.insert(MathAC::Op(Op::Add, [a, a]));
    let pat = Pattern::Op(Op::Add, vec![Pattern::Var(name("v"))]);
    let mut subst = Subst::new();
    assert_eq!(try_ac_match(node, &pat, &arena, &mut subst), Err(MatchError::BinaryArity));
    let nested = Pattern::Op(Op::Add, vec![Pattern::Rest(name("r")), Pattern::Const(1)]);
    assert_eq!(try_ac_match(node, &nested, &arena, &mut subst), Err(MatchError::RestOutsideOp));
    assert_eq!(subst.len(), 0);
}

#[test]
fn unknown_handle_aborts() {
    let (arena, _) = leaves_and_ac(Op::Add);
    let mut subst = Subst::new();
    assert_eq!(
        try_ac_match(99, &Pattern::Var(name("v")), &arena, &mut subst),
        Err(MatchError::UnknownHandle)
    );
    assert_eq!(try_ac_match(2, &Pattern::Const(0), &arena, &mut subst), Ok(true));
}

#[test]
fn multiset_ignores_input_order() {
    let a = multiset(vec![2, 0, 2]);
    assert_eq!(a.len(), 2);
    assert_eq!(a.entry(0), (0, 1));
    assert_eq!(a.entry(1), (2, 2));
    assert_eq!(a, multiset(vec![2, 2, 0]));
    assert_eq!(a, multiset(vec![0, 2, 2]));
}

#[test]
fn matched_operand_loses_one_count() {
    let mut arena = Arena::new();
    let zero = arena.insert(MathAC::Const(0));
    let one = arena.insert(MathAC::Const(1));
    let sum = arena.insert(MathAC::OpAC(Op::Add, multiset(vec![zero, zero, one])));
    let pat = Pattern::Op(Op::Add, vec![Pattern::Const(0), Pattern::Rest(name("xs"))]);
    let mut subst = Subst::new();
    assert!(ac_match(sum, &pat, &arena, &mut subst));
    assert_eq!(subst.get(&name("xs")), Some(&SubstValue::Rest(multiset(vec![zero, one]))));
}
