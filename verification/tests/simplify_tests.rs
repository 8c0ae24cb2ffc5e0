use polar_simplify::bindings::Bindings;
use polar_simplify::driver::{simplify_bindings, simplify_trivial_constraint, sub_this};
use polar_simplify::invert::invert_operation;
use polar_simplify::coherence::is_coherent;
use polar_simplify::simplify::Simplifier;
use polar_simplify::terms::{clone_term, term_eq, Operation, Operator, Symbol, Term};

fn var(i: u64) -> Term {
    Term::Variable(Symbol::Var(i))
}

fn num(i: i64) -> Term {
    Term::Integer(i)
}

fn expr(operator: Operator, args: Vec<Term>) -> Term {
    Term::Expression(Operation { operator, args })
}

fn op(operator: Operator, args: Vec<Term>) -> Operation {
    Operation { operator, args }
}

fn unify(a: Term, b: Term) -> Term {
    expr(Operator::Unify, vec![a, b])
}

fn eq(a: Term, b: Term) -> Term {
    expr(Operator::Eq, vec![a, b])
}

fn conj(args: Vec<Term>) -> Term {
    expr(Operator::And, args)
}

fn not(t: Term) -> Term {
    expr(Operator::Not, vec![t])
}

fn simplify(v: Symbol, t: Term) -> Term {
    let mut s = Simplifier::new(v);
    s.simplify_partial(t)
}

fn single_binding(v: Symbol, t: Term) -> Bindings {
    let mut b = Bindings::new();
    b.insert(v, t);
    b
}

#[test]
fn idempotence_quiesced_term_unchanged() {
    let v = Symbol::Var(1);
    let t = conj(vec![eq(num(1), num(2)), conj(vec![eq(num(1), num(2))])]);
    let once = simplify(v, t);
    let twice = simplify(v, clone_term(&once));
    assert!(term_eq(&once, &twice));
}

#[test]
fn determinism_same_input_same_output() {
    let v = Symbol::Var(1);
    let t = conj(vec![eq(num(3), num(4)), conj(vec![eq(num(1), num(2))])]);
    let a = simplify(v, clone_term(&t));
    let b = simplify(v, t);
    assert!(term_eq(&a, &b));
}

#[test]
fn self_unification_collapses_to_value() {
    let a = Symbol::Var(1);
    let t = conj(vec![unify(Term::Variable(a), num(3))]);
    let out = simplify_bindings(single_binding(a, t)).expect("satisfiable");
    let got = out.get(a).expect("bound");
    assert!(term_eq(got, &num(3)));
}

#[test]
fn redundancy_elimination() {
    let v = Symbol::Var(1);
    let t = conj(vec![eq(num(1), num(2)), conj(vec![eq(num(1), num(2))])]);
    let r = simplify(v, t);
    assert!(term_eq(&r, &eq(num(1), num(2))));
}

#[test]
fn incoherent_conjunction_is_false() {
    let v = Symbol::Var(1);
    let x = var(9);
    let t = conj(vec![unify(clone_term(&x), num(1)), unify(clone_term(&x), num(2))]);
    let r = simplify(v, t);
    assert!(term_eq(&r, &expr(Operator::Or, vec![])));
}

#[test]
fn incoherent_binding_set_is_unsatisfiable() {
    let a = Symbol::Var(1);
    let x = var(9);
    let t = conj(vec![unify(clone_term(&x), num(1)), unify(clone_term(&x), num(2))]);
    assert!(simplify_bindings(single_binding(a, t)).is_none());
}

#[test]
fn double_negation_leaves_no_not() {
    // Inverting Eq gives Neq, and inverting that gives Unify: the double
    // negation of an equation is the equivalent unification, with no
    // residual negation.
    let v = Symbol::Var(1);
    let r = simplify(v, not(not(eq(num(1), num(2)))));
    assert!(term_eq(&r, &unify(num(1), num(2))));
}

#[test]
fn complement_of_each_comparison() {
    let v = Symbol::Var(1);
    let cases = vec![
        (Operator::Unify, Operator::Neq),
        (Operator::Eq, Operator::Neq),
        (Operator::Neq, Operator::Unify),
        (Operator::Gt, Operator::Leq),
        (Operator::Geq, Operator::Lt),
        (Operator::Lt, Operator::Geq),
        (Operator::Leq, Operator::Gt),
    ];
    for (cmp, complement) in cases {
        let r = simplify(v, not(expr(cmp, vec![num(1), num(2)])));
        assert!(term_eq(&r, &expr(complement, vec![num(1), num(2)])));
    }
}

#[test]
fn ground_binding_passes_through() {
    let a = Symbol::Var(1);
    let out = simplify_bindings(single_binding(a, num(42))).expect("satisfiable");
    assert_eq!(out.len(), 1);
    assert!(term_eq(out.get(a).expect("bound"), &num(42)));
}

#[test]
fn end_to_end_duplicate_self_unifications() {
    let a = Symbol::Var(1);
    let t = conj(vec![
        unify(Term::Variable(a), num(3)),
        unify(Term::Variable(a), num(3)),
    ]);
    let out = simplify_bindings(single_binding(a, t)).expect("satisfiable");
    assert!(term_eq(out.get(a).expect("bound"), &num(3)));
}

#[test]
fn end_to_end_nested_conjunction_flattens() {
    let a = Symbol::Var(1);
    let t = conj(vec![eq(num(3), num(4)), conj(vec![eq(num(1), num(2))])]);
    let out = simplify_bindings(single_binding(a, t)).expect("satisfiable");
    let expected = conj(vec![eq(num(3), num(4)), eq(num(1), num(2))]);
    assert!(term_eq(out.get(a).expect("bound"), &expected));
}

#[test]
fn invert_operation_table() {
    let cases = vec![
        (Operator::Unify, Operator::Neq),
        (Operator::Eq, Operator::Neq),
        (Operator::Neq, Operator::Unify),
        (Operator::Gt, Operator::Leq),
        (Operator::Geq, Operator::Lt),
        (Operator::Lt, Operator::Geq),
        (Operator::Leq, Operator::Gt),
    ];
    for (from, to) in cases {
        let r = invert_operation(op(from, vec![num(1), num(2)]));
        assert_eq!(r.operator, to);
        assert_eq!(r.args.len(), 2);
        assert!(term_eq(&r.args[0], &num(1)));
        assert!(term_eq(&r.args[1], &num(2)));
    }
}

#[test]
fn invert_operation_recurses_into_junctions() {
    let r = invert_operation(op(Operator::And, vec![eq(num(1), num(2))]));
    assert_eq!(r.operator, Operator::Or);
    assert_eq!(r.args.len(), 1);
    assert!(term_eq(&r.args[0], &expr(Operator::Neq, vec![num(1), num(2)])));
}

#[test]
fn invert_operation_isa_is_literal_negation() {
    let r = invert_operation(op(Operator::Isa, vec![var(1), num(2)]));
    assert_eq!(r.operator, Operator::Not);
    assert!(term_eq(&r.args[0], &expr(Operator::Isa, vec![var(1), num(2)])));
}

#[test]
fn invert_operation_unwraps_negation() {
    let r = invert_operation(op(Operator::Not, vec![eq(num(1), num(2))]));
    assert_eq!(r.operator, Operator::Eq);
}

#[test]
fn invert_operation_passes_data_operators_through() {
    let r = invert_operation(op(Operator::Dot, vec![var(1), num(0)]));
    assert_eq!(r.operator, Operator::Dot);
}

#[test]
fn truth_constants_are_fixed_points() {
    let v = Symbol::Var(1);
    let tru = expr(Operator::And, vec![]);
    let fls = expr(Operator::Or, vec![]);
    assert!(term_eq(&simplify(v, clone_term(&tru)), &tru));
    assert!(term_eq(&simplify(v, clone_term(&fls)), &fls));
}

#[test]
fn trivial_unification_is_true() {
    let v = Symbol::Var(1);
    let r = simplify(v, unify(var(5), var(5)));
    assert!(term_eq(&r, &expr(Operator::And, vec![])));
}

#[test]
fn coherence_checker_accepts_and_rejects() {
    let coherent = op(
        Operator::And,
        vec![unify(var(9), num(1)), unify(var(9), num(1)), eq(num(1), num(2))],
    );
    assert!(is_coherent(&coherent));
    let clash = op(Operator::And, vec![unify(var(9), num(1)), unify(num(2), var(9))]);
    assert!(!is_coherent(&clash));
    let two_vars = op(Operator::And, vec![unify(var(8), var(9)), unify(var(8), var(7))]);
    assert!(is_coherent(&two_vars));
}

#[test]
fn trivial_constraint_flattening() {
    let a = Symbol::Var(1);
    let r = simplify_trivial_constraint(a, unify(Term::Variable(a), num(3)));
    assert!(term_eq(&r, &num(3)));
    let r = simplify_trivial_constraint(a, unify(num(3), Term::Variable(a)));
    assert!(term_eq(&r, &num(3)));
    let kept = unify(var(2), num(3));
    let r = simplify_trivial_constraint(a, clone_term(&kept));
    assert!(term_eq(&r, &kept));
}

#[test]
fn sub_this_renames_inner_occurrences_only() {
    let a = Symbol::Var(1);
    let t = conj(vec![unify(Term::Variable(a), num(3))]);
    let r = sub_this(a, t);
    let expected = conj(vec![unify(Term::Variable(Symbol::This), num(3))]);
    assert!(term_eq(&r, &expected));
    // A term that is literally the variable itself is left alone.
    let r = sub_this(a, Term::Variable(a));
    assert!(term_eq(&r, &Term::Variable(a)));
}

#[test]
fn temporary_variables_are_dropped_and_resolved() {
    let a = Symbol::Var(1);
    let tmp = Symbol::Temp(7);
    let mut b = Bindings::new();
    b.insert(tmp, num(5));
    b.insert(a, Term::Variable(tmp));
    let out = simplify_bindings(b).expect("satisfiable");
    assert_eq!(out.len(), 1);
    assert!(out.get(tmp).is_none());
    assert!(term_eq(out.get(a).expect("bound"), &num(5)));
}

#[test]
fn subject_constraint_via_projection_is_kept_momentarily() {
    // A constraint between a projection of the subject and another variable
    // records a substitution for that variable.
    let a = Symbol::Var(1);
    let s = Simplifier::new(a);
    assert!(s.is_this_var(&Term::Variable(a)));
    assert!(s.is_this_var(&expr(Operator::Dot, vec![Term::Variable(a), num(0)])));
    assert!(!s.is_this_var(&var(2)));
}

#[test]
fn simplifier_bind_and_deref() {
    let a = Symbol::Var(1);
    let w = Symbol::Var(2);
    let mut s = Simplifier::new(a);
    assert!(!s.is_bound(&w));
    s.bind(w, num(4), false);
    assert!(s.is_bound(&w));
    assert!(term_eq(&s.deref(&Term::Variable(w)), &num(4)));
    // A negated binding wraps the value in a negation.
    let u = Symbol::Var(3);
    s.bind(u, num(9), true);
    assert!(term_eq(&s.deref(&Term::Variable(u)), &not(num(9))));
    // Dereferencing anything but a bound variable is the identity.
    assert!(term_eq(&s.deref(&num(8)), &num(8)));
    assert!(term_eq(&s.deref(&Term::Variable(a)), &Term::Variable(a)));
}

#[test]
fn substitution_consumes_ground_unification() {
    // And(w = 4, w > 2) substitutes 4 for w and drops the consumed
    // unification.
    let a = Symbol::Var(1);
    let w = var(2);
    let t = conj(vec![
        unify(clone_term(&w), num(4)),
        expr(Operator::Gt, vec![clone_term(&w), num(2)]),
    ]);
    let r = simplify(a, t);
    assert!(term_eq(&r, &expr(Operator::Gt, vec![num(4), num(2)])));
}

#[test]
fn structural_equality_and_clone() {
    let t = conj(vec![
        unify(var(1), num(3)),
        Term::List(vec![num(1), Term::Boolean(true), Term::List(vec![])]),
    ]);
    let c = clone_term(&t);
    assert!(term_eq(&t, &c));
    assert!(!term_eq(&t, &num(3)));
    assert!(!term_eq(&Term::Boolean(true), &Term::Boolean(false)));
    assert!(!term_eq(
        &Term::List(vec![num(1)]),
        &Term::List(vec![num(1), num(2)])
    ));
}

#[test]
fn bindings_lookup_latest_entry_wins() {
    let a = Symbol::Var(1);
    let mut b = Bindings::new();
    assert!(b.get(a).is_none());
    b.insert(a, num(1));
    b.insert(a, num(2));
    assert!(term_eq(b.get(a).expect("bound"), &num(2)));
    assert_eq!(b.len(), 2);
}

#[test]
fn multiple_bindings_mixed_outcome() {
    let a = Symbol::Var(1);
    let b2 = Symbol::Var(2);
    let mut b = Bindings::new();
    b.insert(a, num(1));
    b.insert(b2, conj(vec![unify(Term::Variable(b2), num(7))]));
    let out = simplify_bindings(b).expect("satisfiable");
    assert_eq!(out.len(), 2);
    assert!(term_eq(out.get(a).expect("bound"), &num(1)));
    assert!(term_eq(out.get(b2).expect("bound"), &num(7)));
}

#[test]
fn comparison_with_negated_operand_inverts() {
    // Gt(Not(Eq(1,2)), 3) pushes the negation out: Leq(Eq(1,2), 3).
    let v = Symbol::Var(1);
    let t = expr(Operator::Gt, vec![not(eq(num(1), num(2))), num(3)]);
    let r = simplify(v, t);
    assert!(term_eq(&r, &expr(Operator::Leq, vec![eq(num(1), num(2)), num(3)])));
}

#[test]
fn negated_substitution_inverts_comparison() {
    // And(w != 4, w > 2) records w as "not 4"; substituting pushes the
    // negation into the comparison: Leq(4, 2).
    let a = Symbol::Var(1);
    let w = var(2);
    let t = conj(vec![
        expr(Operator::Neq, vec![clone_term(&w), num(4)]),
        expr(Operator::Gt, vec![clone_term(&w), num(2)]),
    ]);
    let r = simplify(a, t);
    assert!(term_eq(&r, &expr(Operator::Leq, vec![num(4), num(2)])));
}

#[test]
fn list_values_pass_through_unchanged() {
    let a = Symbol::Var(1);
    let value = Term::List(vec![num(1), Term::Boolean(true), Term::List(vec![num(2)])]);
    let out = simplify_bindings(single_binding(a, clone_term(&value))).expect("satisfiable");
    assert!(term_eq(out.get(a).expect("bound"), &value));
}
