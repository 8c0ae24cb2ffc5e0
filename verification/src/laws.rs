//! The general properties of the simplifier, stated over the model and
//! proved once for all inputs.

use vstd::prelude::*;
use crate::bindings::smap_of;
use crate::model::{
    spec_as_expression, spec_deref, spec_is_true_term, spec_preprocess,
    spec_any_unsat, spec_entry_result, spec_falseish, spec_fold_args, spec_fold_operation,
    spec_fold_parts, spec_fold_term, spec_gen_fold_operation, spec_out_entries,
    spec_simplify_binding, spec_simplify_bindings, spec_simplify_partial, spec_sub_term,
    spec_sub_terms, spec_sub_this, spec_trivial_constraint, SIMPLIFY_FUEL,
};
use crate::model::spec_run_simplifier;
use crate::terms::{
    spec_false, spec_ground, spec_ground_value, Operator, SpecOp, SpecTerm, Symbol,
};

verus! {

/// A term the rewrite engine leaves alone under the map `b`: plain ground
/// data, or a variable that has no substitution.
pub open spec fn spec_inert(b: Map<Symbol, SpecTerm>, t: SpecTerm) -> bool {
    spec_ground_value(t) || match t {
        SpecTerm::Variable(w) => !b.contains_key(w),
        _ => false,
    }
}

/// Rewriting leaves a ground value unchanged and records nothing.
pub proof fn lemma_fold_ground_value(this: Symbol, b: Map<Symbol, SpecTerm>, t: SpecTerm, fuel: nat)
    requires
        spec_ground_value(t),
    ensures
        spec_fold_term(this, b, t, fuel) == (b, t),
    decreases t, 1int, 0int,
{
    match t {
        SpecTerm::List(ts) => {
            lemma_fold_ground_args(this, b, ts, ts.len() as int, fuel);
            assert(ts.subrange(0, ts.len() as int) =~= ts);
            assert(spec_fold_parts(this, b, t, fuel) == (b, t));
        },
        _ => {},
    }
}

proof fn lemma_fold_ground_args(
    this: Symbol,
    b: Map<Symbol, SpecTerm>,
    ts: Seq<SpecTerm>,
    n: int,
    fuel: nat,
)
    requires
        0 <= n <= ts.len(),
        forall|i: int| 0 <= i < ts.len() ==> spec_ground_value(#[trigger] ts[i]),
    ensures
        spec_fold_args(this, b, ts, n, fuel) == (b, ts.subrange(0, n)),
    decreases ts, 0int, n,
{
    if n <= 0 {
        assert(ts.subrange(0, 0) =~= Seq::<SpecTerm>::empty());
    } else {
        lemma_fold_ground_args(this, b, ts, n - 1, fuel);
        lemma_fold_ground_value(this, b, ts[n - 1], fuel);
        assert(ts.subrange(0, n - 1).push(ts[n - 1]) =~= ts.subrange(0, n));
    }
}

/// Rewriting leaves an inert term unchanged and records nothing.
pub proof fn lemma_fold_inert(this: Symbol, b: Map<Symbol, SpecTerm>, t: SpecTerm, fuel: nat)
    requires
        spec_inert(b, t),
    ensures
        spec_fold_term(this, b, t, fuel) == (b, t),
{
    if spec_ground_value(t) {
        lemma_fold_ground_value(this, b, t, fuel);
    }
}

proof fn lemma_fold_inert_args(
    this: Symbol,
    b: Map<Symbol, SpecTerm>,
    ts: Seq<SpecTerm>,
    n: int,
    fuel: nat,
)
    requires
        0 <= n <= ts.len(),
        forall|i: int| 0 <= i < ts.len() ==> spec_inert(b, #[trigger] ts[i]),
    ensures
        spec_fold_args(this, b, ts, n, fuel) == (b, ts.subrange(0, n)),
    decreases n,
{
    if n <= 0 {
        assert(ts.subrange(0, 0) =~= Seq::<SpecTerm>::empty());
    } else {
        lemma_fold_inert_args(this, b, ts, n - 1, fuel);
        lemma_fold_inert(this, b, ts[n - 1], fuel);
        assert(ts.subrange(0, n - 1).push(ts[n - 1]) =~= ts.subrange(0, n));
    }
}

/// The generic rewrite of an operation with only inert arguments is the
/// identity.
pub proof fn lemma_gen_fold_inert(this: Symbol, b: Map<Symbol, SpecTerm>, op: SpecOp, fuel: nat)
    requires
        forall|i: int| 0 <= i < op.args.len() ==> spec_inert(b, #[trigger] op.args[i]),
    ensures
        spec_gen_fold_operation(this, b, op, fuel) == (b, op),
{
    lemma_fold_inert_args(this, b, op.args, op.args.len() as int, fuel);
    assert(op.args.subrange(0, op.args.len() as int) =~= op.args);
    assert(spec_gen_fold_operation(this, b, op, fuel).1 =~= op);
}

/// Substituting the placeholder in a ground value changes nothing.
pub proof fn lemma_sub_ground_value(from: Symbol, t: SpecTerm)
    requires
        spec_ground_value(t),
    ensures
        spec_sub_term(from, t) == t,
    decreases t, 1int,
{
    match t {
        SpecTerm::List(ts) => {
            lemma_sub_ground_args(from, ts);
        },
        _ => {},
    }
}

proof fn lemma_sub_ground_args(from: Symbol, ts: Seq<SpecTerm>)
    requires
        forall|i: int| 0 <= i < ts.len() ==> spec_ground_value(#[trigger] ts[i]),
    ensures
        spec_sub_terms(from, ts) == ts,
    decreases ts, 0int,
{
    assert forall|i: int| 0 <= i < ts.len() implies spec_sub_terms(from, ts)[i] == ts[i] by {
        lemma_sub_ground_value(from, ts[i]);
    }
    assert(spec_sub_terms(from, ts) =~= ts);
}

/// Idempotence: a term on which one rewrite pass of a fresh run produces no
/// structural change is returned by a full simplification run exactly as it
/// is.
pub proof fn lemma_idempotent(this: Symbol, t: SpecTerm)
    requires
        spec_fold_term(this, Map::empty(), t, SIMPLIFY_FUEL as nat).1 == t,
    ensures
        spec_run_simplifier(this, t) == t,
{
}

/// Determinism: two full simplification runs on the same variable and the
/// same term give structurally equal results.
pub proof fn lemma_deterministic(v1: Symbol, t1: SpecTerm, v2: Symbol, t2: SpecTerm)
    requires
        v1 == v2,
        t1 == t2,
    ensures
        spec_run_simplifier(v1, t1) == spec_run_simplifier(v2, t2),
        spec_simplify_binding(v1, t1) == spec_simplify_binding(v2, t2),
{
}

/// Self-unification elimination: for every ground value `x`, simplifying
/// the conjunction `And(this = x)` for the self variable `this` yields `x`
/// itself.
pub proof fn lemma_self_unification(this: Symbol, x: SpecTerm)
    requires
        spec_ground_value(x),
    ensures
        ({
            let u = SpecOp { operator: Operator::Unify, args: seq![SpecTerm::Variable(this), x] };
            let conj = SpecTerm::Expression(
                SpecOp { operator: Operator::And, args: seq![SpecTerm::Expression(u)] },
            );
            spec_simplify_binding(this, conj) == x
        }),
{
    let b0 = Map::<Symbol, SpecTerm>::empty();
    let fnat = SIMPLIFY_FUEL as nat;
    let f1 = (fnat - 1) as nat;
    let u = SpecOp { operator: Operator::Unify, args: seq![SpecTerm::Variable(this), x] };
    let ut = SpecTerm::Expression(u);
    let andop = SpecOp { operator: Operator::And, args: seq![ut] };
    let conj = SpecTerm::Expression(andop);

    assert(!(x is Variable) && !(x is Expression));
    assert(x != SpecTerm::Variable(this));
    assert(u.args[0] == SpecTerm::Variable(this) && u.args[1] == x);
    assert forall|i: int| 0 <= i < u.args.len() implies spec_inert(b0, #[trigger] u.args[i]) by {
        if i == 0 {
            assert(!b0.contains_key(this));
        }
    }

    // One rewrite of the inner unification is the identity.
    lemma_gen_fold_inert(this, b0, u, f1);
    assert(spec_fold_operation(this, b0, u, f1) == (b0, u));
    assert(spec_deref(b0, ut) == ut);
    assert(spec_fold_term(this, b0, ut, f1) == (b0, ut));
    assert(spec_simplify_partial(this, b0, ut, f1) == (b0, ut));

    // The first pass unwraps the one-constraint conjunction.
    assert(spec_preprocess(andop.args, 0) == Seq::<SpecTerm>::empty());
    assert(!spec_is_true_term(ut));
    assert(!Seq::<SpecTerm>::empty().contains(ut));
    assert(spec_preprocess(andop.args, 1) =~= seq![ut]);
    assert(SpecOp { operator: Operator::And, args: spec_preprocess(andop.args, 1) } == andop);
    assert(spec_as_expression(ut) == Option::Some(u));
    lemma_gen_fold_inert(this, b0, u, f1);
    assert(spec_fold_operation(this, b0, andop, fnat) == (b0, u));
    assert(spec_deref(b0, conj) == conj);
    assert(spec_fold_parts(this, b0, conj, fnat) == (b0, ut));
    assert(spec_fold_term(this, b0, conj, fnat) == (b0, ut));
    assert(ut != conj);

    // The second pass leaves the unification alone, so the run quiesces.
    assert(spec_simplify_partial(this, b0, conj, fnat) == (b0, ut));
    assert(spec_run_simplifier(this, conj) == ut);

    // Trivial-equality flattening collapses `this = x` to `x`.
    assert(spec_trivial_constraint(this, ut) == x);

    // The placeholder substitution leaves a ground value alone.
    lemma_sub_ground_value(this, x);
    assert(spec_sub_this(this, x) == x);
}

/// The complementary comparison operator, as the inverter's table gives it.
pub open spec fn spec_complement(op: Operator) -> Operator {
    match op {
        Operator::Unify => Operator::Neq,
        Operator::Eq => Operator::Neq,
        Operator::Neq => Operator::Unify,
        Operator::Gt => Operator::Leq,
        Operator::Geq => Operator::Lt,
        Operator::Lt => Operator::Geq,
        Operator::Leq => Operator::Gt,
        _ => op,
    }
}

/// Operator complement correctness: for every comparison operator, the
/// negation of a comparison of two ground values simplifies to the
/// complementary comparison of the same operands, with no residual
/// negation.  For the equality-like operators the operands must differ,
/// else the comparison itself collapses to a constant first.
pub proof fn lemma_operator_complement(this: Symbol, cmp: Operator, a: SpecTerm, b: SpecTerm)
    requires
        spec_ground_value(a),
        spec_ground_value(b),
        cmp == Operator::Unify || cmp == Operator::Eq || cmp == Operator::Neq || cmp
            == Operator::Gt || cmp == Operator::Geq || cmp == Operator::Lt || cmp == Operator::Leq,
        (cmp == Operator::Unify || cmp == Operator::Eq || cmp == Operator::Neq) ==> a != b,
    ensures
        ({
            let nt = SpecTerm::Expression(
                SpecOp {
                    operator: Operator::Not,
                    args: seq![
                        SpecTerm::Expression(SpecOp { operator: cmp, args: seq![a, b] }),
                    ],
                },
            );
            spec_run_simplifier(this, nt) == SpecTerm::Expression(
                SpecOp { operator: spec_complement(cmp), args: seq![a, b] },
            )
        }),
{
    let b0 = Map::<Symbol, SpecTerm>::empty();
    let fnat = SIMPLIFY_FUEL as nat;
    let f1 = (fnat - 1) as nat;
    let u = SpecOp { operator: cmp, args: seq![a, b] };
    let ut = SpecTerm::Expression(u);
    let nop = SpecOp { operator: Operator::Not, args: seq![ut] };
    let nt = SpecTerm::Expression(nop);
    let comp_op = SpecOp { operator: spec_complement(cmp), args: seq![a, b] };

    assert(!(a is Variable) && !(a is Expression));
    assert(!(b is Variable) && !(b is Expression));
    assert(u.args[0] == a && u.args[1] == b);
    assert(forall|i: int| 0 <= i < u.args.len() ==> spec_inert(b0, #[trigger] u.args[i]));
    assert(comp_op.args[0] == a && comp_op.args[1] == b);
    assert(forall|i: int| 0 <= i < comp_op.args.len() ==> spec_inert(b0, #[trigger] comp_op.args[i]));

    // The comparison itself is quiescent.
    lemma_gen_fold_inert(this, b0, u, f1);
    assert(spec_as_expression(a) is None);
    assert(spec_as_expression(b) is None);
    assert(spec_fold_operation(this, b0, u, f1) == (b0, u));
    assert(spec_deref(b0, ut) == ut);
    assert(spec_fold_term(this, b0, ut, f1) == (b0, ut));
    assert(spec_simplify_partial(this, b0, ut, f1) == (b0, ut));

    // The inverter's table gives the complementary operator.
    assert(crate::invert::spec_invertible(u));
    assert(crate::invert::spec_invert(u) == comp_op);

    // The first pass inverts the negation away.
    lemma_gen_fold_inert(this, b0, comp_op, f1);
    assert(spec_fold_operation(this, b0, nop, fnat) == (b0, comp_op));
    assert(spec_deref(b0, nt) == nt);
    assert(spec_fold_term(this, b0, nt, fnat) == (b0, SpecTerm::Expression(comp_op)));
    assert(SpecTerm::Expression(comp_op) != nt);

    // The second pass leaves the complementary comparison alone.
    assert(spec_fold_operation(this, b0, comp_op, f1) == (b0, comp_op));
    assert(spec_fold_term(this, b0, SpecTerm::Expression(comp_op), f1) == (
        b0,
        SpecTerm::Expression(comp_op),
    ));
    assert(spec_simplify_partial(this, b0, SpecTerm::Expression(comp_op), f1) == (
        b0,
        SpecTerm::Expression(comp_op),
    ));
    assert(spec_simplify_partial(this, b0, nt, fnat) == (b0, SpecTerm::Expression(comp_op)));
}

/// The conjunction `And(x = g1, x = g2)` for two different ground values.
pub open spec fn spec_clashing_conjunction(x: Symbol, g1: SpecTerm, g2: SpecTerm) -> SpecTerm {
    SpecTerm::Expression(
        SpecOp {
            operator: Operator::And,
            args: seq![
                SpecTerm::Expression(
                    SpecOp { operator: Operator::Unify, args: seq![SpecTerm::Variable(x), g1] },
                ),
                SpecTerm::Expression(
                    SpecOp { operator: Operator::Unify, args: seq![SpecTerm::Variable(x), g2] },
                ),
            ],
        },
    )
}

/// Incoherence detection: a conjunction that unifies one variable with two
/// different ground values simplifies to the trivially false constraint.
pub proof fn lemma_incoherent(this: Symbol, x: Symbol, g1: SpecTerm, g2: SpecTerm)
    requires
        spec_ground(g1),
        spec_ground(g2),
        g1 != g2,
    ensures
        spec_run_simplifier(this, spec_clashing_conjunction(x, g1, g2)) == SpecTerm::Expression(
            spec_false(),
        ),
        spec_simplify_binding(this, spec_clashing_conjunction(x, g1, g2)) == SpecTerm::Expression(
            spec_false(),
        ),
{
    let b0 = Map::<Symbol, SpecTerm>::empty();
    let fnat = SIMPLIFY_FUEL as nat;
    let f1 = (fnat - 1) as nat;
    let c1 = SpecTerm::Expression(
        SpecOp { operator: Operator::Unify, args: seq![SpecTerm::Variable(x), g1] },
    );
    let c2 = SpecTerm::Expression(
        SpecOp { operator: Operator::Unify, args: seq![SpecTerm::Variable(x), g2] },
    );
    let andop = SpecOp { operator: Operator::And, args: seq![c1, c2] };
    let conj = SpecTerm::Expression(andop);
    let ft = SpecTerm::Expression(spec_false());

    // Preprocessing keeps both constraints: neither is trivially true, and
    // they differ because the ground values differ.
    assert(!spec_is_true_term(c1));
    assert(!spec_is_true_term(c2));
    assert(seq![SpecTerm::Variable(x), g1][1] == g1);
    assert(seq![SpecTerm::Variable(x), g2][1] == g2);
    assert(c1 != c2);
    assert(spec_preprocess(andop.args, 0) == Seq::<SpecTerm>::empty());
    assert(!Seq::<SpecTerm>::empty().contains(c1));
    assert(spec_preprocess(andop.args, 1) =~= seq![c1]);
    assert(!seq![c1].contains(c2)) by {
        assert(seq![c1].len() == 1 && seq![c1][0] == c1);
    }
    assert(spec_preprocess(andop.args, 2) =~= seq![c1, c2]);
    assert(SpecOp { operator: Operator::And, args: spec_preprocess(andop.args, 2) } == andop);

    // The coherence scan finds the clash.
    assert(crate::coherence::spec_unify_pair(c1) == Option::Some((x, g1)));
    assert(crate::coherence::spec_unify_pair(c2) == Option::Some((x, g2)));
    let seen1 = Map::<Symbol, SpecTerm>::empty().insert(x, g1);
    assert(seen1.contains_key(x) && seen1[x] == g1);
    assert(!crate::coherence::spec_coherent_from(andop.args, 1, seen1));
    assert(!crate::coherence::spec_coherent_from(andop.args, 0, Map::empty()));
    assert(!crate::coherence::spec_is_coherent(andop));

    // So the first pass rewrites the whole conjunction to FALSE, and FALSE
    // is a constant the second pass leaves alone.
    assert(spec_fold_operation(this, b0, andop, fnat) == (b0, spec_false()));
    assert(spec_deref(b0, conj) == conj);
    assert(spec_fold_term(this, b0, conj, fnat) == (b0, ft));
    assert(ft != conj);
    assert(spec_fold_operation(this, b0, spec_false(), f1) == (b0, spec_false()));
    assert(spec_deref(b0, ft) == ft);
    assert(spec_fold_term(this, b0, ft, f1) == (b0, ft));
    assert(spec_simplify_partial(this, b0, ft, f1) == (b0, ft));
    assert(spec_simplify_partial(this, b0, conj, fnat) == (b0, ft));
    assert(spec_run_simplifier(this, conj) == ft);

    // FALSE survives flattening and the placeholder substitution.
    assert(spec_trivial_constraint(this, ft) == ft);
    assert(spec_sub_terms(this, spec_false().args) =~= spec_false().args);
    assert(spec_sub_this(this, ft) == ft);
}

proof fn lemma_any_unsat_at(vs: Seq<(Symbol, SpecTerm)>, i: int, n: int)
    requires
        0 <= i < n <= vs.len(),
        !vs[i].0.spec_is_temporary_var(),
        spec_falseish(spec_entry_result(smap_of(vs), vs[i].0, vs[i].1)),
    ensures
        spec_any_unsat(vs, n),
    decreases n,
{
    if i < n - 1 {
        lemma_any_unsat_at(vs, i, n - 1);
    }
}

/// Incoherence detection at the bindings level: a binding set in which some
/// non-temporary variable is bound to a clashing conjunction is reported
/// unsatisfiable.
pub proof fn lemma_incoherent_bindings(
    vs: Seq<(Symbol, SpecTerm)>,
    i: int,
    x: Symbol,
    g1: SpecTerm,
    g2: SpecTerm,
)
    requires
        0 <= i < vs.len(),
        !vs[i].0.spec_is_temporary_var(),
        vs[i].1 == spec_clashing_conjunction(x, g1, g2),
        spec_ground(g1),
        spec_ground(g2),
        g1 != g2,
    ensures
        spec_simplify_bindings(vs) is None,
{
    lemma_incoherent(vs[i].0, x, g1, g2);
    assert(spec_entry_result(smap_of(vs), vs[i].0, vs[i].1) == SpecTerm::Expression(spec_false()));
    lemma_any_unsat_at(vs, i, vs.len() as int);
}

proof fn lemma_out_entries_at(vs: Seq<(Symbol, SpecTerm)>, i: int, n: int)
    requires
        0 <= i < n <= vs.len(),
        !vs[i].0.spec_is_temporary_var(),
    ensures
        spec_out_entries(vs, n).contains(
            (vs[i].0, spec_entry_result(smap_of(vs), vs[i].0, vs[i].1)),
        ),
    decreases n,
{
    let target = (vs[i].0, spec_entry_result(smap_of(vs), vs[i].0, vs[i].1));
    let p = spec_out_entries(vs, n - 1);
    if i == n - 1 {
        assert(spec_out_entries(vs, n) == p.push(target));
        assert(p.push(target)[p.len() as int] == target);
    } else {
        lemma_out_entries_at(vs, i, n - 1);
        let j = choose|j: int| 0 <= j < p.len() && p[j] == target;
        if !vs[n - 1].0.spec_is_temporary_var() {
            let e = (
                vs[n - 1].0,
                spec_entry_result(smap_of(vs), vs[n - 1].0, vs[n - 1].1),
            );
            assert(spec_out_entries(vs, n) == p.push(e));
            assert(p.push(e)[j] == target);
        }
    }
}

/// Non-partial pass-through: a binding whose value is plain data, neither
/// an expression nor a variable reference, appears in the cleaned binding
/// set unchanged.
pub proof fn lemma_pass_through(vs: Seq<(Symbol, SpecTerm)>, i: int)
    requires
        0 <= i < vs.len(),
        !vs[i].0.spec_is_temporary_var(),
        !(vs[i].1 is Expression),
        !(vs[i].1 is Variable),
    ensures
        spec_simplify_bindings(vs) is Some ==> spec_simplify_bindings(vs)->0.contains(
            (vs[i].0, vs[i].1),
        ),
{
    assert(spec_entry_result(smap_of(vs), vs[i].0, vs[i].1) == vs[i].1);
    if spec_simplify_bindings(vs) is Some {
        lemma_out_entries_at(vs, i, vs.len() as int);
    }
}

} // verus!
