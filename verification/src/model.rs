//! The mathematical model of the rewrite engine: one rewrite pass, the
//! binding scan of a conjunction, and the fixed-point driver.  Every
//! executable function of the simplifier is proved equal to this model.
//!
//! The model carries an explicit rewrite budget.  Each step that grafts a
//! substituted term into the tree, unwraps a nested node, or starts another
//! pass spends one unit; a step that merely walks the existing structure is
//! free.  When the budget runs out the current term is returned unchanged,
//! so a result is always reached.  The budget the library uses is far beyond
//! what any constraint tree that fits in memory can spend.

use vstd::prelude::*;
use crate::coherence::spec_is_coherent;
use crate::invert::spec_invert;
use crate::terms::{spec_false, spec_ground, spec_true, Operator, SpecOp, SpecTerm, Symbol};

verus! {

/// The rewrite budget of one simplification run.
pub const SIMPLIFY_FUEL: u64 = 0xffff_ffff;

/// The operation of an expression term, if it is one.
pub open spec fn spec_as_expression(t: SpecTerm) -> Option<SpecOp> {
    match t {
        SpecTerm::Expression(op) => Option::Some(op),
        _ => Option::None,
    }
}

/// Replace a variable reference by its entry in the substitution map, if any.
pub open spec fn spec_deref(b: Map<Symbol, SpecTerm>, t: SpecTerm) -> SpecTerm {
    match t {
        SpecTerm::Variable(v) => if b.contains_key(v) {
            b[v]
        } else {
            t
        },
        _ => t,
    }
}

/// A term refers to the subject of the run when it is the designated self
/// variable or a projection whose receiver does.
pub open spec fn spec_is_this(this: Symbol, t: SpecTerm) -> bool
    decreases t,
{
    match t {
        SpecTerm::Variable(v) => v == this,
        SpecTerm::Expression(op) => op.operator == Operator::Dot && op.args.len() >= 1
            && spec_is_this(this, op.args[0]),
        _ => false,
    }
}

/// Record a substitution; a negated one wraps the value in a negation.
pub open spec fn spec_bind(
    b: Map<Symbol, SpecTerm>,
    var: Symbol,
    value: SpecTerm,
    invert: bool,
) -> Map<Symbol, SpecTerm> {
    if invert {
        b.insert(
            var,
            SpecTerm::Expression(SpecOp { operator: Operator::Not, args: seq![value] }),
        )
    } else {
        b.insert(var, value)
    }
}

/// What the binding scan does with one direct constraint.
pub enum ScanChoice {
    /// The constraint neither produces a substitution nor is consumed.
    NoMatch,
    /// Record the substitution and drop the constraint: it is made redundant
    /// by substitution.
    BindRemove(Symbol, SpecTerm, bool),
    /// Record the substitution but keep the constraint: it is the externally
    /// meaningful constraint on the subject value.
    BindKeep(Symbol, SpecTerm, bool),
}

/// Classify one direct constraint of a conjunction for the binding scan.
/// A (anti)unification of a free non-subject variable with a ground value is
/// consumed; one of a variable with the subject reference is recorded but
/// kept.
pub open spec fn spec_classify(this: Symbol, b: Map<Symbol, SpecTerm>, t: SpecTerm) -> ScanChoice {
    match t {
        SpecTerm::Expression(op) => {
            if (op.operator == Operator::Unify || op.operator == Operator::Neq) && op.args.len()
                >= 2 {
                let l = op.args[0];
                let r = op.args[1];
                let inv = op.operator == Operator::Neq;
                match (l, r) {
                    (SpecTerm::Variable(v), x) => {
                        if v != this && !b.contains_key(v) && spec_ground(x) {
                            ScanChoice::BindRemove(v, x, inv)
                        } else if spec_is_this(this, x) {
                            ScanChoice::BindKeep(v, x, inv)
                        } else {
                            match x {
                                SpecTerm::Variable(w) => {
                                    if spec_is_this(this, l) {
                                        ScanChoice::BindKeep(w, l, inv)
                                    } else {
                                        ScanChoice::NoMatch
                                    }
                                },
                                _ => ScanChoice::NoMatch,
                            }
                        }
                    },
                    (x, SpecTerm::Variable(w)) => {
                        if w != this && !b.contains_key(w) && spec_ground(x) {
                            ScanChoice::BindRemove(w, x, inv)
                        } else if spec_is_this(this, x) {
                            ScanChoice::BindKeep(w, x, inv)
                        } else {
                            ScanChoice::NoMatch
                        }
                    },
                    _ => ScanChoice::NoMatch,
                }
            } else {
                ScanChoice::NoMatch
            }
        },
        _ => ScanChoice::NoMatch,
    }
}

/// Scan the direct constraints in list order for the first one that yields a
/// substitution; record it, and report the index to drop, if any.
pub open spec fn spec_scan(
    this: Symbol,
    b: Map<Symbol, SpecTerm>,
    args: Seq<SpecTerm>,
    i: int,
) -> (Map<Symbol, SpecTerm>, Option<int>)
    decreases args.len() - i,
{
    if i < 0 || i >= args.len() {
        (b, Option::None)
    } else {
        match spec_classify(this, b, args[i]) {
            ScanChoice::NoMatch => spec_scan(this, b, args, i + 1),
            ScanChoice::BindRemove(v, x, inv) => (spec_bind(b, v, x, inv), Option::Some(i)),
            ScanChoice::BindKeep(v, x, inv) => (spec_bind(b, v, x, inv), Option::None),
        }
    }
}

/// The term is the trivially true constraint.
pub open spec fn spec_is_true_term(t: SpecTerm) -> bool {
    match t {
        SpecTerm::Expression(op) => op == spec_true(),
        _ => false,
    }
}

/// Preprocessing of a conjunction's first `n` constraints: drop the ones
/// that are trivially true, and drop duplicates, keeping first occurrences
/// in their relative order.
pub open spec fn spec_preprocess(args: Seq<SpecTerm>, n: int) -> Seq<SpecTerm>
    decreases n,
{
    if n <= 0 {
        Seq::empty()
    } else {
        let p = spec_preprocess(args, n - 1);
        let a = args[n - 1];
        if spec_is_true_term(a) || p.contains(a) {
            p
        } else {
            p.push(a)
        }
    }
}

/// A unification whose two operands are structurally identical.
pub open spec fn spec_is_trivial_unify(t: SpecTerm) -> bool {
    match t {
        SpecTerm::Expression(op) => op.operator == Operator::Unify && op.args.len() == 2
            && op.args[0] == op.args[1],
        _ => false,
    }
}

/// Drop the self-unifications among the first `n` constraints.
pub open spec fn spec_toss(args: Seq<SpecTerm>, n: int) -> Seq<SpecTerm>
    decreases n,
{
    if n <= 0 {
        Seq::empty()
    } else {
        let p = spec_toss(args, n - 1);
        if spec_is_trivial_unify(args[n - 1]) {
            p
        } else {
            p.push(args[n - 1])
        }
    }
}

/// One rewrite step on a term: dereference the term, then rewrite the
/// dereferenced node.  Grafting in a substituted term spends budget.
pub open spec fn spec_fold_term(
    this: Symbol,
    b: Map<Symbol, SpecTerm>,
    t: SpecTerm,
    fuel: nat,
) -> (Map<Symbol, SpecTerm>, SpecTerm)
    decreases fuel, t, 4int, 0int,
{
    let t1 = spec_deref(b, t);
    if t1 == t {
        spec_fold_parts(this, b, t, fuel)
    } else if fuel == 0 {
        (b, t)
    } else {
        spec_fold_parts(this, b, t1, (fuel - 1) as nat)
    }
}

/// Structural rewriting of a node: lists and expression arguments are
/// rewritten elementwise; expressions go through the rewrite rules.
pub open spec fn spec_fold_parts(
    this: Symbol,
    b: Map<Symbol, SpecTerm>,
    t: SpecTerm,
    fuel: nat,
) -> (Map<Symbol, SpecTerm>, SpecTerm)
    decreases fuel, t, 3int, 0int,
{
    match t {
        SpecTerm::List(ts) => {
            let r = spec_fold_args(this, b, ts, ts.len() as int, fuel);
            (r.0, SpecTerm::List(r.1))
        },
        SpecTerm::Expression(op) => {
            let r = spec_fold_operation(this, b, op, fuel);
            (r.0, SpecTerm::Expression(r.1))
        },
        _ => (b, t),
    }
}

/// Rewrite the first `n` terms of a sequence in order, threading the
/// substitution map through.
pub open spec fn spec_fold_args(
    this: Symbol,
    b: Map<Symbol, SpecTerm>,
    ts: Seq<SpecTerm>,
    n: int,
    fuel: nat,
) -> (Map<Symbol, SpecTerm>, Seq<SpecTerm>)
    decreases fuel, ts, 0int, n,
{
    if n <= 0 || n > ts.len() {
        (b, Seq::empty())
    } else {
        let p = spec_fold_args(this, b, ts, n - 1, fuel);
        let r = spec_fold_term(this, p.0, ts[n - 1], fuel);
        (r.0, p.1.push(r.1))
    }
}

/// The generic rewrite of an operation: rewrite each argument in order.
pub open spec fn spec_gen_fold_operation(
    this: Symbol,
    b: Map<Symbol, SpecTerm>,
    op: SpecOp,
    fuel: nat,
) -> (Map<Symbol, SpecTerm>, SpecOp)
    decreases fuel, op, 1int, 0int,
{
    let r = spec_fold_args(this, b, op.args, op.args.len() as int, fuel);
    (r.0, SpecOp { operator: op.operator, args: r.1 })
}

/// The per-node rewrite rules, in priority order: constants stand;
/// one-argument conjunctions and disjunctions unwrap; a trivial
/// (un)equation is true; a conjunction is checked for coherence, stripped
/// of self-unifications, and asked for one substitution; a comparison with
/// a negated operand pushes the negation into the comparison operator; a
/// negation simplifies its argument to quiescence and inverts it; all other
/// operators are rewritten structurally.
pub open spec fn spec_fold_operation(
    this: Symbol,
    b: Map<Symbol, SpecTerm>,
    op: SpecOp,
    fuel: nat,
) -> (Map<Symbol, SpecTerm>, SpecOp)
    decreases fuel, op, 2int, 0int,
{
    let o = if op.operator == Operator::And {
        SpecOp {
            operator: Operator::And,
            args: spec_preprocess(op.args, op.args.len() as int),
        }
    } else {
        op
    };
    if (o.operator == Operator::And || o.operator == Operator::Or) && o.args.len() == 0 {
        (b, o)
    } else if (o.operator == Operator::And || o.operator == Operator::Or) && o.args.len() == 1 {
        match spec_as_expression(o.args[0]) {
            Option::Some(inner) => {
                if fuel == 0 {
                    (b, o)
                } else {
                    spec_gen_fold_operation(this, b, inner, (fuel - 1) as nat)
                }
            },
            Option::None => (b, o),
        }
    } else if (o.operator == Operator::Unify || o.operator == Operator::Eq) && o.args.len() >= 2
        && o.args[0] == o.args[1] {
        (b, spec_true())
    } else if o.operator == Operator::And && o.args.len() > 1 {
        if fuel == 0 {
            (b, o)
        } else if !spec_is_coherent(o) {
            (b, spec_false())
        } else {
            let tossed = spec_toss(o.args, o.args.len() as int);
            let s = spec_scan(this, b, tossed, 0);
            let args2 = match s.1 {
                Option::Some(i) => tossed.remove(i),
                Option::None => tossed,
            };
            spec_gen_fold_operation(
                this,
                s.0,
                SpecOp { operator: Operator::And, args: args2 },
                (fuel - 1) as nat,
            )
        }
    } else if (o.operator == Operator::Eq || o.operator == Operator::Gt || o.operator
        == Operator::Geq || o.operator == Operator::Lt || o.operator == Operator::Leq)
        && o.args.len() >= 2 {
        let l = spec_as_expression(o.args[0]);
        let r = spec_as_expression(o.args[1]);
        let l_neg = l is Some && l->0.operator == Operator::Not && l->0.args.len() >= 1;
        let r_neg = r is Some && r->0.operator == Operator::Not && r->0.args.len() >= 1;
        if l_neg && r_neg {
            (b, o)
        } else if l_neg {
            (
                b,
                spec_invert(SpecOp { operator: o.operator, args: seq![l->0.args[0], o.args[1]] }),
            )
        } else if r_neg {
            (
                b,
                spec_invert(SpecOp { operator: o.operator, args: seq![o.args[0], r->0.args[0]] }),
            )
        } else {
            spec_gen_fold_operation(this, b, o, fuel)
        }
    } else if o.operator == Operator::Not && o.args.len() >= 1 {
        if fuel == 0 {
            (b, o)
        } else {
            let s = spec_simplify_partial(this, b, o.args[0], (fuel - 1) as nat);
            match spec_as_expression(s.1) {
                Option::Some(inner) => spec_gen_fold_operation(
                    this,
                    s.0,
                    spec_invert(inner),
                    (fuel - 1) as nat,
                ),
                Option::None => (s.0, o),
            }
        }
    } else {
        spec_gen_fold_operation(this, b, o, fuel)
    }
}

/// Rewrite a term until quiescence: repeat rewrite passes until a pass
/// produces a structurally identical term.
pub open spec fn spec_simplify_partial(
    this: Symbol,
    b: Map<Symbol, SpecTerm>,
    t: SpecTerm,
    fuel: nat,
) -> (Map<Symbol, SpecTerm>, SpecTerm)
    decreases fuel, t, 5int, 0int,
{
    let r = spec_fold_term(this, b, t, fuel);
    if r.1 == t {
        (r.0, t)
    } else if fuel == 0 {
        r
    } else {
        spec_simplify_partial(this, r.0, r.1, (fuel - 1) as nat)
    }
}

/// A full simplification run for one variable: a fresh substitution map and
/// the full budget.
pub open spec fn spec_run_simplifier(var: Symbol, t: SpecTerm) -> SpecTerm {
    spec_simplify_partial(var, Map::empty(), t, SIMPLIFY_FUEL as nat).1
}

/// Replace `from` by the reserved anonymous placeholder in a symbol.
pub open spec fn spec_sub_symbol(from: Symbol, s: Symbol) -> Symbol {
    if s == from {
        Symbol::This
    } else {
        s
    }
}

/// Replace `from` by the reserved anonymous placeholder throughout a term.
pub open spec fn spec_sub_term(from: Symbol, t: SpecTerm) -> SpecTerm
    decreases t, 1int,
{
    match t {
        SpecTerm::Variable(v) => SpecTerm::Variable(spec_sub_symbol(from, v)),
        SpecTerm::List(ts) => SpecTerm::List(spec_sub_terms(from, ts)),
        SpecTerm::Expression(op) => SpecTerm::Expression(
            SpecOp { operator: op.operator, args: spec_sub_terms(from, op.args) },
        ),
        _ => t,
    }
}

/// Elementwise placeholder substitution.
pub open spec fn spec_sub_terms(from: Symbol, ts: Seq<SpecTerm>) -> Seq<SpecTerm>
    decreases ts, 0int,
{
    Seq::new(
        ts.len(),
        |i: int|
            if 0 <= i < ts.len() {
                spec_sub_term(from, ts[i])
            } else {
                SpecTerm::Boolean(false)
            },
    )
}

/// Placeholder substitution for a partial's result: a term that is
/// literally the self variable is left alone.
pub open spec fn spec_sub_this(this: Symbol, t: SpecTerm) -> SpecTerm {
    if t == SpecTerm::Variable(this) {
        t
    } else {
        spec_sub_term(this, t)
    }
}

/// Trivial-equality flattening: a quiesced `this = x` or `x = this`
/// collapses to `x`.
pub open spec fn spec_trivial_constraint(this: Symbol, t: SpecTerm) -> SpecTerm {
    match t {
        SpecTerm::Expression(op) => {
            if op.operator == Operator::Unify && op.args.len() >= 2 {
                if op.args[0] == SpecTerm::Variable(this) {
                    op.args[1]
                } else if op.args[1] == SpecTerm::Variable(this) {
                    op.args[0]
                } else {
                    t
                }
            } else {
                t
            }
        },
        _ => t,
    }
}

/// The term is the trivially false constraint.
pub open spec fn spec_falseish(t: SpecTerm) -> bool {
    match t {
        SpecTerm::Expression(op) => op == spec_false(),
        _ => false,
    }
}

/// The cleaned value of one binding entry: an expression is simplified,
/// flattened and given the placeholder; a reference to a temporary variable
/// is resolved through the binding set and simplified the same way; any
/// other value passes through unchanged.
pub open spec fn spec_entry_result(m: Map<Symbol, SpecTerm>, k: Symbol, v: SpecTerm) -> SpecTerm {
    match v {
        SpecTerm::Expression(_) => spec_simplify_binding(k, v),
        SpecTerm::Variable(w) => {
            if w.spec_is_temporary_var() && m.contains_key(w) {
                spec_simplify_binding(k, m[w])
            } else {
                v
            }
        },
        _ => v,
    }
}

/// One variable's full cleanup: simplify to quiescence, flatten a trivial
/// equality, and substitute the anonymous placeholder for the variable.
pub open spec fn spec_simplify_binding(var: Symbol, t: SpecTerm) -> SpecTerm {
    spec_sub_this(var, spec_trivial_constraint(var, spec_run_simplifier(var, t)))
}

/// The cleaned entries among the first `n`, in order; temporary variables
/// are dropped.
pub open spec fn spec_out_entries(vs: Seq<(Symbol, SpecTerm)>, n: int) -> Seq<(Symbol, SpecTerm)>
    decreases n,
{
    if n <= 0 {
        Seq::empty()
    } else {
        let p = spec_out_entries(vs, n - 1);
        let e = vs[n - 1];
        if e.0.spec_is_temporary_var() {
            p
        } else {
            p.push((e.0, spec_entry_result(crate::bindings::smap_of(vs), e.0, e.1)))
        }
    }
}

/// Whether any of the first `n` entries simplifies to the trivially false
/// constraint.
pub open spec fn spec_any_unsat(vs: Seq<(Symbol, SpecTerm)>, n: int) -> bool
    decreases n,
{
    if n <= 0 {
        false
    } else {
        spec_any_unsat(vs, n - 1) || {
            let e = vs[n - 1];
            !e.0.spec_is_temporary_var() && spec_falseish(
                spec_entry_result(crate::bindings::smap_of(vs), e.0, e.1),
            )
        }
    }
}

/// The cleaned binding set, or nothing when some variable's constraints
/// are unsatisfiable.
pub open spec fn spec_simplify_bindings(vs: Seq<(Symbol, SpecTerm)>) -> Option<
    Seq<(Symbol, SpecTerm)>,
> {
    if spec_any_unsat(vs, vs.len() as int) {
        Option::None
    } else {
        Option::Some(spec_out_entries(vs, vs.len() as int))
    }
}

/// A well-formed evaluator output: a non-temporary variable bound to an
/// expression is bound to a conjunction, and a value that is a temporary
/// variable reference has its referent in the set.
pub open spec fn spec_bindings_wf(vs: Seq<(Symbol, SpecTerm)>) -> bool {
    forall|i: int|
        0 <= i < vs.len() && !(#[trigger] vs[i]).0.spec_is_temporary_var() ==> spec_entry_wf(
            vs,
            vs[i].1,
        )
}

/// Well-formedness of one entry's value.
pub open spec fn spec_entry_wf(vs: Seq<(Symbol, SpecTerm)>, v: SpecTerm) -> bool {
    match v {
        SpecTerm::Expression(op) => op.operator == Operator::And,
        SpecTerm::Variable(w) => w.spec_is_temporary_var()
            ==> crate::bindings::smap_of(vs).contains_key(w),
        _ => true,
    }
}

} // verus!
