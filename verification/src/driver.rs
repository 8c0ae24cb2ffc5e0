//! The bindings-level driver: per-variable simplification, placeholder
//! substitution, trivial-equality flattening, and the satisfiability
//! verdict over a whole binding set.

use vstd::prelude::*;
use crate::bindings::Bindings;
use crate::model::{
    spec_any_unsat, spec_bindings_wf, spec_falseish, spec_out_entries, spec_simplify_binding,
    spec_simplify_bindings, spec_sub_symbol, spec_sub_term, spec_sub_terms, spec_sub_this,
    spec_trivial_constraint,
};
use crate::simplify::Simplifier;
use crate::terms::{
    clone_term, lemma_op_view_shape, lemma_term_view_shape, spec_false, terms_view, Operation,
    Operator, SpecOp, SpecTerm, Symbol, Term,
};

verus! {

/// Renames one designated variable to the reserved anonymous placeholder.
pub struct VariableSubber {
    pub this_var: Symbol,
}

impl VariableSubber {
    /// A subber for the given variable.
    pub fn new(this_var: Symbol) -> (r: Self)
        ensures
            r.this_var == this_var,
    {
        VariableSubber { this_var }
    }

    /// Rename the variable if it is the designated one.
    pub fn fold_variable(&self, v: Symbol) -> (r: Symbol)
        ensures
            r == spec_sub_symbol(self.this_var, v),
    {
        if v == self.this_var {
            Symbol::This
        } else {
            v
        }
    }
}

fn sub_term_rec(s: &VariableSubber, t: &Term) -> (r: Term)
    ensures
        r@ == spec_sub_term(s.this_var, t@),
    decreases t, 1int,
{
    proof {
        lemma_term_view_shape(*t);
    }
    match t {
        Term::Variable(v) => Term::Variable(s.fold_variable(*v)),
        Term::List(ts) => {
            let new_ts = sub_terms_rec(s, ts);
            let ghost gts = terms_view(new_ts@);
            let r = Term::List(new_ts);
            proof {
                lemma_term_view_shape(r);
                assert(r@ == SpecTerm::List(gts));
            }
            r
        },
        Term::Expression(op) => {
            proof {
                lemma_op_view_shape(*op);
            }
            let new_args = sub_terms_rec(s, &op.args);
            let ghost gargs = terms_view(new_args@);
            let new_op = Operation { operator: op.operator, args: new_args };
            let r = Term::Expression(new_op);
            proof {
                lemma_term_view_shape(r);
                if let Term::Expression(rop) = &r {
                    lemma_op_view_shape(*rop);
                }
                assert(r@ == SpecTerm::Expression(SpecOp { operator: op.operator, args: gargs }));
            }
            r
        },
        _ => clone_term(t),
    }
}

fn sub_terms_rec(s: &VariableSubber, ts: &Vec<Term>) -> (r: Vec<Term>)
    ensures
        terms_view(r@) == spec_sub_terms(s.this_var, terms_view(ts@)),
    decreases ts, 0int,
{
    let n = ts.len();
    let mut out: Vec<Term> = Vec::new();
    let mut i: usize = 0;
    while i < n
        invariant
            n == ts@.len(),
            i <= n,
            out@.len() == i,
            forall|j: int| 0 <= j < i ==> terms_view(out@)[j] == spec_sub_terms(
                s.this_var,
                terms_view(ts@),
            )[j],
        decreases n - i,
    {
        proof {
            assert(terms_view(ts@)[i as int] == ts@[i as int]@);
        }
        let x = sub_term_rec(s, &ts[i]);
        proof {
            crate::terms::lemma_terms_view_push(out@, x);
        }
        out.push(x);
        i += 1;
    }
    proof {
        assert(terms_view(out@) =~= spec_sub_terms(s.this_var, terms_view(ts@)));
    }
    out
}

/// Substitute the reserved anonymous placeholder for `this` in a partial's
/// result.  A term that is literally the variable itself is left alone.
pub fn sub_this(this: Symbol, term: Term) -> (r: Term)
    ensures
        r@ == spec_sub_this(this, term@),
{
    proof {
        lemma_term_view_shape(term);
    }
    let keep = match &term {
        Term::Variable(v) => *v == this,
        _ => false,
    };
    if keep {
        return term;
    }
    let subber = VariableSubber::new(this);
    sub_term_rec(&subber, &term)
}

/// Turn a quiesced `this = x` or `x = this` into `x`.
pub fn simplify_trivial_constraint(this: Symbol, term: Term) -> (r: Term)
    ensures
        r@ == spec_trivial_constraint(this, term@),
{
    proof {
        lemma_term_view_shape(term);
        if let Term::Expression(o) = &term {
            lemma_op_view_shape(*o);
            if o.args@.len() >= 2 {
                lemma_term_view_shape(o.args@[0]);
                lemma_term_view_shape(o.args@[1]);
            }
        }
    }
    match &term {
        Term::Expression(o) => {
            if o.operator == Operator::Unify && o.args.len() >= 2 {
                let left_is_this = match &o.args[0] {
                    Term::Variable(v) => *v == this,
                    _ => false,
                };
                if left_is_this {
                    return clone_term(&o.args[1]);
                }
                let right_is_this = match &o.args[1] {
                    Term::Variable(v) => *v == this,
                    _ => false,
                };
                if right_is_this {
                    return clone_term(&o.args[0]);
                }
                term
            } else {
                term
            }
        },
        _ => term,
    }
}

/// The term is the trivially false constraint.
fn is_false_term(t: &Term) -> (r: bool)
    ensures
        r == spec_falseish(t@),
{
    proof {
        lemma_term_view_shape(*t);
    }
    match t {
        Term::Expression(op) => {
            proof {
                lemma_op_view_shape(*op);
                assert(op@.operator == op.operator);
                assert(op@.args.len() == op.args@.len());
                if op.args@.len() == 0 {
                    assert(op@.args =~= spec_false().args);
                }
            }
            let r = op.operator == Operator::Or && op.args.len() == 0;
            proof {
                assert(r == (op@ == spec_false()));
            }
            r
        },
        _ => false,
    }
}

/// One variable's full cleanup: a dedicated simplification run, then
/// trivial-equality flattening, then the placeholder substitution.
fn simplify_binding(var: Symbol, term: Term) -> (r: Term)
    ensures
        r@ == spec_simplify_binding(var, term@),
{
    let mut simplifier = Simplifier::new(var);
    let simplified = simplifier.simplify_partial(term);
    let simplified = simplify_trivial_constraint(var, simplified);
    sub_this(var, simplified)
}

/// Simplify the values of the bindings to be returned to the host.
///
/// Temporary variables are dropped from the output; a value that refers to
/// a temporary variable is resolved through the set and simplified in its
/// place; every partial is simplified to quiescence, flattened, and given
/// the anonymous placeholder.  Returns nothing when some variable's
/// constraints are unsatisfiable.
pub fn simplify_bindings(bindings: Bindings) -> (r: Option<Bindings>)
    requires
        spec_bindings_wf(bindings@),
    ensures
        (r is Some) == (spec_simplify_bindings(bindings@) is Some),
        r is Some ==> r->0@ == spec_simplify_bindings(bindings@)->0,
{
    let ghost vs = bindings@;
    let n = bindings.entries.len();
    let mut out = Bindings::new();
    let mut unsat = false;
    let mut i: usize = 0;
    while i < n
        invariant
            n == bindings.entries@.len(),
            vs == bindings@,
            i <= n,
            out@ == spec_out_entries(vs, i as int),
            unsat == spec_any_unsat(vs, i as int),
        decreases n - i,
    {
        let var: Symbol = bindings.entries[i].0;
        proof {
            assert(vs[i as int] == (var, bindings.entries@[i as int].1@));
            lemma_term_view_shape(bindings.entries@[i as int].1);
        }
        if !var.is_temporary_var() {
            let value = &bindings.entries[i].1;
            let processed: Option<Term> = match value {
                Term::Expression(_) => Option::Some(simplify_binding(var, clone_term(value))),
                Term::Variable(w) => {
                    if w.is_temporary_var() {
                        match bindings.get(*w) {
                            Option::Some(referent) => Option::Some(
                                simplify_binding(var, clone_term(referent)),
                            ),
                            Option::None => Option::None,
                        }
                    } else {
                        Option::None
                    }
                },
                _ => Option::None,
            };
            let result = match processed {
                Option::Some(t) => t,
                Option::None => clone_term(value),
            };
            if is_false_term(&result) {
                unsat = true;
            }
            out.insert(var, result);
        }
        i += 1;
    }
    if unsat {
        Option::None
    } else {
        Option::Some(out)
    }
}

} // verus!
