//! The operator inverter: the logical complement of an expression node,
//! expressed in the same operator vocabulary.

use vstd::prelude::*;
use crate::terms::{
    clone_operation, clone_term, clone_terms, lemma_op_view_shape, lemma_term_view_shape,
    terms_view, Operation, Operator, SpecOp, SpecTerm, Term,
};

verus! {

/// Whether the inverter accepts an operation.  A conjunction or disjunction
/// is invertible when every argument is an invertible expression; a negation
/// needs an expression argument; a type test needs its two operands.  Other
/// operators are handled without looking at their arguments.
pub open spec fn spec_invertible(op: SpecOp) -> bool
    decreases op, 1int,
{
    match op.operator {
        Operator::And | Operator::Or => spec_all_invertible(op.args),
        Operator::Not => op.args.len() >= 1 && op.args[0] is Expression,
        Operator::Isa => op.args.len() >= 2,
        _ => true,
    }
}

/// Every term of the sequence is an invertible expression.
pub open spec fn spec_all_invertible(ts: Seq<SpecTerm>) -> bool
    decreases ts, 0int,
{
    forall|i: int| 0 <= i < ts.len() ==> spec_arg_invertible(#[trigger] ts[i])
}

/// The term is an expression whose operation is invertible.
pub open spec fn spec_arg_invertible(t: SpecTerm) -> bool
    decreases t, 2int,
{
    match t {
        SpecTerm::Expression(op) => spec_invertible(op),
        _ => false,
    }
}

/// The complement of an operation.  Conjunction and disjunction exchange and
/// recurse; unification and equality exchange with disequality; comparisons
/// exchange with their complements; a type test is wrapped in a literal
/// negation; a negation is unwrapped; operators that are not truth-valued
/// pass through.  An operation the inverter does not accept is returned
/// unchanged.
pub open spec fn spec_invert(op: SpecOp) -> SpecOp
    decreases op, 1int,
{
    if !spec_invertible(op) {
        op
    } else {
        match op.operator {
            Operator::And => SpecOp { operator: Operator::Or, args: spec_invert_args(op.args) },
            Operator::Or => SpecOp { operator: Operator::And, args: spec_invert_args(op.args) },
            Operator::Unify | Operator::Eq => SpecOp { operator: Operator::Neq, args: op.args },
            Operator::Neq => SpecOp { operator: Operator::Unify, args: op.args },
            Operator::Gt => SpecOp { operator: Operator::Leq, args: op.args },
            Operator::Geq => SpecOp { operator: Operator::Lt, args: op.args },
            Operator::Lt => SpecOp { operator: Operator::Geq, args: op.args },
            Operator::Leq => SpecOp { operator: Operator::Gt, args: op.args },
            Operator::Isa => SpecOp {
                operator: Operator::Not,
                args: seq![
                    SpecTerm::Expression(
                        SpecOp { operator: Operator::Isa, args: seq![op.args[0], op.args[1]] },
                    ),
                ],
            },
            Operator::Not => match op.args[0] {
                SpecTerm::Expression(inner) => inner,
                _ => op,
            },
            Operator::Dot | Operator::New | Operator::Debug | Operator::Print => op,
        }
    }
}

/// The elementwise complement of a sequence of expression arguments.
pub open spec fn spec_invert_args(ts: Seq<SpecTerm>) -> Seq<SpecTerm>
    decreases ts, 0int,
{
    Seq::new(
        ts.len(),
        |i: int|
            if 0 <= i < ts.len() {
                match ts[i] {
                    SpecTerm::Expression(inner) => SpecTerm::Expression(spec_invert(inner)),
                    _ => ts[i],
                }
            } else {
                ts[i]
            },
    )
}

/// Whether the inverter accepts an operation.
pub fn invertible(op: &Operation) -> (r: bool)
    ensures
        r == spec_invertible(op@),
    decreases op, 1int,
{
    proof {
        lemma_op_view_shape(*op);
    }
    match op.operator {
        Operator::And | Operator::Or => all_invertible(&op.args),
        Operator::Not => op.args.len() >= 1 && {
            proof {
                lemma_term_view_shape(op.args@[0]);
            }
            matches!(&op.args[0], Term::Expression(_))
        },
        Operator::Isa => op.args.len() >= 2,
        _ => true,
    }
}

fn all_invertible(ts: &Vec<Term>) -> (r: bool)
    ensures
        r == spec_all_invertible(terms_view(ts@)),
    decreases ts, 0int,
{
    let n = ts.len();
    let mut i: usize = 0;
    while i < n
        invariant
            n == ts@.len(),
            i <= n,
            forall|j: int| 0 <= j < i ==> spec_arg_invertible(#[trigger] terms_view(ts@)[j]),
        decreases n - i,
    {
        proof {
            lemma_term_view_shape(ts@[i as int]);
        }
        let ok = match &ts[i] {
            Term::Expression(inner) => invertible(inner),
            _ => false,
        };
        if !ok {
            proof {
                assert(!spec_arg_invertible(terms_view(ts@)[i as int]));
            }
            return false;
        }
        proof {
            assert(spec_arg_invertible(terms_view(ts@)[i as int]));
        }
        i += 1;
    }
    true
}

/// Invert an operation: the complement table of `spec_invert`.
pub fn invert_operation(op: Operation) -> (r: Operation)
    ensures
        r@ == spec_invert(op@),
{
    invert_operation_ref(&op)
}

fn invert_operation_ref(op: &Operation) -> (r: Operation)
    ensures
        r@ == spec_invert(op@),
    decreases op, 1int,
{
    proof {
        lemma_op_view_shape(*op);
    }
    if !invertible(op) {
        return clone_operation(op);
    }
    let r = match op.operator {
        Operator::And => Operation { operator: Operator::Or, args: invert_args(&op.args) },
        Operator::Or => Operation { operator: Operator::And, args: invert_args(&op.args) },
        Operator::Unify | Operator::Eq => Operation {
            operator: Operator::Neq,
            args: clone_terms(&op.args),
        },
        Operator::Neq => Operation { operator: Operator::Unify, args: clone_terms(&op.args) },
        Operator::Gt => Operation { operator: Operator::Leq, args: clone_terms(&op.args) },
        Operator::Geq => Operation { operator: Operator::Lt, args: clone_terms(&op.args) },
        Operator::Lt => Operation { operator: Operator::Geq, args: clone_terms(&op.args) },
        Operator::Leq => Operation { operator: Operator::Gt, args: clone_terms(&op.args) },
        Operator::Isa => {
            let mut inner_args: Vec<Term> = Vec::new();
            inner_args.push(clone_term(&op.args[0]));
            inner_args.push(clone_term(&op.args[1]));
            let inner = Operation { operator: Operator::Isa, args: inner_args };
            proof {
                lemma_op_view_shape(inner);
                assert(inner@.args =~= seq![op@.args[0], op@.args[1]]);
            }
            let mut outer_args: Vec<Term> = Vec::new();
            outer_args.push(Term::Expression(inner));
            let out = Operation { operator: Operator::Not, args: outer_args };
            proof {
                lemma_term_view_shape(out.args@[0]);
                lemma_op_view_shape(out);
                assert(out@.args =~= spec_invert(op@).args);
            }
            out
        },
        Operator::Not => {
            proof {
                lemma_term_view_shape(op.args@[0]);
            }
            match &op.args[0] {
                Term::Expression(inner) => clone_operation(inner),
                _ => vstd::pervasive::unreached(),
            }
        },
        Operator::Dot | Operator::New | Operator::Debug | Operator::Print => clone_operation(op),
    };
    proof {
        lemma_op_view_shape(r);
    }
    r
}

fn invert_args(ts: &Vec<Term>) -> (r: Vec<Term>)
    requires
        spec_all_invertible(terms_view(ts@)),
    ensures
        terms_view(r@) == spec_invert_args(terms_view(ts@)),
    decreases ts, 0int,
{
    let n = ts.len();
    let mut out: Vec<Term> = Vec::new();
    let mut i: usize = 0;
    while i < n
        invariant
            n == ts@.len(),
            i <= n,
            out@.len() == i,
            spec_all_invertible(terms_view(ts@)),
            forall|j: int| 0 <= j < i ==> terms_view(out@)[j] == spec_invert_args(
                terms_view(ts@),
            )[j],
        decreases n - i,
    {
        proof {
            lemma_term_view_shape(ts@[i as int]);
            assert(spec_arg_invertible(terms_view(ts@)[i as int]));
        }
        let item = match &ts[i] {
            Term::Expression(inner) => {
                let inv = invert_operation_ref(inner);
                Term::Expression(inv)
            },
            _ => vstd::pervasive::unreached(),
        };
        proof {
            lemma_term_view_shape(item);
            assert(terms_view(out@.push(item))[i as int] == item@);
            assert(item@ == spec_invert_args(terms_view(ts@))[i as int]);
            assert forall|j: int| 0 <= j <= i implies terms_view(out@.push(item))[j]
                == #[trigger] spec_invert_args(terms_view(ts@))[j] by {
                if j < i {
                    assert(out@.push(item)[j] == out@[j]);
                    assert(terms_view(out@.push(item))[j] == terms_view(out@)[j]);
                } else {
                    assert(out@.push(item)[j] == item);
                }
            }
        }
        out.push(item);
        i += 1;
    }
    proof {
        assert(terms_view(out@) =~= spec_invert_args(terms_view(ts@)));
    }
    out
}

} // verus!
