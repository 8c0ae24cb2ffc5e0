//! The coherence checker: a cheap syntactic scan of a conjunction for two
//! unifications that bind one variable to two different ground values.

use vstd::prelude::*;
use crate::bindings::Bindings;
use crate::terms::{
    clone_term, is_ground, lemma_op_view_shape, lemma_term_view_shape, spec_ground, term_eq,
    Operation, Operator, SpecOp, SpecTerm, Symbol, Term,
};

verus! {

/// The (variable, ground value) pair a direct constraint contributes to the
/// coherence scan, if any: the constraint must be a unification of a
/// variable with a ground value, in either order.
pub open spec fn spec_unify_pair(t: SpecTerm) -> Option<(Symbol, SpecTerm)> {
    match t {
        SpecTerm::Expression(op) => {
            if op.operator == Operator::Unify && op.args.len() >= 2 {
                match (op.args[0], op.args[1]) {
                    (SpecTerm::Variable(v), x) => if spec_ground(x) {
                        Option::Some((v, x))
                    } else {
                        Option::None
                    },
                    (x, SpecTerm::Variable(v)) => if spec_ground(x) {
                        Option::Some((v, x))
                    } else {
                        Option::None
                    },
                    _ => Option::None,
                }
            } else {
                Option::None
            }
        },
        _ => Option::None,
    }
}

/// The scan from position `i` on, with the pairs recorded so far.
pub open spec fn spec_coherent_from(
    args: Seq<SpecTerm>,
    i: int,
    seen: Map<Symbol, SpecTerm>,
) -> bool
    decreases args.len() - i,
{
    if i < 0 || i >= args.len() {
        true
    } else {
        match spec_unify_pair(args[i]) {
            Option::Some(p) => {
                if seen.contains_key(p.0) && seen[p.0] != p.1 {
                    false
                } else {
                    spec_coherent_from(args, i + 1, seen.insert(p.0, p.1))
                }
            },
            Option::None => spec_coherent_from(args, i + 1, seen),
        }
    }
}

/// A conjunction is coherent when its direct constraints never unify one
/// variable with two different ground values.
pub open spec fn spec_is_coherent(op: SpecOp) -> bool {
    spec_coherent_from(op.args, 0, Map::empty())
}

/// Scan a conjunction's direct constraints for incompatible unifications.
pub fn is_coherent(o: &Operation) -> (r: bool)
    ensures
        r == spec_is_coherent(o@),
{
    proof {
        lemma_op_view_shape(*o);
    }
    let ghost gargs = o@.args;
    let n = o.args.len();
    let mut seen = Bindings::new();
    let mut i: usize = 0;
    while i < n
        invariant
            n == o.args@.len(),
            gargs == o@.args,
            i <= n,
            spec_is_coherent(o@) == spec_coherent_from(gargs, i as int, seen.as_map()),
        decreases n - i,
    {
        proof {
            lemma_term_view_shape(o.args@[i as int]);
            if let Term::Expression(cop) = o.args@[i as int] {
                lemma_op_view_shape(cop);
                if cop.args@.len() >= 2 {
                    lemma_term_view_shape(cop.args@[0]);
                    lemma_term_view_shape(cop.args@[1]);
                }
            }
        }
        let pair: Option<(Symbol, &Term)> = match &o.args[i] {
            Term::Expression(cop) => {
                if cop.operator == Operator::Unify && cop.args.len() >= 2 {
                    let l = &cop.args[0];
                    let rt = &cop.args[1];
                    match (l, rt) {
                        (Term::Variable(v), x) => {
                            if is_ground(x) {
                                Option::Some((*v, x))
                            } else {
                                match (l, rt) {
                                    (x2, Term::Variable(w)) => {
                                        if is_ground(x2) {
                                            Option::Some((*w, x2))
                                        } else {
                                            Option::None
                                        }
                                    },
                                    _ => Option::None,
                                }
                            }
                        },
                        (x, Term::Variable(v)) => {
                            if is_ground(x) {
                                Option::Some((*v, x))
                            } else {
                                Option::None
                            }
                        },
                        _ => Option::None,
                    }
                } else {
                    Option::None
                }
            },
            _ => Option::None,
        };
        proof {
            match pair {
                Option::Some(p) => {
                    assert(spec_unify_pair(gargs[i as int]) == Option::Some((p.0, p.1@)));
                },
                Option::None => {
                    assert(spec_unify_pair(gargs[i as int]) is None);
                },
            }
        }
        match pair {
            Option::Some((v, x)) => {
                let clash = match seen.get(v) {
                    Option::Some(y) => !term_eq(y, x),
                    Option::None => false,
                };
                if clash {
                    return false;
                }
                let xc = clone_term(x);
                seen.insert(v, xc);
            },
            Option::None => {},
        }
        i += 1;
    }
    true
}

} // verus!
