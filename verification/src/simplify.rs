//! The simplifier: the rewrite engine over constraint trees, proved equal
//! to the model in `model`.

use vstd::prelude::*;
use crate::bindings::Bindings;
use crate::coherence::{is_coherent, spec_is_coherent};
use crate::invert::invert_operation;
use crate::model::{
    spec_as_expression, spec_bind, spec_classify, spec_deref, spec_fold_args, spec_fold_operation,
    spec_fold_parts, spec_fold_term, spec_gen_fold_operation, spec_is_this, spec_is_true_term,
    spec_is_trivial_unify, spec_preprocess, spec_scan, spec_simplify_partial, spec_toss,
    ScanChoice, SIMPLIFY_FUEL,
};
use crate::terms::{
    clone_operation, clone_term, is_ground, lemma_op_view_shape, lemma_term_view_shape,
    lemma_terms_view_push, lemma_terms_view_remove, spec_true, term_eq, terms_view, Operation,
    Operator, SpecOp, SpecTerm, Symbol, Term,
};

verus! {

/// The term is the trivially true constraint.
fn is_true_term(t: &Term) -> (r: bool)
    ensures
        r == spec_is_true_term(t@),
{
    proof {
        lemma_term_view_shape(*t);
    }
    match t {
        Term::Expression(op) => {
            proof {
                lemma_op_view_shape(*op);
                assert(t@ == SpecTerm::Expression(op@));
                assert(op@.operator == op.operator);
                assert(op@.args.len() == op.args@.len());
                if op.args@.len() == 0 {
                    assert(op@.args =~= spec_true().args);
                }
            }
            let r = op.operator == Operator::And && op.args.len() == 0;
            proof {
                assert(r == (op@ == spec_true()));
            }
            r
        },
        _ => false,
    }
}

/// The term is a unification of two structurally identical operands.
fn is_trivial_unify(t: &Term) -> (r: bool)
    ensures
        r == spec_is_trivial_unify(t@),
{
    proof {
        lemma_term_view_shape(*t);
    }
    match t {
        Term::Expression(op) => {
            proof {
                lemma_op_view_shape(*op);
            }
            op.operator == Operator::Unify && op.args.len() == 2 && term_eq(
                &op.args[0],
                &op.args[1],
            )
        },
        _ => false,
    }
}

/// Whether some term of the list is structurally equal to `x`.
fn contains_term(ts: &Vec<Term>, x: &Term) -> (r: bool)
    ensures
        r == terms_view(ts@).contains(x@),
{
    let n = ts.len();
    let mut i: usize = 0;
    while i < n
        invariant
            n == ts@.len(),
            i <= n,
            forall|j: int| 0 <= j < i ==> terms_view(ts@)[j] != x@,
        decreases n - i,
    {
        if term_eq(&ts[i], x) {
            proof {
                assert(terms_view(ts@)[i as int] == x@);
            }
            return true;
        }
        i += 1;
    }
    false
}

/// Preprocess a conjunction's constraints: drop trivially true ones and
/// duplicates, keeping first occurrences in order.
fn preprocess_args(args: &Vec<Term>) -> (r: Vec<Term>)
    ensures
        terms_view(r@) == spec_preprocess(terms_view(args@), args@.len() as int),
{
    let n = args.len();
    let mut out: Vec<Term> = Vec::new();
    let mut i: usize = 0;
    while i < n
        invariant
            n == args@.len(),
            i <= n,
            terms_view(out@) == spec_preprocess(terms_view(args@), i as int),
        decreases n - i,
    {
        let tt = is_true_term(&args[i]);
        let dup = contains_term(&out, &args[i]);
        if !tt && !dup {
            let c = clone_term(&args[i]);
            proof {
                lemma_terms_view_push(out@, c);
            }
            out.push(c);
        }
        i += 1;
    }
    out
}

/// Drop the self-unifications among a conjunction's constraints.
fn toss_trivial(args: &Vec<Term>) -> (r: Vec<Term>)
    ensures
        terms_view(r@) == spec_toss(terms_view(args@), args@.len() as int),
{
    let n = args.len();
    let mut out: Vec<Term> = Vec::new();
    let mut i: usize = 0;
    while i < n
        invariant
            n == args@.len(),
            i <= n,
            terms_view(out@) == spec_toss(terms_view(args@), i as int),
        decreases n - i,
    {
        if !is_trivial_unify(&args[i]) {
            let c = clone_term(&args[i]);
            proof {
                lemma_terms_view_push(out@, c);
            }
            out.push(c);
        }
        i += 1;
    }
    out
}

/// The rewrite engine for one variable's constraints: the designated self
/// variable and the substitution map accumulated so far.
pub struct Simplifier {
    pub bindings: Bindings,
    pub this_var: Symbol,
}

impl Simplifier {
    /// A fresh simplifier for the given subject variable.
    pub fn new(this_var: Symbol) -> (r: Self)
        ensures
            r.this_var == this_var,
            r.bindings.as_map() == Map::<Symbol, SpecTerm>::empty(),
    {
        Simplifier { this_var, bindings: Bindings::new() }
    }

    /// Record a substitution for `var`; a negated one wraps the value in a
    /// negation.
    pub fn bind(&mut self, var: Symbol, value: Term, invert: bool)
        ensures
            final(self).this_var == old(self).this_var,
            final(self).bindings.as_map() == spec_bind(
                old(self).bindings.as_map(),
                var,
                value@,
                invert,
            ),
    {
        if invert {
            let ghost gv = value@;
            let mut args: Vec<Term> = Vec::new();
            args.push(value);
            let wrapped = Term::Expression(Operation { operator: Operator::Not, args });
            proof {
                lemma_term_view_shape(wrapped);
                if let Term::Expression(wop) = &wrapped {
                    lemma_op_view_shape(*wop);
                    assert(wop@.args =~= seq![gv]);
                }
            }
            self.bindings.insert(var, wrapped);
        } else {
            self.bindings.insert(var, value);
        }
    }

    /// Replace a variable reference by its substitution, if present.
    pub fn deref(&self, term: &Term) -> (r: Term)
        ensures
            r@ == spec_deref(self.bindings.as_map(), term@),
    {
        proof {
            lemma_term_view_shape(*term);
        }
        match term {
            Term::Variable(symbol) => match self.bindings.get(*symbol) {
                Option::Some(t) => clone_term(t),
                Option::None => clone_term(term),
            },
            _ => clone_term(term),
        }
    }

    /// Whether `var` already has a substitution.
    pub fn is_bound(&self, var: &Symbol) -> (r: bool)
        ensures
            r == self.bindings.as_map().contains_key(*var),
    {
        self.bindings.contains_key(*var)
    }

    /// Whether a term is the subject of this run: the self variable itself,
    /// or a projection whose receiver is.
    pub fn is_this_var(&self, t: &Term) -> (r: bool)
        ensures
            r == spec_is_this(self.this_var, t@),
        decreases t,
    {
        proof {
            lemma_term_view_shape(*t);
        }
        match t {
            Term::Variable(v) => *v == self.this_var,
            Term::Expression(op) => {
                proof {
                    lemma_op_view_shape(*op);
                }
                op.operator == Operator::Dot && op.args.len() >= 1 && self.is_this_var(
                    &op.args[0],
                )
            },
            _ => false,
        }
    }

    /// One rewrite step: dereference the term, then rewrite the node.
    fn fold_term(&mut self, t: &Term, fuel: u64) -> (r: Term)
        ensures
            final(self).this_var == old(self).this_var,
            (final(self).bindings.as_map(), r@) == spec_fold_term(
                old(self).this_var,
                old(self).bindings.as_map(),
                t@,
                fuel as nat,
            ),
        decreases fuel, *t, 4int, 0int,
    {
        let t1 = self.deref(t);
        if term_eq(&t1, t) {
            self.fold_parts(t, fuel)
        } else if fuel == 0 {
            clone_term(t)
        } else {
            self.fold_parts(&t1, fuel - 1)
        }
    }

    /// Structural rewriting of one node.
    fn fold_parts(&mut self, t: &Term, fuel: u64) -> (r: Term)
        ensures
            final(self).this_var == old(self).this_var,
            (final(self).bindings.as_map(), r@) == spec_fold_parts(
                old(self).this_var,
                old(self).bindings.as_map(),
                t@,
                fuel as nat,
            ),
        decreases fuel, *t, 3int, 0int,
    {
        proof {
            lemma_term_view_shape(*t);
        }
        match t {
            Term::List(ts) => {
                let new_ts = self.fold_args(ts, fuel);
                let ghost gts = terms_view(new_ts@);
                let r = Term::List(new_ts);
                proof {
                    lemma_term_view_shape(r);
                    assert(r@ == SpecTerm::List(gts));
                }
                r
            },
            Term::Expression(op) => {
                proof {
                    lemma_op_view_shape(*op);
                }
                let new_op = self.fold_operation(op, fuel);
                let ghost gop = new_op@;
                let r = Term::Expression(new_op);
                proof {
                    lemma_term_view_shape(r);
                    assert(r@ == SpecTerm::Expression(gop));
                }
                r
            },
            _ => clone_term(t),
        }
    }

    /// Rewrite each term of a list in order.
    fn fold_args(&mut self, ts: &Vec<Term>, fuel: u64) -> (r: Vec<Term>)
        ensures
            final(self).this_var == old(self).this_var,
            (final(self).bindings.as_map(), terms_view(r@)) == spec_fold_args(
                old(self).this_var,
                old(self).bindings.as_map(),
                terms_view(ts@),
                ts@.len() as int,
                fuel as nat,
            ),
        decreases fuel, *ts, 1int, 0int,
    {
        let n = ts.len();
        let mut out: Vec<Term> = Vec::new();
        let mut i: usize = 0;
        while i < n
            invariant
                n == ts@.len(),
                i <= n,
                self.this_var == old(self).this_var,
                (self.bindings.as_map(), terms_view(out@)) == spec_fold_args(
                    old(self).this_var,
                    old(self).bindings.as_map(),
                    terms_view(ts@),
                    i as int,
                    fuel as nat,
                ),
            decreases n - i,
        {
            proof {
                assert(terms_view(ts@)[i as int] == ts@[i as int]@);
            }
            let x = self.fold_term(&ts[i], fuel);
            proof {
                lemma_terms_view_push(out@, x);
            }
            out.push(x);
            i += 1;
        }
        out
    }

    /// The generic rewrite of an operation: rewrite each argument.
    fn gen_fold_operation(&mut self, o: &Operation, fuel: u64) -> (r: Operation)
        ensures
            final(self).this_var == old(self).this_var,
            (final(self).bindings.as_map(), r@) == spec_gen_fold_operation(
                old(self).this_var,
                old(self).bindings.as_map(),
                o@,
                fuel as nat,
            ),
        decreases fuel, *o, 2int, 0int,
    {
        proof {
            lemma_op_view_shape(*o);
        }
        let args2 = self.fold_args(&o.args, fuel);
        let r = Operation { operator: o.operator, args: args2 };
        proof {
            lemma_op_view_shape(r);
        }
        r
    }

    /// Scan a conjunction's constraints in order for the first one that
    /// yields a substitution; record it and report the index to drop.
    fn scan_bind(&mut self, args: &Vec<Term>) -> (r: Option<usize>)
        ensures
            final(self).this_var == old(self).this_var,
            ({
                let s = spec_scan(
                    old(self).this_var,
                    old(self).bindings.as_map(),
                    terms_view(args@),
                    0,
                );
                final(self).bindings.as_map() == s.0 && s.1 == match r {
                    Option::Some(i) => Option::Some(i as int),
                    Option::None => Option::<int>::None,
                }
            }),
            r is Some ==> r->0 < args@.len(),
    {
        let ghost gargs = terms_view(args@);
        let ghost b0 = old(self).bindings.as_map();
        let n = args.len();
        let mut i: usize = 0;
        while i < n
            invariant
                n == args@.len(),
                gargs == terms_view(args@),
                i <= n,
                self.this_var == old(self).this_var,
                self.bindings.as_map() == b0,
                b0 == old(self).bindings.as_map(),
                spec_scan(old(self).this_var, b0, gargs, 0) == spec_scan(
                    old(self).this_var,
                    b0,
                    gargs,
                    i as int,
                ),
            decreases n - i,
        {
            proof {
                lemma_term_view_shape(args@[i as int]);
                if let Term::Expression(cop) = args@[i as int] {
                    lemma_op_view_shape(cop);
                    if cop.args@.len() >= 2 {
                        lemma_term_view_shape(cop.args@[0]);
                        lemma_term_view_shape(cop.args@[1]);
                    }
                }
            }
            match &args[i] {
                Term::Expression(cop) => {
                    if (cop.operator == Operator::Unify || cop.operator == Operator::Neq)
                        && cop.args.len() >= 2 {
                        let l = &cop.args[0];
                        let rt = &cop.args[1];
                        let inv = cop.operator == Operator::Neq;
                        match l {
                            Term::Variable(v) => {
                                if *v != self.this_var && !self.is_bound(v) && is_ground(rt) {
                                    proof {
                                        assert(spec_classify(self.this_var, b0, gargs[i as int])
                                            == ScanChoice::BindRemove(*v, rt@, inv));
                                    }
                                    let value = clone_term(rt);
                                    self.bind(*v, value, inv);
                                    return Option::Some(i);
                                } else if self.is_this_var(rt) {
                                    proof {
                                        assert(spec_classify(self.this_var, b0, gargs[i as int])
                                            == ScanChoice::BindKeep(*v, rt@, inv));
                                    }
                                    let value = clone_term(rt);
                                    self.bind(*v, value, inv);
                                    return Option::None;
                                } else {
                                    match rt {
                                        Term::Variable(w) => {
                                            if self.is_this_var(l) {
                                                proof {
                                                    assert(spec_classify(
                                                        self.this_var,
                                                        b0,
                                                        gargs[i as int],
                                                    ) == ScanChoice::BindKeep(*w, l@, inv));
                                                }
                                                let value = clone_term(l);
                                                self.bind(*w, value, inv);
                                                return Option::None;
                                            } else {
                                                proof {
                                                    assert(spec_classify(
                                                        self.this_var,
                                                        b0,
                                                        gargs[i as int],
                                                    ) == ScanChoice::NoMatch);
                                                }
                                            }
                                        },
                                        _ => {
                                            proof {
                                                assert(spec_classify(
                                                    self.this_var,
                                                    b0,
                                                    gargs[i as int],
                                                ) == ScanChoice::NoMatch);
                                            }
                                        },
                                    }
                                }
                            },
                            _ => {
                                match rt {
                                    Term::Variable(w) => {
                                        if *w != self.this_var && !self.is_bound(w) && is_ground(
                                            l,
                                        ) {
                                            proof {
                                                assert(spec_classify(
                                                    self.this_var,
                                                    b0,
                                                    gargs[i as int],
                                                ) == ScanChoice::BindRemove(*w, l@, inv));
                                            }
                                            let value = clone_term(l);
                                            self.bind(*w, value, inv);
                                            return Option::Some(i);
                                        } else if self.is_this_var(l) {
                                            proof {
                                                assert(spec_classify(
                                                    self.this_var,
                                                    b0,
                                                    gargs[i as int],
                                                ) == ScanChoice::BindKeep(*w, l@, inv));
                                            }
                                            let value = clone_term(l);
                                            self.bind(*w, value, inv);
                                            return Option::None;
                                        } else {
                                            proof {
                                                assert(spec_classify(
                                                    self.this_var,
                                                    b0,
                                                    gargs[i as int],
                                                ) == ScanChoice::NoMatch);
                                            }
                                        }
                                    },
                                    _ => {
                                        proof {
                                            assert(spec_classify(self.this_var, b0, gargs[i as int])
                                                == ScanChoice::NoMatch);
                                        }
                                    },
                                }
                            },
                        }
                    } else {
                        proof {
                            assert(spec_classify(self.this_var, b0, gargs[i as int])
                                == ScanChoice::NoMatch);
                        }
                    }
                },
                _ => {
                    proof {
                        assert(spec_classify(self.this_var, b0, gargs[i as int])
                            == ScanChoice::NoMatch);
                    }
                },
            }
            i += 1;
        }
        Option::None
    }

    /// The per-node rewrite rules; see `spec_fold_operation`.
    fn fold_operation(&mut self, o: &Operation, fuel: u64) -> (r: Operation)
        ensures
            final(self).this_var == old(self).this_var,
            (final(self).bindings.as_map(), r@) == spec_fold_operation(
                old(self).this_var,
                old(self).bindings.as_map(),
                o@,
                fuel as nat,
            ),
        decreases fuel, *o, 3int, 0int,
    {
        proof {
            lemma_op_view_shape(*o);
        }
        if o.operator == Operator::And {
            let pre = preprocess_args(&o.args);
            let o2 = Operation { operator: Operator::And, args: pre };
            proof {
                lemma_op_view_shape(o2);
            }
            if o2.args.len() == 0 {
                return o2;
            }
            if o2.args.len() == 1 {
                proof {
                    lemma_term_view_shape(o2.args@[0]);
                }
                let go_on = matches!(&o2.args[0], Term::Expression(_));
                if !go_on || fuel == 0 {
                    return o2;
                }
                match &o2.args[0] {
                    Term::Expression(inner) => {
                        proof {
                            lemma_op_view_shape(*inner);
                        }
                        return self.gen_fold_operation(inner, fuel - 1);
                    },
                    _ => {
                        return vstd::pervasive::unreached();
                    },
                }
            }
            // Two or more constraints.
            if fuel == 0 {
                return o2;
            }
            if !is_coherent(&o2) {
                return crate::terms::false_operation();
            }
            let tossed = toss_trivial(&o2.args);
            let rem = self.scan_bind(&tossed);
            let args2 = match rem {
                Option::Some(i) => {
                    let mut shrunk = tossed;
                    proof {
                        lemma_terms_view_remove(shrunk@, i as int);
                    }
                    shrunk.remove(i);
                    shrunk
                },
                Option::None => tossed,
            };
            let o3 = Operation { operator: Operator::And, args: args2 };
            proof {
                lemma_op_view_shape(o3);
            }
            self.gen_fold_operation(&o3, fuel - 1)
        } else {
            if (o.operator == Operator::Or) && o.args.len() == 0 {
                return clone_operation(o);
            }
            if (o.operator == Operator::Or) && o.args.len() == 1 {
                proof {
                    lemma_term_view_shape(o.args@[0]);
                }
                match &o.args[0] {
                    Term::Expression(inner) => {
                        proof {
                            lemma_op_view_shape(*inner);
                        }
                        if fuel == 0 {
                            return clone_operation(o);
                        }
                        return self.gen_fold_operation(inner, fuel - 1);
                    },
                    _ => {
                        return clone_operation(o);
                    },
                }
            }
            if (o.operator == Operator::Unify || o.operator == Operator::Eq) && o.args.len() >= 2
                && term_eq(&o.args[0], &o.args[1]) {
                return crate::terms::true_operation();
            }
            if (o.operator == Operator::Eq || o.operator == Operator::Gt || o.operator
                == Operator::Geq || o.operator == Operator::Lt || o.operator == Operator::Leq)
                && o.args.len() >= 2 {
                proof {
                    lemma_term_view_shape(o.args@[0]);
                    lemma_term_view_shape(o.args@[1]);
                    if let Term::Expression(lop) = o.args@[0] {
                        lemma_op_view_shape(lop);
                    }
                    if let Term::Expression(rop) = o.args@[1] {
                        lemma_op_view_shape(rop);
                    }
                }
                let l_neg = match &o.args[0] {
                    Term::Expression(lop) => lop.operator == Operator::Not && lop.args.len() >= 1,
                    _ => false,
                };
                let r_neg = match &o.args[1] {
                    Term::Expression(rop) => rop.operator == Operator::Not && rop.args.len() >= 1,
                    _ => false,
                };
                if l_neg && r_neg {
                    return clone_operation(o);
                }
                if l_neg {
                    let mut cargs: Vec<Term> = Vec::new();
                    match &o.args[0] {
                        Term::Expression(lop) => cargs.push(clone_term(&lop.args[0])),
                        _ => {
                            return vstd::pervasive::unreached();
                        },
                    }
                    cargs.push(clone_term(&o.args[1]));
                    let c = Operation { operator: o.operator, args: cargs };
                    proof {
                        lemma_op_view_shape(c);
                        assert(c@.args =~= seq![
                            spec_as_expression(o@.args[0])->0.args[0],
                            o@.args[1],
                        ]);
                    }
                    return invert_operation(c);
                }
                if r_neg {
                    let mut cargs: Vec<Term> = Vec::new();
                    cargs.push(clone_term(&o.args[0]));
                    match &o.args[1] {
                        Term::Expression(rop) => cargs.push(clone_term(&rop.args[0])),
                        _ => {
                            return vstd::pervasive::unreached();
                        },
                    }
                    let c = Operation { operator: o.operator, args: cargs };
                    proof {
                        lemma_op_view_shape(c);
                        assert(c@.args =~= seq![
                            o@.args[0],
                            spec_as_expression(o@.args[1])->0.args[0],
                        ]);
                    }
                    return invert_operation(c);
                }
                return self.gen_fold_operation(o, fuel);
            }
            if o.operator == Operator::Not && o.args.len() >= 1 {
                if fuel == 0 {
                    return clone_operation(o);
                }
                let inner_t = clone_term(&o.args[0]);
                let s1 = self.simplify_partial_fuel(inner_t, fuel - 1);
                proof {
                    lemma_term_view_shape(s1);
                }
                match s1 {
                    Term::Expression(rop) => {
                        let inv = invert_operation(rop);
                        return self.gen_fold_operation(&inv, fuel - 1);
                    },
                    _ => {
                        return clone_operation(o);
                    },
                }
            }
            self.gen_fold_operation(o, fuel)
        }
    }

    /// Rewrite a term repeatedly until a pass leaves it unchanged, with the
    /// given budget.
    fn simplify_partial_fuel(&mut self, term: Term, fuel: u64) -> (r: Term)
        ensures
            final(self).this_var == old(self).this_var,
            (final(self).bindings.as_map(), r@) == spec_simplify_partial(
                old(self).this_var,
                old(self).bindings.as_map(),
                term@,
                fuel as nat,
            ),
        decreases fuel, term, 5int, 0int,
    {
        let new = self.fold_term(&term, fuel);
        if term_eq(&new, &term) {
            term
        } else if fuel == 0 {
            new
        } else {
            self.simplify_partial_fuel(new, fuel - 1)
        }
    }

    /// Simplify a partial until quiescence.
    pub fn simplify_partial(&mut self, term: Term) -> (r: Term)
        ensures
            final(self).this_var == old(self).this_var,
            (final(self).bindings.as_map(), r@) == spec_simplify_partial(
                old(self).this_var,
                old(self).bindings.as_map(),
                term@,
                SIMPLIFY_FUEL as nat,
            ),
    {
        self.simplify_partial_fuel(term, SIMPLIFY_FUEL)
    }
}

} // verus!
