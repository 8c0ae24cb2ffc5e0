//! The term model: variables, operators, and immutable expression trees,
//! together with their mathematical views.

use vstd::prelude::*;

verus! {

/// A variable identifier.  Ordinary variables come from the policy text,
/// temporary variables are generated by the evaluator and never exposed to
/// the host, and `This` is the reserved anonymous placeholder that stands
/// for the subject of a partial result.
#[derive(Clone, Copy, PartialEq, Eq, Structural, Debug)]
pub enum Symbol {
    Var(u64),
    Temp(u64),
    This,
}

impl Symbol {
    /// Whether this symbol is an evaluator-internal temporary variable.
    pub open spec fn spec_is_temporary_var(self) -> bool {
        self is Temp
    }

    /// Whether this symbol is an evaluator-internal temporary variable.
    pub fn is_temporary_var(&self) -> (r: bool)
        ensures
            r == self.spec_is_temporary_var(),
    {
        match self {
            Symbol::Temp(_) => true,
            _ => false,
        }
    }
}

/// The closed operator vocabulary of constraint expressions.
#[derive(Clone, Copy, PartialEq, Eq, Structural, Debug)]
pub enum Operator {
    And,
    Or,
    Not,
    Unify,
    Eq,
    Neq,
    Gt,
    Geq,
    Lt,
    Leq,
    Isa,
    Dot,
    New,
    Debug,
    Print,
}

/// An immutable term: a ground value (integer, boolean, list), a variable
/// reference, or an expression node.  Terms are value-equal by structural
/// comparison, never by identity.
#[derive(Debug)]
pub enum Term {
    Integer(i64),
    Boolean(bool),
    List(Vec<Term>),
    Variable(Symbol),
    Expression(Operation),
}

/// An operator together with its ordered argument terms.
#[derive(Debug)]
pub struct Operation {
    pub operator: Operator,
    pub args: Vec<Term>,
}

/// The mathematical model of a term, used by all contracts.
pub enum SpecTerm {
    Integer(int),
    Boolean(bool),
    List(Seq<SpecTerm>),
    Variable(Symbol),
    Expression(SpecOp),
}

/// The mathematical model of an operation.
pub struct SpecOp {
    pub operator: Operator,
    pub args: Seq<SpecTerm>,
}

pub open spec fn term_view(t: Term) -> SpecTerm
    decreases t,
{
    match t {
        Term::Integer(i) => SpecTerm::Integer(i as int),
        Term::Boolean(b) => SpecTerm::Boolean(b),
        Term::List(ts) => SpecTerm::List(
            Seq::new(
                ts@.len(),
                |i: int|
                    if 0 <= i < ts@.len() {
                        term_view(ts@[i])
                    } else {
                        SpecTerm::Boolean(false)
                    },
            ),
        ),
        Term::Variable(s) => SpecTerm::Variable(s),
        Term::Expression(op) => SpecTerm::Expression(op_view(op)),
    }
}

pub open spec fn op_view(op: Operation) -> SpecOp
    decreases op,
{
    SpecOp {
        operator: op.operator,
        args: Seq::new(
            op.args@.len(),
            |i: int|
                if 0 <= i < op.args@.len() {
                    term_view(op.args@[i])
                } else {
                    SpecTerm::Boolean(false)
                },
        ),
    }
}

/// The views of a sequence of terms, elementwise.
pub open spec fn terms_view(ts: Seq<Term>) -> Seq<SpecTerm> {
    Seq::new(ts.len(), |i: int| term_view(ts[i]))
}

/// The view of a list term is the elementwise view of its contents, and the
/// view of an expression term is the view of its operation.
pub broadcast proof fn lemma_term_view_shape(t: Term)
    ensures
        #[trigger] term_view(t) == match t {
            Term::Integer(i) => SpecTerm::Integer(i as int),
            Term::Boolean(b) => SpecTerm::Boolean(b),
            Term::List(ts) => SpecTerm::List(terms_view(ts@)),
            Term::Variable(s) => SpecTerm::Variable(s),
            Term::Expression(op) => SpecTerm::Expression(op_view(op)),
        },
{
    match t {
        Term::List(ts) => {
            assert(term_view(t)->List_0 =~= terms_view(ts@));
        },
        _ => {},
    }
}

/// Appending a term appends its view.
pub proof fn lemma_terms_view_push(s: Seq<Term>, t: Term)
    ensures
        terms_view(s.push(t)) == terms_view(s).push(term_view(t)),
{
    assert forall|j: int| 0 <= j < s.len() + 1 implies terms_view(s.push(t))[j] == terms_view(
        s,
    ).push(term_view(t))[j] by {
        if j < s.len() {
            assert(s.push(t)[j] == s[j]);
        } else {
            assert(s.push(t)[j] == t);
        }
    }
    assert(terms_view(s.push(t)) =~= terms_view(s).push(term_view(t)));
}

/// Removing a term removes its view.
pub proof fn lemma_terms_view_remove(s: Seq<Term>, i: int)
    requires
        0 <= i < s.len(),
    ensures
        terms_view(s.remove(i)) == terms_view(s).remove(i),
{
    assert forall|j: int| 0 <= j < s.len() - 1 implies terms_view(s.remove(i))[j] == terms_view(
        s,
    ).remove(i)[j] by {
        if j < i {
            assert(s.remove(i)[j] == s[j]);
        } else {
            assert(s.remove(i)[j] == s[j + 1]);
        }
    }
    assert(terms_view(s.remove(i)) =~= terms_view(s).remove(i));
}

/// The view of an operation keeps its operator and takes the elementwise
/// view of its arguments.
pub broadcast proof fn lemma_op_view_shape(op: Operation)
    ensures
        #[trigger] op_view(op) == (SpecOp {
            operator: op.operator,
            args: terms_view(op.args@),
        }),
{
    assert(op_view(op).args =~= terms_view(op.args@));
}

impl View for Term {
    type V = SpecTerm;

    open spec fn view(&self) -> SpecTerm {
        term_view(*self)
    }
}

impl View for Operation {
    type V = SpecOp;

    open spec fn view(&self) -> SpecOp {
        op_view(*self)
    }
}

/// The trivially true constraint: a conjunction of nothing.
pub open spec fn spec_true() -> SpecOp {
    SpecOp { operator: Operator::And, args: Seq::empty() }
}

/// The trivially false constraint: a disjunction of nothing.
pub open spec fn spec_false() -> SpecOp {
    SpecOp { operator: Operator::Or, args: Seq::empty() }
}

/// Build the trivially true constraint.
pub fn true_operation() -> (r: Operation)
    ensures
        r@ == spec_true(),
{
    let r = Operation { operator: Operator::And, args: Vec::new() };
    proof {
        assert(r@.args =~= spec_true().args);
    }
    r
}

/// Build the trivially false constraint.
pub fn false_operation() -> (r: Operation)
    ensures
        r@ == spec_false(),
{
    let r = Operation { operator: Operator::Or, args: Vec::new() };
    proof {
        assert(r@.args =~= spec_false().args);
    }
    r
}

/// A term is ground when it contains no variable references.
pub open spec fn spec_ground(t: SpecTerm) -> bool
    decreases t,
{
    match t {
        SpecTerm::Integer(_) => true,
        SpecTerm::Boolean(_) => true,
        SpecTerm::Variable(_) => false,
        SpecTerm::List(ts) => spec_all_ground(ts),
        SpecTerm::Expression(op) => spec_all_ground(op.args),
    }
}

/// Every term of the sequence is ground.
pub open spec fn spec_all_ground(ts: Seq<SpecTerm>) -> bool
    decreases ts,
{
    forall|i: int| 0 <= i < ts.len() ==> spec_ground(#[trigger] ts[i])
}

/// A term is a ground value when it contains neither variables nor
/// expressions: plain data that no rewriting applies to.
pub open spec fn spec_ground_value(t: SpecTerm) -> bool
    decreases t,
{
    match t {
        SpecTerm::Integer(_) => true,
        SpecTerm::Boolean(_) => true,
        SpecTerm::Variable(_) => false,
        SpecTerm::List(ts) => forall|i: int|
            0 <= i < ts.len() ==> spec_ground_value(#[trigger] ts[i]),
        SpecTerm::Expression(_) => false,
    }
}

/// Whether a term contains no variable references.
pub fn is_ground(t: &Term) -> (r: bool)
    ensures
        r == spec_ground(t@),
    decreases t,
{
    proof {
        lemma_term_view_shape(*t);
        if let Term::Expression(op) = t {
            lemma_op_view_shape(*op);
        }
    }
    match t {
        Term::Integer(_) => true,
        Term::Boolean(_) => true,
        Term::Variable(_) => false,
        Term::List(ts) => all_ground(ts),
        Term::Expression(op) => all_ground(&op.args),
    }
}

fn all_ground(ts: &Vec<Term>) -> (r: bool)
    ensures
        r == spec_all_ground(terms_view(ts@)),
    decreases ts,
{
    let n = ts.len();
    let mut i: usize = 0;
    while i < n
        invariant
            n == ts@.len(),
            i <= n,
            forall|j: int| 0 <= j < i ==> spec_ground(#[trigger] terms_view(ts@)[j]),
        decreases n - i,
    {
        if !is_ground(&ts[i]) {
            proof {
                assert(terms_view(ts@)[i as int] == term_view(ts@[i as int]));
                assert(!spec_ground(terms_view(ts@)[i as int]));
            }
            return false;
        }
        proof {
            assert(terms_view(ts@)[i as int] == term_view(ts@[i as int]));
        }
        i += 1;
    }
    true
}

/// Structural equality of terms, the relation all rewriting is driven by.
pub fn term_eq(a: &Term, b: &Term) -> (r: bool)
    ensures
        r == (a@ == b@),
    decreases a,
{
    broadcast use lemma_term_view_shape, lemma_op_view_shape;

    match (a, b) {
        (Term::Integer(x), Term::Integer(y)) => x == y,
        (Term::Boolean(x), Term::Boolean(y)) => x == y,
        (Term::Variable(x), Term::Variable(y)) => x == y,
        (Term::List(xs), Term::List(ys)) => terms_eq(xs, ys),
        (Term::Expression(x), Term::Expression(y)) => operation_eq(x, y),
        _ => false,
    }
}

/// Structural equality of operations.
pub fn operation_eq(a: &Operation, b: &Operation) -> (r: bool)
    ensures
        r == (a@ == b@),
    decreases a,
{
    broadcast use lemma_term_view_shape, lemma_op_view_shape;

    a.operator == b.operator && terms_eq(&a.args, &b.args)
}

/// Elementwise structural equality of term lists.
pub fn terms_eq(xs: &Vec<Term>, ys: &Vec<Term>) -> (r: bool)
    ensures
        r == (terms_view(xs@) == terms_view(ys@)),
    decreases xs,
{
    if xs.len() != ys.len() {
        proof {
            assert(terms_view(xs@).len() != terms_view(ys@).len());
        }
        return false;
    }
    let n = xs.len();
    let mut i: usize = 0;
    while i < n
        invariant
            n == xs@.len(),
            n == ys@.len(),
            i <= n,
            forall|j: int| 0 <= j < i ==> terms_view(xs@)[j] == terms_view(ys@)[j],
        decreases n - i,
    {
        if !term_eq(&xs[i], &ys[i]) {
            proof {
                assert(terms_view(xs@)[i as int] != terms_view(ys@)[i as int]);
            }
            return false;
        }
        proof {
            assert(terms_view(xs@)[i as int] == terms_view(ys@)[i as int]);
        }
        i += 1;
    }
    proof {
        assert(terms_view(xs@) =~= terms_view(ys@));
    }
    true
}

/// A structural copy of a term, equal to the original in every contract.
pub fn clone_term(t: &Term) -> (r: Term)
    ensures
        r@ == t@,
    decreases t,
{
    broadcast use lemma_term_view_shape, lemma_op_view_shape;

    match t {
        Term::Integer(i) => Term::Integer(*i),
        Term::Boolean(b) => Term::Boolean(*b),
        Term::Variable(s) => Term::Variable(*s),
        Term::List(ts) => Term::List(clone_terms(ts)),
        Term::Expression(op) => Term::Expression(clone_operation(op)),
    }
}

/// A structural copy of an operation.
pub fn clone_operation(op: &Operation) -> (r: Operation)
    ensures
        r@ == op@,
    decreases op,
{
    broadcast use lemma_term_view_shape, lemma_op_view_shape;

    Operation { operator: op.operator, args: clone_terms(&op.args) }
}

/// A structural copy of a term list.
pub fn clone_terms(ts: &Vec<Term>) -> (r: Vec<Term>)
    ensures
        terms_view(r@) == terms_view(ts@),
    decreases ts,
{
    let n = ts.len();
    let mut out: Vec<Term> = Vec::new();
    let mut i: usize = 0;
    while i < n
        invariant
            n == ts@.len(),
            i <= n,
            out@.len() == i,
            forall|j: int| 0 <= j < i ==> terms_view(out@)[j] == terms_view(ts@)[j],
        decreases n - i,
    {
        let c = clone_term(&ts[i]);
        out.push(c);
        i += 1;
    }
    proof {
        assert(terms_view(out@) =~= terms_view(ts@));
    }
    out
}

impl Clone for Term {
    /// Structural copy; the clone has the same view as the original.
    fn clone(&self) -> (r: Self)
        ensures
            r@ == self@,
    {
        clone_term(self)
    }
}

impl Clone for Operation {
    /// Structural copy; the clone has the same view as the original.
    fn clone(&self) -> (r: Self)
        ensures
            r@ == self@,
    {
        clone_operation(self)
    }
}

} // verus!
