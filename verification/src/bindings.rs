//! Variable-to-term binding sets, used both for the evaluator's output and
//! for the substitution map a simplification run accumulates.

use vstd::prelude::*;
use crate::terms::{Symbol, Term, SpecTerm};

verus! {

/// A binding set: an ordered list of (variable, term) entries.  As a mapping,
/// a later entry for the same variable supersedes an earlier one.
pub struct Bindings {
    pub entries: Vec<(Symbol, Term)>,
}

/// The elementwise view of binding entries.
pub open spec fn pairs_view(s: Seq<(Symbol, Term)>) -> Seq<(Symbol, SpecTerm)> {
    Seq::new(s.len(), |i: int| (s[i].0, s[i].1@))
}

/// The mapping an entry sequence denotes: later entries win.
pub open spec fn smap_of(s: Seq<(Symbol, SpecTerm)>) -> Map<Symbol, SpecTerm>
    decreases s.len(),
{
    if s.len() == 0 {
        Map::empty()
    } else {
        smap_of(s.drop_last()).insert(s.last().0, s.last().1)
    }
}

/// Appending an entry inserts it into the denoted mapping.
pub broadcast proof fn lemma_smap_push(s: Seq<(Symbol, SpecTerm)>, p: (Symbol, SpecTerm))
    ensures
        smap_of(#[trigger] s.push(p)) == smap_of(s).insert(p.0, p.1),
{
    assert(s.push(p).drop_last() =~= s);
    assert(s.push(p).last() == p);
}

/// The last entry for a key gives its value in the denoted mapping.
pub proof fn lemma_smap_found(s: Seq<(Symbol, SpecTerm)>, k: Symbol, j: int)
    requires
        0 <= j < s.len(),
        s[j].0 == k,
        forall|l: int| j < l < s.len() ==> s[l].0 != k,
    ensures
        smap_of(s).contains_key(k),
        smap_of(s)[k] == s[j].1,
    decreases s.len(),
{
    if j == s.len() - 1 {
    } else {
        assert(s.last().0 != k);
        lemma_smap_found(s.drop_last(), k, j);
    }
}

/// A key on no entry is absent from the denoted mapping.
pub proof fn lemma_smap_absent(s: Seq<(Symbol, SpecTerm)>, k: Symbol)
    requires
        forall|l: int| 0 <= l < s.len() ==> s[l].0 != k,
    ensures
        !smap_of(s).contains_key(k),
    decreases s.len(),
{
    if s.len() > 0 {
        lemma_smap_absent(s.drop_last(), k);
    }
}

impl View for Bindings {
    type V = Seq<(Symbol, SpecTerm)>;

    open spec fn view(&self) -> Seq<(Symbol, SpecTerm)> {
        pairs_view(self.entries@)
    }
}

impl Bindings {
    /// The mapping this binding set denotes.
    pub open spec fn as_map(self) -> Map<Symbol, SpecTerm> {
        smap_of(self@)
    }

    /// An empty binding set.
    pub fn new() -> (r: Self)
        ensures
            r@ =~= Seq::<(Symbol, SpecTerm)>::empty(),
            r.as_map() =~= Map::<Symbol, SpecTerm>::empty(),
    {
        let r = Bindings { entries: Vec::new() };
        proof {
            assert(r@ =~= Seq::<(Symbol, SpecTerm)>::empty());
        }
        r
    }

    /// The number of entries.
    pub fn len(&self) -> (r: usize)
        ensures
            r == self@.len(),
    {
        self.entries.len()
    }

    /// Append a binding for `var`, superseding any earlier one.
    pub fn insert(&mut self, var: Symbol, value: Term)
        ensures
            final(self)@ == old(self)@.push((var, value@)),
            final(self).as_map() == old(self).as_map().insert(var, value@),
    {
        self.entries.push((var, value));
        proof {
            assert(self@ =~= old(self)@.push((var, value@)));
            lemma_smap_push(old(self)@, (var, value@));
        }
    }

    /// Whether `var` is bound.
    pub fn contains_key(&self, var: Symbol) -> (r: bool)
        ensures
            r == self.as_map().contains_key(var),
    {
        match self.get(var) {
            Option::Some(_) => true,
            Option::None => false,
        }
    }

    /// Look up the binding for `var`: the latest entry wins.
    pub fn get(&self, var: Symbol) -> (r: Option<&Term>)
        ensures
            (r is Some) == self.as_map().contains_key(var),
            r is Some ==> r->0@ == self.as_map()[var],
    {
        let n = self.entries.len();
        let mut i: usize = n;
        while i > 0
            invariant
                n == self.entries@.len(),
                i <= n,
                forall|l: int| i <= l < n ==> self@[l].0 != var,
            decreases i,
        {
            i = i - 1;
            if self.entries[i].0 == var {
                proof {
                    lemma_smap_found(self@, var, i as int);
                }
                return Option::Some(&self.entries[i].1);
            }
        }
        proof {
            lemma_smap_absent(self@, var);
        }
        Option::None
    }
}

} // verus!
