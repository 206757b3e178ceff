//! Terms: variables and function applications.

use lalrpop_intern::InternedString;
use vstd::prelude::*;

verus! {

/// A first-order term.
#[derive(PartialEq, Eq, Debug)]
pub enum Term {
    Var(InternedString),
    Fn(Apply),
}

/// A function symbol applied to an ordered list of terms.
#[derive(PartialEq, Eq, Debug)]
pub struct Apply {
    pub name: InternedString,
    pub terms: Vec<Term>,
}

/// The mathematical value of a [`Term`].
pub enum TermView {
    Var(InternedString),
    Fn(ApplyView),
}

/// The mathematical value of an [`Apply`].
pub struct ApplyView {
    pub name: InternedString,
    pub terms: Seq<TermView>,
}

/// The values of a sequence of terms, in order.
pub open spec fn terms_view(terms: Seq<Term>) -> Seq<TermView>
    decreases terms,
{
    Seq::new(terms.len(), |i: int| if 0 <= i < terms.len() { terms[i]@ } else { arbitrary() })
}

impl View for Term {
    type V = TermView;

    open spec fn view(&self) -> TermView
        decreases self,
    {
        match self {
            Term::Var(v) => TermView::Var(*v),
            Term::Fn(a) => TermView::Fn(a@),
        }
    }
}

impl View for Apply {
    type V = ApplyView;

    open spec fn view(&self) -> ApplyView
        decreases self,
    {
        ApplyView { name: self.name, terms: terms_view(self.terms@) }
    }
}

/// The values of a sequence of tuples of terms, in order.
pub open spec fn tuples_view(tuples: Seq<Vec<Term>>) -> Seq<Seq<TermView>> {
    Seq::new(tuples.len(), |i: int| terms_view(tuples[i]@))
}

/// The values of a sequence with one more term are the old values and the new one.
pub proof fn lemma_terms_view_push(terms: Seq<Term>, term: Term)
    ensures
        terms_view(terms.push(term)) == terms_view(terms).push(term@),
{
    assert(terms_view(terms.push(term)) =~= terms_view(terms).push(term@));
}

/// The values of a sequence with one more tuple are the old values and the new one.
pub proof fn lemma_tuples_view_push(tuples: Seq<Vec<Term>>, tuple: Vec<Term>)
    ensures
        tuples_view(tuples.push(tuple)) == tuples_view(tuples).push(terms_view(tuple@)),
{
    assert(tuples_view(tuples.push(tuple)) =~= tuples_view(tuples).push(terms_view(tuple@)));
}

impl Clone for Term {
    fn clone(&self) -> (copy: Term)
        ensures
            copy@ == self@,
        decreases self,
    {
        match self {
            Term::Var(v) => Term::Var(*v),
            Term::Fn(a) => Term::Fn(a.clone()),
        }
    }
}

impl Clone for Apply {
    fn clone(&self) -> (copy: Apply)
        ensures
            copy@ == self@,
        decreases self,
    {
        Apply { name: self.name, terms: clone_terms(&self.terms) }
    }
}

/// Copies a tuple of terms, term by term.
pub fn clone_terms(terms: &Vec<Term>) -> (copy: Vec<Term>)
    ensures
        terms_view(copy@) == terms_view(terms@),
    decreases terms,
{
    let mut copy: Vec<Term> = Vec::new();
    let mut i: usize = 0;
    while i < terms.len()
        invariant
            i <= terms.len(),
            copy.len() == i,
            forall|j: int| 0 <= j < i ==> copy[j]@ == terms[j]@,
        decreases terms.len() - i,
    {
        copy.push(terms[i].clone());
        i += 1;
    }
    copy
}

} // verus!
