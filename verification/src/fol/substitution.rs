//! Substitutions: a list of variables and the terms that stand for them, position by
//! position.

use crate::fol::symbol::same_symbol;
use crate::fol::term::{clone_terms, terms_view, Term, TermView};
use lalrpop_intern::InternedString;
use vstd::prelude::*;

verus! {

/// A mapping from an ordered list of variables to a list of terms: the variable at a
/// position stands for the term at the same position.
#[derive(Debug)]
pub struct Substitution {
    variables: Vec<InternedString>,
    terms: Vec<Term>,
}

/// The mathematical value of a [`Substitution`].
pub struct SubstitutionView {
    pub variables: Seq<InternedString>,
    pub terms: Seq<TermView>,
}

impl SubstitutionView {
    /// `variable` is bound: it stands at a position that has a term.
    pub open spec fn binds(self, variable: InternedString) -> bool {
        exists|i: int| self.first_at(variable, i)
    }

    /// `i` is the first position of `variable`, and it has a term.
    pub open spec fn first_at(self, variable: InternedString, i: int) -> bool {
        &&& 0 <= i < self.variables.len()
        &&& i < self.terms.len()
        &&& self.variables[i] == variable
        &&& forall|j: int| 0 <= j < i ==> self.variables[j] != variable
    }
}

impl View for Substitution {
    type V = SubstitutionView;

    closed spec fn view(&self) -> SubstitutionView {
        SubstitutionView { variables: self.variables@, terms: terms_view(self.terms@) }
    }
}

impl Substitution {
    /// The substitution that maps `variables`, position by position, to `terms`.
    pub fn new(variables: &Vec<InternedString>, terms: &Vec<Term>) -> (substitution: Substitution)
        ensures
            substitution@.variables == variables@,
            substitution@.terms == terms_view(terms@),
    {
        let mut names: Vec<InternedString> = Vec::new();
        let mut i: usize = 0;
        while i < variables.len()
            invariant
                i <= variables.len(),
                names@ == variables@.take(i as int),
            decreases variables.len() - i,
        {
            names.push(variables[i]);
            assert(variables@.take(i + 1) =~= variables@.take(i as int).push(variables@[i as int]));
            i += 1;
        }
        assert(variables@.take(variables.len() as int) =~= variables@);
        Substitution { variables: names, terms: clone_terms(terms) }
    }

    /// The variables, in order.
    pub fn variables(&self) -> (variables: &Vec<InternedString>)
        ensures
            variables@ == self@.variables,
    {
        &self.variables
    }

    /// The terms, in the order of the variables.
    pub fn terms(&self) -> (terms: &Vec<Term>)
        ensures
            terms_view(terms@) == self@.terms,
    {
        &self.terms
    }

    /// The term that `variable` stands for: the one at the first position of `variable`,
    /// if the variable is listed and that position has a term.
    pub fn lookup(&self, variable: InternedString) -> (term: Option<&Term>)
        ensures
            match term {
                Some(found) => exists|i: int|
                    self@.first_at(variable, i) && found@ == self@.terms[i],
                None => !self@.binds(variable),
            },
    {
        let mut i: usize = 0;
        while i < self.variables.len() && i < self.terms.len()
            invariant
                forall|j: int| 0 <= j < i ==> self@.variables[j] != variable,
            decreases self.variables.len() - i,
        {
            if same_symbol(self.variables[i], variable) {
                assert(self@.first_at(variable, i as int));
                return Some(&self.terms[i]);
            }
            i += 1;
        }
        assert forall|k: int| !self@.first_at(variable, k) by {
            if self@.first_at(variable, k) {
                if k < i {
                    assert(self@.variables[k] != variable);
                }
            }
        }
        None
    }
}

} // verus!
