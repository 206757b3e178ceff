//! The Herbrand domain of a finite signature: its ground terms and ground tuples, listed
//! size by size.

use crate::fol::product::{all_pairs, next_pair, pairs_of, pending};
use crate::fol::symbol::same_symbol;
use crate::fol::term::{
    clone_terms, lemma_terms_view_push, lemma_tuples_view_push, terms_view, tuples_view, Apply,
    ApplyView, Term, TermView,
};
use lalrpop_intern::InternedString;
use vstd::prelude::*;

verus! {

/// A fixed signature: the constants, and the function symbols with their arities.
///
/// The function symbols are kept in the order in which they were first added, and no
/// symbol is listed twice.
pub struct Domain {
    constant_terms: Vec<Term>,
    funcs: Vec<(InternedString, usize)>,
}

/// The mathematical value of a [`Domain`].
pub struct Signature {
    /// The constants, in the domain's stored order.
    pub constants: Seq<TermView>,
    /// The function symbols with their arities, in the domain's stored order.
    pub functions: Seq<(InternedString, nat)>,
}

/// The application of `name` to each of `tuples`, in order.
pub open spec fn apply_to_all(name: InternedString, tuples: Seq<Seq<TermView>>) -> Seq<TermView> {
    Seq::new(tuples.len(), |i: int| TermView::Fn(ApplyView { name, terms: tuples[i] }))
}

/// Every tail with every head appended to it: all tails with the first head, in the order
/// of `tails`, then all tails with the second head, and so on.
pub open spec fn extend(heads: Seq<TermView>, tails: Seq<Seq<TermView>>) -> Seq<Seq<TermView>> {
    Seq::new(
        heads.len() * tails.len(),
        |i: int| tails[i % tails.len() as int].push(heads[i / tails.len() as int]),
    )
}

impl Signature {
    /// No function symbol is listed twice.
    pub open spec fn distinct_functions(self) -> bool {
        forall|i: int, j: int|
            0 <= i < j < self.functions.len() ==> self.functions[i].0 != self.functions[j].0
    }

    /// `name` is one of the function symbols.
    pub open spec fn has_function(self, name: InternedString) -> bool {
        exists|i: int| 0 <= i < self.functions.len() && #[trigger] self.functions[i].0 == name
    }

    /// The place of `name` among the function symbols, where it is one of them.
    pub open spec fn position(self, name: InternedString) -> int {
        choose|i: int| 0 <= i < self.functions.len() && #[trigger] self.functions[i].0 == name
    }

    /// `name` is listed as a function symbol of `arity` arguments.
    pub open spec fn lists(self, name: InternedString, arity: nat) -> bool {
        exists|i: int| 0 <= i < self.functions.len() && #[trigger] self.functions[i] == (name, arity)
    }

    /// `term` is built from the signature: it is a constant, or a function symbol applied
    /// to as many arguments as its arity says, each built from the signature.
    pub open spec fn is_ground(self, term: TermView) -> bool
        decreases term,
    {
        self.constants.contains(term) || match term {
            TermView::Fn(a) => self.lists(a.name, a.terms.len()) && self.all_ground(a.terms),
            TermView::Var(_) => false,
        }
    }

    /// Each of `terms` is built from the signature.
    pub open spec fn all_ground(self, terms: Seq<TermView>) -> bool
        decreases terms,
    {
        terms.len() == 0 || (self.all_ground(terms.drop_last()) && self.is_ground(terms.last()))
    }

    /// The size of a term: the number of function applications in it, a constant counting
    /// as none.
    pub open spec fn size(self, term: TermView) -> nat
        decreases term,
    {
        if self.constants.contains(term) {
            0
        } else {
            match term {
                TermView::Fn(a) => 1 + self.total_size(a.terms),
                TermView::Var(_) => 0,
            }
        }
    }

    /// The sizes of `terms`, added up.
    pub open spec fn total_size(self, terms: Seq<TermView>) -> nat
        decreases terms,
    {
        if terms.len() == 0 {
            0
        } else {
            self.total_size(terms.drop_last()) + self.size(terms.last())
        }
    }

    /// No constant is an application of one of the function symbols.
    pub open spec fn constants_apart(self) -> bool {
        forall|i: int|
            0 <= i < self.constants.len() ==> match #[trigger] self.constants[i] {
                TermView::Fn(a) => !self.has_function(a.name),
                TermView::Var(_) => true,
            }
    }

    /// Nothing is listed twice, and the constants are apart from the function symbols: each
    /// term built from the signature is then built in one way only.
    pub open spec fn unambiguous(self) -> bool {
        &&& self.constants.no_duplicates()
        &&& self.distinct_functions()
        &&& self.constants_apart()
    }

    /// The ground terms of size `n`: the constants for `n == 0`; otherwise, for each
    /// function symbol in turn, its application to every ground tuple of size `n - 1`
    /// and of the symbol's arity.
    pub open spec fn ground_terms(self, n: nat) -> Seq<TermView>
        decreases 3 * n, 0nat, 0nat,
    {
        if n == 0 {
            self.constants
        } else {
            self.applications((n - 1) as nat, self.functions.len())
        }
    }

    /// The terms of size `m + 1` whose head is one of the first `count` function symbols.
    pub open spec fn applications(self, m: nat, count: nat) -> Seq<TermView>
        decreases 3 * m + 2, count, 0nat,
    {
        if count == 0 || count > self.functions.len() {
            Seq::empty()
        } else {
            let (name, arity) = self.functions[count - 1];
            self.applications(m, (count - 1) as nat) + apply_to_all(
                name,
                self.ground_tuples(m, arity),
            )
        }
    }

    /// The tuples of `arity` ground terms whose sizes add up to `n`: the single empty
    /// tuple for `arity == 0` and `n == 0`, none for `arity == 0` and `n > 0`; otherwise,
    /// for each size `k` from `0` to `n` of the last term, every tuple of size `n - k` and
    /// length `arity - 1` followed by every term of size `k`.
    pub open spec fn ground_tuples(self, n: nat, arity: nat) -> Seq<Seq<TermView>>
        decreases 3 * n + 1, arity, n + 2,
    {
        if arity == 0 {
            if n == 0 {
                seq![Seq::empty()]
            } else {
                Seq::empty()
            }
        } else {
            self.splits(n, arity, n)
        }
    }

    /// The tuples of length `arity` in the order in which a search tries them, as far as
    /// the sizes below `n` go: those of size `0`, then those of size `1`, and so on.
    pub open spec fn schedule(self, arity: nat, n: nat) -> Seq<Seq<TermView>>
        decreases n,
    {
        if n == 0 {
            Seq::empty()
        } else {
            self.schedule(arity, (n - 1) as nat) + self.ground_tuples((n - 1) as nat, arity)
        }
    }

    /// `tuple` stands at the place `i` of the list of its length for the size `n`.
    pub open spec fn listed_at(self, tuple: Seq<TermView>, n: nat, i: int) -> bool {
        0 <= i < self.ground_tuples(n, tuple.len()).len() && self.ground_tuples(n, tuple.len())[i]
            == tuple
    }

    /// The tuples of `arity` ground terms whose sizes add up to `n` and whose last term
    /// has a size of at most `k`.
    pub open spec fn splits(self, n: nat, arity: nat, k: nat) -> Seq<Seq<TermView>>
        decreases 3 * n + 1, arity, k + 1,
    {
        if arity == 0 || k > n {
            Seq::empty()
        } else {
            let smaller = if k == 0 {
                Seq::empty()
            } else {
                self.splits(n, arity, (k - 1) as nat)
            };
            smaller + extend(
                self.ground_terms(k),
                self.ground_tuples((n - k) as nat, (arity - 1) as nat),
            )
        }
    }
}

impl View for Domain {
    type V = Signature;

    closed spec fn view(&self) -> Signature {
        Signature {
            constants: terms_view(self.constant_terms@),
            functions: Seq::new(
                self.funcs@.len(),
                |i: int| (self.funcs@[i].0, self.funcs@[i].1 as nat),
            ),
        }
    }
}

impl Domain {
    /// No function symbol is listed twice.
    #[verifier::type_invariant]
    spec fn listed_once(self) -> bool {
        self@.distinct_functions()
    }

    /// A domain with the given constants and no function symbol.
    pub fn new(constant_terms: Vec<Term>) -> (domain: Domain)
        ensures
            domain@.constants == terms_view(constant_terms@),
            domain@.functions.len() == 0,
    {
        Domain { constant_terms, funcs: Vec::new() }
    }

    /// Gives `name` the arity `arity`. A symbol that is new to the signature is added after
    /// the others; one that is listed already keeps its place and gets the new arity.
    /// Returns the arity that the symbol had before, if it had one.
    pub fn add_function(&mut self, name: InternedString, arity: usize) -> (previous: Option<usize>)
        ensures
            final(self)@.constants == old(self)@.constants,
            final(self)@.distinct_functions(),
            old(self)@.has_function(name) ==> {
                &&& previous == Some(old(self)@.functions[old(self)@.position(name)].1 as usize)
                &&& final(self)@.functions == old(self)@.functions.update(
                    old(self)@.position(name),
                    (name, arity as nat),
                )
            },
            !old(self)@.has_function(name) ==> {
                &&& previous.is_none()
                &&& final(self)@.functions == old(self)@.functions.push((name, arity as nat))
            },
    {
        let mut taken = Domain::new(Vec::new());
        std::mem::swap(self, &mut taken);
        proof {
            use_type_invariant(&taken);
        }
        let Domain { constant_terms, mut funcs } = taken;
        let ghost before = old(self)@;
        let mut previous: Option<usize> = None;
        let mut i: usize = 0;
        while i < funcs.len()
            invariant_except_break
                i <= funcs.len(),
                previous.is_none(),
                forall|j: int| 0 <= j < i ==> before.functions[j].0 != name,
            invariant
                funcs == old(self).funcs,
                before == old(self)@,
                before.distinct_functions(),
            ensures
                previous.is_none() ==> !before.has_function(name),
                previous.is_some() ==> {
                    &&& i < funcs.len()
                    &&& before.has_function(name)
                    &&& before.position(name) == i
                    &&& previous == Some(funcs[i as int].1)
                },
            decreases funcs.len() - i,
        {
            let (listed, known) = funcs[i];
            if same_symbol(listed, name) {
                proof {
                    assert(before.functions[i as int].0 == name);
                    assert(before.position(name) == i);
                }
                previous = Some(known);
                break ;
            }
            i += 1;
        }
        if previous.is_some() {
            funcs.set(i, (name, arity));
        } else {
            funcs.push((name, arity));
        }
        let ghost listed = Signature {
            constants: terms_view(constant_terms@),
            functions: Seq::new(funcs@.len(), |j: int| (funcs@[j].0, funcs@[j].1 as nat)),
        };
        proof {
            if previous.is_some() {
                assert(listed.functions =~= before.functions.update(i as int, (name, arity as nat)));
            } else {
                assert(listed.functions =~= before.functions.push((name, arity as nat)));
            }
            assert forall|a: int, b: int| 0 <= a < b < listed.functions.len() implies listed.functions[a].0
                != listed.functions[b].0 by {
                if b < before.functions.len() {
                    assert(before.functions[a].0 != before.functions[b].0);
                }
            }
        }
        *self = Domain { constant_terms, funcs };
        previous
    }

    /// The number of function symbols.
    pub fn function_count(&self) -> (count: usize)
        ensures
            count == self@.functions.len(),
            self@.distinct_functions(),
    {
        proof {
            use_type_invariant(self);
        }
        self.funcs.len()
    }

    /// The ground terms of size `n`, in the order of [`Signature::ground_terms`].
    pub fn ground_terms(&self, n: usize) -> (terms: Vec<Term>)
        ensures
            terms_view(terms@) == self@.ground_terms(n as nat),
        decreases 2 * n, 0nat,
    {
        if n == 0 {
            clone_terms(&self.constant_terms)
        } else {
            let mut terms: Vec<Term> = Vec::new();
            let mut f: usize = 0;
            while f < self.funcs.len()
                invariant
                    n > 0,
                    f <= self.funcs.len(),
                    terms_view(terms@) == self@.applications((n - 1) as nat, f as nat),
                decreases self.funcs.len() - f,
            {
                let (name, arity) = self.funcs[f];
                let tuples = self.ground_tuples(n - 1, arity);
                let ghost before = terms_view(terms@);
                assert(before + apply_to_all(name, tuples_view(tuples@)).take(0) =~= before);
                let mut t: usize = 0;
                while t < tuples.len()
                    invariant
                        t <= tuples.len(),
                        terms_view(terms@) == before + apply_to_all(
                            name,
                            tuples_view(tuples@),
                        ).take(t as int),
                    decreases tuples.len() - t,
                {
                    let term = Term::Fn(Apply { name, terms: clone_terms(&tuples[t]) });
                    proof {
                        let all = apply_to_all(name, tuples_view(tuples@));
                        lemma_terms_view_push(terms@, term);
                        assert(all.take(t + 1) =~= all.take(t as int).push(term@));
                    }
                    terms.push(term);
                    t += 1;
                }
                proof {
                    let all = apply_to_all(name, tuples_view(tuples@));
                    assert(all.take(tuples.len() as int) =~= all);
                }
                f += 1;
            }
            terms
        }
    }

    /// The ground tuples of size `n` and length `arity`, in the order of
    /// [`Signature::ground_tuples`].
    pub fn ground_tuples(&self, n: usize, arity: usize) -> (tuples: Vec<Vec<Term>>)
        ensures
            tuples_view(tuples@) == self@.ground_tuples(n as nat, arity as nat),
        decreases 2 * n + 1, arity,
    {
        let mut tuples: Vec<Vec<Term>> = Vec::new();
        if arity == 0 {
            if n == 0 {
                tuples.push(Vec::new());
            }
            assert(tuples_view(tuples@) =~~= self@.ground_tuples(n as nat, 0));
            return tuples;
        }
        let mut k: usize = 0;
        loop
            invariant_except_break
                arity > 0,
                k <= n,
                tuples_view(tuples@) == if k == 0 {
                    Seq::<Seq<TermView>>::empty()
                } else {
                    self@.splits(n as nat, arity as nat, (k - 1) as nat)
                },
            ensures
                tuples_view(tuples@) == self@.splits(n as nat, arity as nat, n as nat),
            decreases n - k,
        {
            let heads = self.ground_terms(k);
            let tails = self.ground_tuples(n - k, arity - 1);
            let ghost before = tuples_view(tuples@);
            let ghost added = extend(terms_view(heads@), tuples_view(tails@));
            let ghost all = all_pairs(terms_view(heads@), tuples_view(tails@));
            let ghost mut done: int = 0;
            let mut pairs = pairs_of(&heads, &tails);
            assert(all.skip(0) =~= all);
            assert(before + added.take(0) =~= before);
            loop
                invariant_except_break
                    0 <= done <= all.len(),
                    all.len() == added.len(),
                    forall|i: int| 0 <= i < all.len() ==> added[i] == all[i].1.push(all[i].0),
                    pending(pairs) == all.skip(done),
                    tuples_view(tuples@) == before + added.take(done),
                ensures
                    tuples_view(tuples@) == before + added,
                decreases pending(pairs).len(),
            {
                match next_pair(&mut pairs) {
                    Some((head, tail)) => {
                        let mut tuple = clone_terms(tail);
                        let last = head.clone();
                        proof {
                            lemma_terms_view_push(tuple@, last);
                        }
                        tuple.push(last);
                        proof {
                            lemma_tuples_view_push(tuples@, tuple);
                            assert(terms_view(tuple@) == added[done]);
                            assert(added.take(done + 1) =~= added.take(done).push(added[done]));
                            assert(all.skip(done).drop_first() =~= all.skip(done + 1));
                            done = done + 1;
                        }
                        tuples.push(tuple);
                    },
                    None => {
                        assert(added.take(done) =~= added);
                        break ;
                    },
                }
            }
            if k == n {
                break ;
            }
            k += 1;
        }
        tuples
    }
}

} // verus!
