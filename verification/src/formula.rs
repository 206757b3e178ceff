//! Formulas over an arbitrary type of atoms.

use lalrpop_intern::InternedString;
use std::collections::BTreeSet;
use std::sync::Arc;
use vstd::laws_cmp::obeys_cmp;
use vstd::prelude::*;

pub mod laws;

verus! {

/// A formula: an immutable tree whose nodes may be shared. Two formulas are equal when
/// they are the same tree, whatever they share.
#[derive(PartialOrd, Ord, PartialEq, Eq, Debug)]
pub struct Formula<T> {
    pub kind: Arc<FormulaKind<T>>,
}

/// The top node of a formula.
#[derive(PartialOrd, Ord, PartialEq, Eq, Debug)]
pub enum FormulaKind<T> {
    False,
    True,
    Atom(T),
    Not(Formula<T>),
    And(Formula<T>, Formula<T>),
    Or(Formula<T>, Formula<T>),
    Implies(Formula<T>, Formula<T>),
    Iff(Formula<T>, Formula<T>),
    ForAll(InternedString, Formula<T>),
    Exists(InternedString, Formula<T>),
}

/// `Arc::clone`: another pointer to the same allocation, so to the same value.
#[verifier::external_body]
fn share<N>(node: &Arc<N>) -> (shared: Arc<N>)
    ensures
        shared == *node,
{
    Arc::clone(node)
}

impl<T> Clone for Formula<T> {
    /// Shares the formula's top node: no node is copied.
    fn clone(&self) -> (copy: Formula<T>)
        ensures
            copy == *self,
    {
        Formula { kind: share(&self.kind) }
    }
}

impl<T: Clone> Clone for FormulaKind<T> {
    /// A node with the same sub-formulas, shared; an atom is cloned.
    fn clone(&self) -> (copy: FormulaKind<T>)
        ensures
            match *self {
                FormulaKind::Atom(a) => copy matches FormulaKind::Atom(b) && cloned(a, b),
                _ => copy == *self,
            },
    {
        match self {
            FormulaKind::False => FormulaKind::False,
            FormulaKind::True => FormulaKind::True,
            FormulaKind::Atom(a) => FormulaKind::Atom(a.clone()),
            FormulaKind::Not(p) => FormulaKind::Not(p.clone()),
            FormulaKind::And(p, q) => FormulaKind::And(p.clone(), q.clone()),
            FormulaKind::Or(p, q) => FormulaKind::Or(p.clone(), q.clone()),
            FormulaKind::Implies(p, q) => FormulaKind::Implies(p.clone(), q.clone()),
            FormulaKind::Iff(p, q) => FormulaKind::Iff(p.clone(), q.clone()),
            FormulaKind::ForAll(v, p) => FormulaKind::ForAll(*v, p.clone()),
            FormulaKind::Exists(v, p) => FormulaKind::Exists(*v, p.clone()),
        }
    }
}

/// `states` are the states that a fold of `u` through `atoms` with `f` goes through, from
/// `folded`, the state after the first atom, down to `u`, the state before the last one:
/// the state before an atom leads to the state after it.
pub open spec fn is_fold_trace<T, U, F: Fn(&T, U) -> U>(
    atoms: Seq<T>,
    f: F,
    u: U,
    folded: U,
    states: Seq<U>,
) -> bool {
    &&& states.len() == atoms.len() + 1
    &&& states[0] == folded
    &&& states[atoms.len() as int] == u
    &&& forall|i: int|
        0 <= i < atoms.len() ==> call_ensures(f, (&atoms[i], states[i + 1]), #[trigger] states[i])
}

/// `values` holds, atom by atom, a value that `f` may return for the atom.
pub open spec fn is_value_list<T, U, F: Fn(&T) -> U>(atoms: Seq<T>, f: F, values: Seq<U>) -> bool {
    &&& values.len() == atoms.len()
    &&& forall|i: int| 0 <= i < atoms.len() ==> call_ensures(f, (&atoms[i],), #[trigger] values[i])
}

impl<T> Formula<T> {
    /// The formula whose top node is `kind`.
    pub open spec fn of(kind: FormulaKind<T>) -> Formula<T> {
        Formula { kind: Arc::new(kind) }
    }

    /// `(not self)`.
    pub open spec fn negation(self) -> Formula<T> {
        Formula::of(FormulaKind::Not(self))
    }

    /// The formula under the negation, where the top node is one; the negation of the
    /// formula, where it is not.
    pub open spec fn negated(self) -> Formula<T> {
        match *self.kind {
            FormulaKind::Not(p) => p,
            _ => self.negation(),
        }
    }

    /// An atom, or the negation of an atom.
    pub open spec fn is_literal(self) -> bool {
        match *self.kind {
            FormulaKind::Atom(_) => true,
            FormulaKind::Not(p) => *p.kind is Atom,
            _ => false,
        }
    }

    /// The number of nodes on the longest path from the top node down.
    pub open spec fn height(self) -> nat
        decreases self,
    {
        match *self.kind {
            FormulaKind::False | FormulaKind::True | FormulaKind::Atom(_) => 1,
            FormulaKind::Not(p) | FormulaKind::ForAll(_, p) | FormulaKind::Exists(_, p) => 1
                + p.height(),
            FormulaKind::And(p, q)
            | FormulaKind::Or(p, q)
            | FormulaKind::Implies(p, q)
            | FormulaKind::Iff(p, q) => 1 + if p.height() >= q.height() {
                p.height()
            } else {
                q.height()
            },
        }
    }

    /// The atoms of the formula, in the order in which they are written, each as often as
    /// it occurs.
    pub open spec fn atoms(self) -> Seq<T>
        decreases self,
    {
        match *self.kind {
            FormulaKind::False | FormulaKind::True => Seq::empty(),
            FormulaKind::Atom(a) => seq![a],
            FormulaKind::Not(p) | FormulaKind::ForAll(_, p) | FormulaKind::Exists(_, p) => p.atoms(),
            FormulaKind::And(p, q)
            | FormulaKind::Or(p, q)
            | FormulaKind::Implies(p, q)
            | FormulaKind::Iff(p, q) => p.atoms() + q.atoms(),
        }
    }

    /// The formula with `g` of the atom put in the place of each atom.
    pub open spec fn map_atoms<U>(self, g: spec_fn(T) -> Formula<U>) -> Formula<U>
        decreases self,
    {
        match *self.kind {
            FormulaKind::False => Formula::of(FormulaKind::False),
            FormulaKind::True => Formula::of(FormulaKind::True),
            FormulaKind::Atom(a) => g(a),
            FormulaKind::Not(p) => Formula::of(FormulaKind::Not(p.map_atoms(g))),
            FormulaKind::And(p, q) => Formula::of(FormulaKind::And(p.map_atoms(g), q.map_atoms(g))),
            FormulaKind::Or(p, q) => Formula::of(FormulaKind::Or(p.map_atoms(g), q.map_atoms(g))),
            FormulaKind::Implies(p, q) => Formula::of(
                FormulaKind::Implies(p.map_atoms(g), q.map_atoms(g)),
            ),
            FormulaKind::Iff(p, q) => Formula::of(FormulaKind::Iff(p.map_atoms(g), q.map_atoms(g))),
            FormulaKind::ForAll(v, p) => Formula::of(FormulaKind::ForAll(v, p.map_atoms(g))),
            FormulaKind::Exists(v, p) => Formula::of(FormulaKind::Exists(v, p.map_atoms(g))),
        }
    }

    /// The conjuncts of a chain of `And` nodes that leans to the right, from left to
    /// right; the formula alone, where its top node is no `And`.
    pub open spec fn conjunct_list(self) -> Seq<Formula<T>>
        decreases self,
    {
        match *self.kind {
            FormulaKind::And(p, q) => seq![p] + q.conjunct_list(),
            _ => seq![self],
        }
    }

    /// `p` stands directly under the top node, and its atoms are those of the formula
    /// from the place `offset` on.
    pub open spec fn part_at(self, p: Formula<T>, offset: int) -> bool {
        match *self.kind {
            FormulaKind::Not(q) => p == q && offset == 0,
            FormulaKind::ForAll(_, q) => p == q && offset == 0,
            FormulaKind::Exists(_, q) => p == q && offset == 0,
            FormulaKind::And(q, r) => (p == q && offset == 0) || (p == r && offset == q.atoms().len()),
            FormulaKind::Or(q, r) => (p == q && offset == 0) || (p == r && offset == q.atoms().len()),
            FormulaKind::Implies(q, r) => (p == q && offset == 0) || (p == r && offset
                == q.atoms().len()),
            FormulaKind::Iff(q, r) => (p == q && offset == 0) || (p == r && offset == q.atoms().len()),
            _ => false,
        }
    }

    /// `f` accepts every atom of the formula.
    pub open spec fn accepted_by<U, F: Fn(&T) -> U>(self, f: F) -> bool {
        forall|i: int| 0 <= i < self.atoms().len() ==> call_requires(f, (&#[trigger] self.atoms()[i],))
    }

    /// `f` accepts every atom of the formula, with any state.
    pub open spec fn folded_by<U, F: Fn(&T, U) -> U>(self, f: F) -> bool {
        forall|i: int, u: U|
            0 <= i < self.atoms().len() ==> call_requires(f, (&#[trigger] self.atoms()[i], u))
    }

    /// `image` is the formula with, in the place of each atom, a formula that `f` may
    /// return for the atom.
    pub open spec fn is_image<U, F: Fn(&T) -> Formula<U>>(self, f: F, image: Formula<U>) -> bool
        decreases self,
    {
        match *self.kind {
            FormulaKind::False => *image.kind is False,
            FormulaKind::True => *image.kind is True,
            FormulaKind::Atom(a) => call_ensures(f, (&a,), image),
            FormulaKind::Not(p) => *image.kind matches FormulaKind::Not(r) && p.is_image(f, r),
            FormulaKind::And(p, q) => *image.kind matches FormulaKind::And(r, s) && p.is_image(f, r)
                && q.is_image(f, s),
            FormulaKind::Or(p, q) => *image.kind matches FormulaKind::Or(r, s) && p.is_image(f, r)
                && q.is_image(f, s),
            FormulaKind::Implies(p, q) => *image.kind matches FormulaKind::Implies(r, s)
                && p.is_image(f, r) && q.is_image(f, s),
            FormulaKind::Iff(p, q) => *image.kind matches FormulaKind::Iff(r, s) && p.is_image(f, r)
                && q.is_image(f, s),
            FormulaKind::ForAll(v, p) => *image.kind matches FormulaKind::ForAll(w, r) && w == v
                && p.is_image(f, r),
            FormulaKind::Exists(v, p) => *image.kind matches FormulaKind::Exists(w, r) && w == v
                && p.is_image(f, r),
        }
    }

    /// `folded` is a state that `f` may lead to from `u` when it is applied atom by atom,
    /// from the last atom to the first: the right operand of a connective before the left
    /// one.
    pub open spec fn is_fold<U, F: Fn(&T, U) -> U>(self, f: F, u: U, folded: U) -> bool {
        exists|states: Seq<U>| is_fold_trace(self.atoms(), f, u, folded, states)
    }

    /// `set` holds, for each occurrence of an atom, a value that `f` may return for the
    /// atom, and nothing else.
    pub open spec fn is_union<U, F: Fn(&T) -> U>(self, f: F, set: Set<U>) -> bool {
        exists|values: Seq<U>| is_value_list(self.atoms(), f, values) && set == values.to_set()
    }

    /// Says whether this is the formula `false`.
    pub fn is_false(&self) -> (yes: bool)
        ensures
            yes == (*self.kind is False),
    {
        match &*self.kind {
            FormulaKind::False => true,
            _ => false,
        }
    }

    /// Says whether this is the formula `true`.
    pub fn is_true(&self) -> (yes: bool)
        ensures
            yes == (*self.kind is True),
    {
        match &*self.kind {
            FormulaKind::True => true,
            _ => false,
        }
    }

    /// Says whether this is a `(not ..)` formula.
    pub fn is_negative(&self) -> (yes: bool)
        ensures
            yes == (*self.kind is Not),
    {
        match &*self.kind {
            FormulaKind::Not(_) => true,
            _ => false,
        }
    }

    /// Says whether this is no `(not ..)` formula. Of use for literals, less so for other
    /// formulas.
    pub fn is_positive(&self) -> (yes: bool)
        ensures
            yes == !(*self.kind is Not),
    {
        !self.is_negative()
    }

    /// Removes the negation from a `(not ..)` formula, and negates any other formula.
    ///
    /// Unlike [`Formula::not`], which always adds a negation. Meant for literals.
    pub fn negate(&self) -> (negated: Formula<T>)
        ensures
            negated == self.negated(),
    {
        match &*self.kind {
            FormulaKind::Not(p) => p.clone(),
            _ => self.not(),
        }
    }

    /// Returns `(not self)`.
    pub fn not(&self) -> (negation: Formula<T>)
        ensures
            negation == self.negation(),
    {
        Formula::with(FormulaKind::Not(self.clone()))
    }

    /// The formula whose top node is `kind`.
    pub fn with(kind: FormulaKind<T>) -> (formula: Formula<T>)
        ensures
            formula == Formula::of(kind),
    {
        Formula { kind: Arc::new(kind) }
    }

    /// Puts `f` of the atom in the place of each atom.
    pub fn on_atoms<U, F: Fn(&T) -> Formula<U>>(&self, f: &F) -> (image: Formula<U>)
        requires
            self.accepted_by(*f),
        ensures
            self.is_image(*f, image),
        decreases self,
    {
        match &*self.kind {
            FormulaKind::False => Formula::with(FormulaKind::False),
            FormulaKind::True => Formula::with(FormulaKind::True),
            FormulaKind::Atom(a) => {
                assert(self.atoms()[0] == *a);
                f(a)
            },
            FormulaKind::Not(p) => {
                proof {
                    self.lemma_accepted_part(*f, *p, 0);
                }
                Formula::with(FormulaKind::Not(p.on_atoms(f)))
            },
            FormulaKind::Or(p, q) => {
                proof {
                    self.lemma_accepted_part(*f, *p, 0);
                    self.lemma_accepted_part(*f, *q, p.atoms().len() as int);
                }
                Formula::with(FormulaKind::Or(p.on_atoms(f), q.on_atoms(f)))
            },
            FormulaKind::And(p, q) => {
                proof {
                    self.lemma_accepted_part(*f, *p, 0);
                    self.lemma_accepted_part(*f, *q, p.atoms().len() as int);
                }
                Formula::with(FormulaKind::And(p.on_atoms(f), q.on_atoms(f)))
            },
            FormulaKind::Implies(p, q) => {
                proof {
                    self.lemma_accepted_part(*f, *p, 0);
                    self.lemma_accepted_part(*f, *q, p.atoms().len() as int);
                }
                Formula::with(FormulaKind::Implies(p.on_atoms(f), q.on_atoms(f)))
            },
            FormulaKind::Iff(p, q) => {
                proof {
                    self.lemma_accepted_part(*f, *p, 0);
                    self.lemma_accepted_part(*f, *q, p.atoms().len() as int);
                }
                Formula::with(FormulaKind::Iff(p.on_atoms(f), q.on_atoms(f)))
            },
            FormulaKind::ForAll(v, p) => {
                proof {
                    self.lemma_accepted_part(*f, *p, 0);
                }
                Formula::with(FormulaKind::ForAll(*v, p.on_atoms(f)))
            },
            FormulaKind::Exists(v, p) => {
                proof {
                    self.lemma_accepted_part(*f, *p, 0);
                }
                Formula::with(FormulaKind::Exists(*v, p.on_atoms(f)))
            },
        }
    }

    /// Folds the state `u` through the atoms with `f`, the right operand of a connective
    /// before the left one.
    pub fn over_atoms<U, F: Fn(&T, U) -> U>(&self, u: U, f: &F) -> (folded: U)
        requires
            self.folded_by(*f),
        ensures
            self.is_fold(*f, u, folded),
        decreases self,
    {
        match &*self.kind {
            FormulaKind::False => {
                assert(is_fold_trace(self.atoms(), *f, u, u, seq![u]));
                u
            },
            FormulaKind::True => {
                assert(is_fold_trace(self.atoms(), *f, u, u, seq![u]));
                u
            },
            FormulaKind::Atom(a) => {
                assert(self.atoms()[0] == *a);
                let folded = f(a, u);
                assert(is_fold_trace(self.atoms(), *f, u, folded, seq![folded, u]));
                folded
            },
            FormulaKind::ForAll(_, p) => {
                proof {
                    self.lemma_folded_part(*f, *p, 0);
                }
                assert(self.atoms() == p.atoms());
                p.over_atoms(u, f)
            },
            FormulaKind::Exists(_, p) => {
                proof {
                    self.lemma_folded_part(*f, *p, 0);
                }
                assert(self.atoms() == p.atoms());
                p.over_atoms(u, f)
            },
            FormulaKind::Not(p) => {
                proof {
                    self.lemma_folded_part(*f, *p, 0);
                }
                assert(self.atoms() == p.atoms());
                p.over_atoms(u, f)
            },
            FormulaKind::Or(p, q) => {
                proof {
                    self.lemma_folded_part(*f, *p, 0);
                    self.lemma_folded_part(*f, *q, p.atoms().len() as int);
                }
                let between = q.over_atoms(u, f);
                let folded = p.over_atoms(between, f);
                proof {
                    lemma_fold_in_two(p.atoms(), q.atoms(), *f, u, between, folded);
                    assert(self.atoms() == p.atoms() + q.atoms());
                }
                folded
            },
            FormulaKind::And(p, q) => {
                proof {
                    self.lemma_folded_part(*f, *p, 0);
                    self.lemma_folded_part(*f, *q, p.atoms().len() as int);
                }
                let between = q.over_atoms(u, f);
                let folded = p.over_atoms(between, f);
                proof {
                    lemma_fold_in_two(p.atoms(), q.atoms(), *f, u, between, folded);
                    assert(self.atoms() == p.atoms() + q.atoms());
                }
                folded
            },
            FormulaKind::Implies(p, q) => {
                proof {
                    self.lemma_folded_part(*f, *p, 0);
                    self.lemma_folded_part(*f, *q, p.atoms().len() as int);
                }
                let between = q.over_atoms(u, f);
                let folded = p.over_atoms(between, f);
                proof {
                    lemma_fold_in_two(p.atoms(), q.atoms(), *f, u, between, folded);
                    assert(self.atoms() == p.atoms() + q.atoms());
                }
                folded
            },
            FormulaKind::Iff(p, q) => {
                proof {
                    self.lemma_folded_part(*f, *p, 0);
                    self.lemma_folded_part(*f, *q, p.atoms().len() as int);
                }
                let between = q.over_atoms(u, f);
                let folded = p.over_atoms(between, f);
                proof {
                    lemma_fold_in_two(p.atoms(), q.atoms(), *f, u, between, folded);
                    assert(self.atoms() == p.atoms() + q.atoms());
                }
                folded
            },
        }
    }

    /// Applies `f` to each atom and gathers the values in a set.
    pub fn atom_union<U: Ord, F: Fn(&T) -> U>(&self, f: &F) -> (set: BTreeSet<U>)
        requires
            self.accepted_by(*f),
        ensures
            obeys_cmp::<U>() ==> self.is_union(*f, set@),
    {
        let insert = |atom: &T, set: BTreeSet<U>| -> (grown: BTreeSet<U>)
            requires
                call_requires(f, (atom,)),
            ensures
                exists|value: U|
                    #![trigger call_ensures(f, (atom,), value)]
                    call_ensures(f, (atom,), value) && (obeys_cmp::<U>() ==> grown@
                        == set@.insert(value)),
            {
                let mut set = set;
                set.insert(f(atom));
                set
            };
        let empty: BTreeSet<U> = BTreeSet::new();
        let set = self.over_atoms(empty, &insert);
        proof {
            if obeys_cmp::<U>() {
                let states = choose|states: Seq<BTreeSet<U>>|
                    is_fold_trace(self.atoms(), insert, empty, set, states);
                lemma_fold_of_inserts(self.atoms(), *f, insert, states);
            }
        }
        set
    }

    /// The conjuncts of the formula: see [`Formula::conjunct_list`].
    pub fn conjuncts(&self) -> (conjuncts: Vec<&Formula<T>>)
        ensures
            conjuncts@.len() == self.conjunct_list().len(),
            forall|i: int| 0 <= i < conjuncts@.len() ==> *conjuncts@[i] == self.conjunct_list()[i],
    {
        let mut v: Vec<&Formula<T>> = Vec::new();
        let mut p = self;
        loop
            invariant_except_break
                v@.len() + p.conjunct_list().len() == self.conjunct_list().len(),
                forall|i: int| 0 <= i < v@.len() ==> *v@[i] == self.conjunct_list()[i],
                forall|i: int|
                    0 <= i < p.conjunct_list().len() ==> p.conjunct_list()[i]
                        == self.conjunct_list()[v@.len() + i],
            ensures
                v@.len() == self.conjunct_list().len(),
                forall|i: int| 0 <= i < v@.len() ==> *v@[i] == self.conjunct_list()[i],
            decreases p.height(),
        {
            if let FormulaKind::And(a, b) = &*p.kind {
                assert(p.conjunct_list()[0] == *a);
                assert forall|i: int| 0 <= i < b.conjunct_list().len() implies b.conjunct_list()[i]
                    == self.conjunct_list()[v@.len() + 1 + i] by {
                    assert(b.conjunct_list()[i] == p.conjunct_list()[i + 1]);
                }
                v.push(a);
                p = b;
            } else {
                assert(p.conjunct_list()[0] == *p);
                v.push(p);
                break ;
            }
        }
        v
    }

    /// What accepts every atom of a formula accepts every atom of each of its parts.
    pub proof fn lemma_accepted_part<U, F: Fn(&T) -> U>(self, f: F, p: Formula<T>, offset: int)
        requires
            self.accepted_by(f),
            self.part_at(p, offset),
        ensures
            p.accepted_by(f),
    {
        assert forall|i: int| 0 <= i < p.atoms().len() implies call_requires(
            f,
            (&#[trigger] p.atoms()[i],),
        ) by {
            assert(self.atoms()[offset + i] == p.atoms()[i]);
        }
    }
}

impl<T> Formula<T> {
    /// What accepts every atom of a formula, with any state, accepts every atom of each of
    /// its parts so.
    pub proof fn lemma_folded_part<U, F: Fn(&T, U) -> U>(self, f: F, p: Formula<T>, offset: int)
        requires
            self.folded_by(f),
            self.part_at(p, offset),
        ensures
            p.folded_by(f),
    {
        assert forall|i: int, u: U| 0 <= i < p.atoms().len() implies call_requires(
            f,
            (&#[trigger] p.atoms()[i], u),
        ) by {
            assert(self.atoms()[offset + i] == p.atoms()[i]);
        }
    }
}

/// A fold through `right` and then through `left` is a fold through `left + right`.
pub proof fn lemma_fold_in_two<T, U, F: Fn(&T, U) -> U>(
    left: Seq<T>,
    right: Seq<T>,
    f: F,
    u: U,
    between: U,
    folded: U,
)
    requires
        exists|states: Seq<U>| is_fold_trace(right, f, u, between, states),
        exists|states: Seq<U>| is_fold_trace(left, f, between, folded, states),
    ensures
        exists|states: Seq<U>| is_fold_trace(left + right, f, u, folded, states),
{
    let low = choose|states: Seq<U>| is_fold_trace(right, f, u, between, states);
    let high = choose|states: Seq<U>| is_fold_trace(left, f, between, folded, states);
    let states = high.drop_last() + low;
    let atoms = left + right;
    assert forall|i: int| 0 <= i < atoms.len() implies call_ensures(
        f,
        (&atoms[i], states[i + 1]),
        #[trigger] states[i],
    ) by {
        if i < left.len() {
            assert(states[i] == high[i]);
            assert(states[i + 1] == high[i + 1]);
        } else {
            assert(states[i] == low[i - left.len()]);
            assert(states[i + 1] == low[i + 1 - left.len()]);
        }
    }
    assert(is_fold_trace(atoms, f, u, folded, states));
}

/// A fold that inserts into an empty set a value of `f` for each atom ends with the set of
/// those values.
pub proof fn lemma_fold_of_inserts<T, U, F: Fn(&T) -> U, G: Fn(&T, BTreeSet<U>) -> BTreeSet<U>>(
    atoms: Seq<T>,
    f: F,
    insert: G,
    states: Seq<BTreeSet<U>>,
)
    requires
        is_fold_trace(atoms, insert, states.last(), states[0], states),
        states.last()@ == Set::<U>::empty(),
        forall|atom: &T, set: BTreeSet<U>, grown: BTreeSet<U>| #[trigger]
            call_ensures(insert, (atom, set), grown) ==> exists|value: U|
                #![trigger call_ensures(f, (atom,), value)]
                call_ensures(f, (atom,), value) && grown@ == set@.insert(value),
    ensures
        exists|values: Seq<U>| is_value_list(atoms, f, values) && states[0]@ == values.to_set(),
{
    let values = Seq::new(
        atoms.len(),
        |i: int|
            choose|value: U|
                #![trigger call_ensures(f, (&atoms[i],), value)]
                call_ensures(f, (&atoms[i],), value) && states[i]@ == states[i + 1]@.insert(value),
    );
    assert forall|i: int| 0 <= i < atoms.len() implies call_ensures(f, (&atoms[i],), #[trigger] values[i])
        && states[i]@ == states[i + 1]@.insert(values[i]) by {
        assert(call_ensures(insert, (&atoms[i], states[i + 1]), states[i]));
    }
    lemma_inserted_from(states, values, 0);
    assert(values.skip(0) =~= values);
    assert(is_value_list(atoms, f, values));
}

/// Where each state is the next one with a value inserted, and the last state is empty,
/// the state at `k` holds the values from `k` on.
proof fn lemma_inserted_from<U>(states: Seq<BTreeSet<U>>, values: Seq<U>, k: int)
    requires
        states.len() == values.len() + 1,
        0 <= k <= values.len(),
        states.last()@ == Set::<U>::empty(),
        forall|i: int| 0 <= i < values.len() ==> #[trigger] states[i]@ == states[i + 1]@.insert(values[i]),
    ensures
        states[k]@ == values.skip(k).to_set(),
    decreases values.len() - k,
{
    if k == values.len() {
        assert(values.skip(k).to_set() =~= Set::<U>::empty());
    } else {
        lemma_inserted_from(states, values, k + 1);
        let rest = values.skip(k + 1);
        let all = values.skip(k);
        assert forall|x: U| all.to_set().contains(x) <==> rest.to_set().insert(values[k]).contains(x) by {
            if all.contains(x) {
                let j = choose|j: int| 0 <= j < all.len() && all[j] == x;
                if j > 0 {
                    assert(rest[j - 1] == x);
                }
            }
            if rest.contains(x) {
                let j = choose|j: int| 0 <= j < rest.len() && rest[j] == x;
                assert(all[j + 1] == x);
            }
            assert(all[0] == values[k]);
        }
        assert(all.to_set() =~= rest.to_set().insert(values[k]));
    }
}

impl<T> FormulaKind<T> {
    /// The two sides of an `Iff` node.
    pub fn iff(&self) -> (sides: Option<(&Formula<T>, &Formula<T>)>)
        ensures
            match sides {
                Some((left, right)) => *self == FormulaKind::Iff(*left, *right),
                None => !(self is Iff),
            },
    {
        match self {
            FormulaKind::Iff(a, b) => Some((a, b)),
            _ => None,
        }
    }

    /// The two sides of an `And` node.
    pub fn and(&self) -> (sides: Option<(&Formula<T>, &Formula<T>)>)
        ensures
            match sides {
                Some((left, right)) => *self == FormulaKind::And(*left, *right),
                None => !(self is And),
            },
    {
        match self {
            FormulaKind::And(a, b) => Some((a, b)),
            _ => None,
        }
    }
}

} // verus!
