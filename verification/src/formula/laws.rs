//! What holds of the operations on formulas.

use crate::formula::{is_fold_trace, is_value_list, Formula, FormulaKind};
use vstd::prelude::*;

verus! {

/// Negating a literal twice gives the literal back.
pub proof fn lemma_negate_twice<T>(p: Formula<T>)
    requires
        p.is_literal(),
    ensures
        p.negated().negated() == p,
{
}

/// Adding two negations never gives the formula back: it gives `(not (not p))`, which is
/// another formula than `p`.
pub proof fn lemma_not_twice<T>(p: Formula<T>)
    ensures
        p.negation().negation() == Formula::of(FormulaKind::Not(Formula::of(FormulaKind::Not(p)))),
        p.negation().negation() != p,
{
    assert(p.negation().height() == 1 + p.height());
    assert(p.negation().negation().height() == 2 + p.height());
}

/// A chain of two `And` nodes that ends in a formula that is no `And` has three
/// conjuncts, in the order in which they are written.
pub proof fn lemma_conjuncts_of_chain<T>(a: Formula<T>, b: Formula<T>, c: Formula<T>)
    requires
        !(*c.kind is And),
    ensures
        Formula::of(FormulaKind::And(a, Formula::of(FormulaKind::And(b, c)))).conjunct_list()
            == seq![a, b, c],
{
    let inner = Formula::of(FormulaKind::And(b, c));
    let outer = Formula::of(FormulaKind::And(a, inner));
    assert(c.conjunct_list() == seq![c]);
    assert(inner.conjunct_list() == seq![b] + c.conjunct_list());
    assert(outer.conjunct_list() == seq![a] + inner.conjunct_list());
    assert(outer.conjunct_list() =~= seq![a, b, c]);
}

/// A formula that is no `And` is its only conjunct.
pub proof fn lemma_conjuncts_of_other<T>(x: Formula<T>)
    requires
        !(*x.kind is And),
    ensures
        x.conjunct_list() == seq![x],
{
}

/// The formula under a negation or a quantifier.
spec fn only_part<T>(p: Formula<T>) -> Formula<T> {
    match *p.kind {
        FormulaKind::Not(q) => q,
        FormulaKind::ForAll(_, q) => q,
        FormulaKind::Exists(_, q) => q,
        _ => p,
    }
}

/// The left operand of a connective.
spec fn left_part<T>(p: Formula<T>) -> Formula<T> {
    match *p.kind {
        FormulaKind::And(q, _) => q,
        FormulaKind::Or(q, _) => q,
        FormulaKind::Implies(q, _) => q,
        FormulaKind::Iff(q, _) => q,
        _ => p,
    }
}

/// The right operand of a connective.
spec fn right_part<T>(p: Formula<T>) -> Formula<T> {
    match *p.kind {
        FormulaKind::And(_, q) => q,
        FormulaKind::Or(_, q) => q,
        FormulaKind::Implies(_, q) => q,
        FormulaKind::Iff(_, q) => q,
        _ => p,
    }
}

/// Where `f` returns `g` of its argument, the image under `f` is the formula with `g` of
/// each atom in the atom's place.
pub proof fn lemma_image_of_function<T, U, F: Fn(&T) -> Formula<U>>(
    p: Formula<T>,
    f: F,
    g: spec_fn(T) -> Formula<U>,
    image: Formula<U>,
)
    requires
        forall|a: T, r: Formula<U>| #[trigger] call_ensures(f, (&a,), r) ==> r == g(a),
        p.is_image(f, image),
    ensures
        image == p.map_atoms(g),
    decreases p,
{
    match *p.kind {
        FormulaKind::False | FormulaKind::True | FormulaKind::Atom(_) => {},
        FormulaKind::Not(q) => {
            lemma_image_of_function(q, f, g, only_part(image));
        },
        FormulaKind::And(q, r) => {
            lemma_image_of_function(q, f, g, left_part(image));
            lemma_image_of_function(r, f, g, right_part(image));
        },
        FormulaKind::Or(q, r) => {
            lemma_image_of_function(q, f, g, left_part(image));
            lemma_image_of_function(r, f, g, right_part(image));
        },
        FormulaKind::Implies(q, r) => {
            lemma_image_of_function(q, f, g, left_part(image));
            lemma_image_of_function(r, f, g, right_part(image));
        },
        FormulaKind::Iff(q, r) => {
            lemma_image_of_function(q, f, g, left_part(image));
            lemma_image_of_function(r, f, g, right_part(image));
        },
        FormulaKind::ForAll(_, q) => {
            lemma_image_of_function(q, f, g, only_part(image));
        },
        FormulaKind::Exists(_, q) => {
            lemma_image_of_function(q, f, g, only_part(image));
        },
    }
}

/// Where `f` returns `g` of its arguments, a fold with `f` gives `g` of the first atom and
/// of what the fold gives for the atoms after it: the atoms are taken from the last to the
/// first.
pub proof fn lemma_fold_of_function<T, U, F: Fn(&T, U) -> U>(
    p: Formula<T>,
    f: F,
    g: spec_fn(T, U) -> U,
    u: U,
    folded: U,
)
    requires
        forall|a: T, v: U, r: U| #[trigger] call_ensures(f, (&a, v), r) ==> r == g(a, v),
        p.is_fold(f, u, folded),
    ensures
        folded == p.atoms().fold_right(g, u),
{
    let states = choose|states: Seq<U>| is_fold_trace(p.atoms(), f, u, folded, states);
    lemma_trace_of_function(p.atoms(), f, g, states, 0);
    assert(p.atoms().take(0).fold_right(g, states[0]) == states[0]);
}

/// In a fold with a function, folding the first `k` atoms from the state before the atom at
/// `k` gives what folding all atoms gives.
proof fn lemma_trace_of_function<T, U, F: Fn(&T, U) -> U>(
    atoms: Seq<T>,
    f: F,
    g: spec_fn(T, U) -> U,
    states: Seq<U>,
    k: int,
)
    requires
        forall|a: T, v: U, r: U| #[trigger] call_ensures(f, (&a, v), r) ==> r == g(a, v),
        is_fold_trace(atoms, f, states.last(), states[0], states),
        0 <= k <= atoms.len(),
    ensures
        atoms.take(k).fold_right(g, states[k]) == atoms.fold_right(g, states.last()),
    decreases atoms.len() - k,
{
    if k == atoms.len() {
        assert(atoms.take(k) =~= atoms);
    } else {
        lemma_trace_of_function(atoms, f, g, states, k + 1);
        let longer = atoms.take(k + 1);
        assert(longer.drop_last() =~= atoms.take(k));
        assert(longer.last() == atoms[k]);
        assert(call_ensures(f, (&atoms[k], states[k + 1]), states[k]));
    }
}

/// Where `f` returns `h` of its argument, the union under `f` is the set of `h` of the
/// atoms.
pub proof fn lemma_union_of_function<T, U, F: Fn(&T) -> U>(
    p: Formula<T>,
    f: F,
    h: spec_fn(T) -> U,
    set: Set<U>,
)
    requires
        forall|a: T, r: U| #[trigger] call_ensures(f, (&a,), r) ==> r == h(a),
        p.is_union(f, set),
    ensures
        set == p.atoms().map_values(h).to_set(),
{
    let values = choose|values: Seq<U>| is_value_list(p.atoms(), f, values) && set == values.to_set();
    assert(values =~= p.atoms().map_values(h));
}

/// Where `f` returns `h` of its argument, the union of a conjunction of an atom with
/// itself holds one value.
pub proof fn lemma_union_of_repeated_atom<T, U, F: Fn(&T) -> U>(
    a: T,
    f: F,
    h: spec_fn(T) -> U,
    set: Set<U>,
)
    requires
        forall|a: T, r: U| #[trigger] call_ensures(f, (&a,), r) ==> r == h(a),
        Formula::of(
            FormulaKind::And(Formula::of(FormulaKind::Atom(a)), Formula::of(FormulaKind::Atom(a))),
        ).is_union(f, set),
    ensures
        set == Set::<U>::empty().insert(h(a)),
        set.len() == 1,
{
    let atom = Formula::of(FormulaKind::Atom(a));
    let both = Formula::of(FormulaKind::And(atom, atom));
    lemma_union_of_function(both, f, h, set);
    assert(atom.atoms() == seq![a]);
    assert(both.atoms() =~= seq![a, a]);
    let values = both.atoms().map_values(h);
    assert(values =~= seq![h(a), h(a)]);
    assert(values[0] == h(a));
    assert(values.to_set() =~= Set::<U>::empty().insert(h(a)));
}

} // verus!
