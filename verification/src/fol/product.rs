//! Pairing every head term with every tail tuple, through `itertools`' cartesian product.

use crate::fol::term::{terms_view, tuples_view, Term, TermView};
use itertools::{Itertools, Product};
use std::slice::Iter;
use vstd::prelude::*;

verus! {

/// `itertools::Product`: the iterator that `Itertools::cartesian_product` returns.
#[verifier::external_type_specification]
#[verifier::external_body]
#[verifier::reject_recursive_types(I)]
#[verifier::reject_recursive_types(J)]
pub struct ExProduct<I: Iterator, J>(Product<I, J>);

/// The pairs that a product has yet to yield, in the order in which it yields them, each
/// term and tuple by its value.
pub uninterp spec fn pending(pairs: Product<Iter<Term>, Iter<Vec<Term>>>) -> Seq<
    (TermView, Seq<TermView>),
>;

/// Every pair of one of `heads` and one of `tails`: all pairs of the first head in the
/// order of `tails`, then all pairs of the second head, and so on.
pub open spec fn all_pairs(heads: Seq<TermView>, tails: Seq<Seq<TermView>>) -> Seq<
    (TermView, Seq<TermView>),
> {
    Seq::new(
        heads.len() * tails.len(),
        |i: int| (heads[i / tails.len() as int], tails[i % tails.len() as int]),
    )
}

/// `Itertools::cartesian_product` of the two slices' iterators. Nothing is yielded yet;
/// what is pending is every pair of a head and a tail, the heads in the outer position.
#[verifier::external_body]
pub(crate) fn pairs_of<'a>(heads: &'a Vec<Term>, tails: &'a Vec<Vec<Term>>) -> (pairs: Product<
    Iter<'a, Term>,
    Iter<'a, Vec<Term>>,
>)
    ensures
        pending(pairs) == all_pairs(terms_view(heads@), tuples_view(tails@)),
{
    heads.iter().cartesian_product(tails.iter())
}

/// `Iterator::next` of `itertools::Product`: hands out the first pending pair and leaves
/// the rest pending, or returns `None` when nothing is pending.
#[verifier::external_body]
pub(crate) fn next_pair<'a>(pairs: &mut Product<Iter<'a, Term>, Iter<'a, Vec<Term>>>) -> (pair:
    Option<(&'a Term, &'a Vec<Term>)>)
    ensures
        match pair {
            Some((head, tail)) => {
                &&& pending(*old(pairs)).len() > 0
                &&& pending(*old(pairs))[0] == (head@, terms_view(tail@))
                &&& pending(*final(pairs)) == pending(*old(pairs)).drop_first()
            },
            None => pending(*old(pairs)).len() == 0 && pending(*final(pairs)).len() == 0,
        },
{
    pairs.next()
}

} // verus!
