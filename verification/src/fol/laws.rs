//! What holds of the enumeration of a Herbrand domain: which terms and tuples are listed,
//! at which size, and how often.

use crate::fol::domain::{apply_to_all, extend, Signature};
use crate::fol::term::{ApplyView, TermView};
use vstd::arithmetic::div_mod::{lemma_fundamental_div_mod, lemma_fundamental_div_mod_converse};
use vstd::prelude::*;

verus! {

/// The place `row * columns + column` of a grid lies within the grid, in that row and in
/// that column.
pub proof fn lemma_grid_place(rows: int, columns: int, row: int, column: int)
    requires
        0 <= row < rows,
        0 <= column < columns,
    ensures
        0 <= row * columns + column < rows * columns,
        (row * columns + column) / columns == row,
        (row * columns + column) % columns == column,
{
    assert(0 <= row * columns && (row + 1) * columns <= rows * columns) by (nonlinear_arith)
        requires
            0 <= row < rows,
            0 < columns,
    ;
    assert((row + 1) * columns == row * columns + columns) by (nonlinear_arith);
    lemma_fundamental_div_mod_converse(row * columns + column, columns, row, column);
}

/// A place within a grid lies in one of its rows and in one of its columns.
pub proof fn lemma_grid_row_and_column(rows: int, columns: int, place: int)
    requires
        0 <= place < rows * columns,
        0 <= rows,
        0 <= columns,
    ensures
        0 < columns,
        0 <= place / columns < rows,
        0 <= place % columns < columns,
        place == (place / columns) * columns + place % columns,
{
    assert(0 < columns) by (nonlinear_arith)
        requires
            0 <= place < rows * columns,
            0 <= columns,
    ;
    lemma_fundamental_div_mod(place, columns);
    let row = place / columns;
    let column = place % columns;
    assert(columns * row == row * columns) by (nonlinear_arith);
    assert(0 <= row < rows) by (nonlinear_arith)
        requires
            place == row * columns + column,
            0 <= column < columns,
            0 <= place < rows * columns,
    ;
}

/// The tail at `column`, extended by the head at `row`, is listed among the extensions.
pub proof fn lemma_extend_lists(
    heads: Seq<TermView>,
    tails: Seq<Seq<TermView>>,
    row: int,
    column: int,
)
    requires
        0 <= row < heads.len(),
        0 <= column < tails.len(),
    ensures
        extend(heads, tails).contains(tails[column].push(heads[row])),
{
    lemma_grid_place(heads.len() as int, tails.len() as int, row, column);
    let place = row * tails.len() + column;
    assert(extend(heads, tails)[place] == tails[column].push(heads[row]));
}

/// Each extension is one of the tails followed by one of the heads.
pub proof fn lemma_extend_parts(heads: Seq<TermView>, tails: Seq<Seq<TermView>>, place: int)
    requires
        0 <= place < extend(heads, tails).len(),
    ensures
        0 < tails.len(),
        0 <= place / (tails.len() as int) < heads.len(),
        0 <= place % (tails.len() as int) < tails.len(),
        extend(heads, tails)[place].len() > 0,
        extend(heads, tails)[place].last() == heads[place / (tails.len() as int)],
        extend(heads, tails)[place].drop_last() == tails[place % (tails.len() as int)],
{
    lemma_grid_row_and_column(heads.len() as int, tails.len() as int, place);
    let tail = tails[place % (tails.len() as int)];
    let head = heads[place / (tails.len() as int)];
    assert(tail.push(head).drop_last() =~= tail);
}

/// There is exactly one tuple of no terms, and its size is `0`.
pub proof fn lemma_tuples_of_no_terms(sig: Signature, n: nat)
    ensures
        n == 0 ==> sig.ground_tuples(n, 0) == seq![Seq::<TermView>::empty()],
        n > 0 ==> sig.ground_tuples(n, 0) == Seq::<Seq<TermView>>::empty(),
{
}

/// A signature without function symbols has no term of a size above `0`, and no tuple
/// of a size above `0` either.
pub proof fn lemma_constants_only(sig: Signature, n: nat, arity: nat)
    requires
        sig.functions.len() == 0,
        n > 0,
    ensures
        sig.ground_terms(n).len() == 0,
        sig.ground_tuples(n, arity).len() == 0,
    decreases arity,
{
    if arity > 0 {
        lemma_constants_only_up_to(sig, n, arity, n);
    }
}

/// Of a signature without function symbols: no tuple of a size above `0` is among those
/// whose last term has a size of at most `k`.
proof fn lemma_constants_only_up_to(sig: Signature, n: nat, arity: nat, k: nat)
    requires
        sig.functions.len() == 0,
        n > 0,
        arity > 0,
        k <= n,
    ensures
        sig.splits(n, arity, k).len() == 0,
    decreases arity, k,
{
    let heads = sig.ground_terms(k);
    let tails = sig.ground_tuples((n - k) as nat, (arity - 1) as nat);
    if k == 0 {
        lemma_constants_only(sig, n, (arity - 1) as nat);
    } else {
        lemma_constants_only_up_to(sig, n, arity, (k - 1) as nat);
    }
    assert(heads.len() * tails.len() == 0) by (nonlinear_arith)
        requires
            heads.len() == 0 || tails.len() == 0,
    ;
}

/// What is listed at a size has that size, and is built from the signature.
pub open spec fn terms_sound(sig: Signature, terms: Seq<TermView>, n: nat) -> bool {
    forall|i: int|
        0 <= i < terms.len() ==> sig.is_ground(#[trigger] terms[i]) && sig.size(terms[i]) == n
}

/// Each of `tuples` has `arity` terms, which are built from the signature and whose sizes
/// add up to `n`.
pub open spec fn tuples_sound(sig: Signature, tuples: Seq<Seq<TermView>>, n: nat, arity: nat) -> bool {
    forall|i: int|
        0 <= i < tuples.len() ==> {
            &&& (#[trigger] tuples[i]).len() == arity
            &&& sig.all_ground(tuples[i])
            &&& sig.total_size(tuples[i]) == n
        }
}

/// Each of `terms` is an application of one of the first `count` function symbols.
pub open spec fn headed_by_first(sig: Signature, terms: Seq<TermView>, count: nat) -> bool {
    forall|i: int|
        0 <= i < terms.len() ==> match #[trigger] terms[i] {
            TermView::Fn(a) => exists|j: int| 0 <= j < count && #[trigger] sig.functions[j].0 == a.name,
            TermView::Var(_) => false,
        }
}

/// The last term of each of `tuples` has a size of at most `k`.
pub open spec fn last_of_size_up_to(sig: Signature, tuples: Seq<Seq<TermView>>, k: nat) -> bool {
    forall|i: int|
        0 <= i < tuples.len() ==> (#[trigger] tuples[i]).len() > 0 && sig.size(tuples[i].last()) <= k
}

/// The terms listed at size `n` are built from the signature and have the size `n`.
pub proof fn lemma_listed_terms_have_the_size(sig: Signature, n: nat)
    requires
        sig.constants_apart(),
    ensures
        terms_sound(sig, sig.ground_terms(n), n),
    decreases 3 * n, 0nat, 0nat,
{
    if n > 0 {
        lemma_applications_sound(sig, (n - 1) as nat, sig.functions.len());
    }
}

/// The applications of the first `count` function symbols to tuples of size `m` are built
/// from the signature and have the size `m + 1`.
pub proof fn lemma_applications_sound(sig: Signature, m: nat, count: nat)
    requires
        sig.constants_apart(),
        count <= sig.functions.len(),
    ensures
        terms_sound(sig, sig.applications(m, count), m + 1),
        headed_by_first(sig, sig.applications(m, count), count),
    decreases 3 * m + 2, count, 0nat,
{
    if count > 0 {
        let (name, arity) = sig.functions[count - 1];
        let earlier = sig.applications(m, (count - 1) as nat);
        let tuples = sig.ground_tuples(m, arity);
        let added = apply_to_all(name, tuples);
        lemma_applications_sound(sig, m, (count - 1) as nat);
        lemma_listed_tuples_have_the_size(sig, m, arity);
        assert(sig.functions[count - 1].0 == name);
        assert(sig.functions[count - 1] == (name, arity));
        assert forall|i: int| 0 <= i < added.len() implies sig.is_ground(#[trigger] added[i])
            && sig.size(added[i]) == m + 1 by {
            let term = added[i];
            assert(term == TermView::Fn(ApplyView { name, terms: tuples[i] }));
            assert(sig.lists(name, tuples[i].len()));
            if sig.constants.contains(term) {
                let c = choose|c: int| 0 <= c < sig.constants.len() && sig.constants[c] == term;
                assert(sig.has_function(name));
                assert(false);
            }
        }
        let all = sig.applications(m, count);
        assert forall|i: int| 0 <= i < all.len() implies sig.is_ground(#[trigger] all[i]) && sig.size(
            all[i],
        ) == m + 1 by {
            if i >= earlier.len() {
                assert(all[i] == added[i - earlier.len()]);
            }
        }
        assert forall|i: int| 0 <= i < all.len() implies match #[trigger] all[i] {
            TermView::Fn(a) => exists|j: int|
                0 <= j < count && #[trigger] sig.functions[j].0 == a.name,
            TermView::Var(_) => false,
        } by {
            if i >= earlier.len() {
                assert(all[i] == added[i - earlier.len()]);
            } else {
                assert(all[i] == earlier[i]);
            }
        }
    }
}

/// The tuples listed for the size `n` and the length `arity` have `arity` terms, which are
/// built from the signature and whose sizes add up to `n`.
pub proof fn lemma_listed_tuples_have_the_size(sig: Signature, n: nat, arity: nat)
    requires
        sig.constants_apart(),
    ensures
        tuples_sound(sig, sig.ground_tuples(n, arity), n, arity),
    decreases 3 * n + 1, arity, n + 2,
{
    if arity > 0 {
        lemma_splits_sound(sig, n, arity, n);
    } else if n == 0 {
        let only = sig.ground_tuples(n, arity)[0];
        assert(only.len() == 0);
    }
}

/// The tuples of size `n` and length `arity` whose last term is listed at a size of at most
/// `k` have `arity` terms, which are built from the signature and whose sizes add up to
/// `n`, the last one's being at most `k`.
pub proof fn lemma_splits_sound(sig: Signature, n: nat, arity: nat, k: nat)
    requires
        sig.constants_apart(),
        arity > 0,
        k <= n,
    ensures
        tuples_sound(sig, sig.splits(n, arity, k), n, arity),
        last_of_size_up_to(sig, sig.splits(n, arity, k), k),
    decreases 3 * n + 1, arity, k + 1,
{
    let heads = sig.ground_terms(k);
    let tails = sig.ground_tuples((n - k) as nat, (arity - 1) as nat);
    let added = extend(heads, tails);
    let earlier = if k == 0 {
        Seq::empty()
    } else {
        sig.splits(n, arity, (k - 1) as nat)
    };
    if k > 0 {
        lemma_splits_sound(sig, n, arity, (k - 1) as nat);
    }
    lemma_listed_terms_have_the_size(sig, k);
    lemma_listed_tuples_have_the_size(sig, (n - k) as nat, (arity - 1) as nat);
    let all = sig.splits(n, arity, k);
    assert(all == earlier + added);
    assert forall|i: int| 0 <= i < all.len() implies {
        &&& (#[trigger] all[i]).len() == arity
        &&& sig.all_ground(all[i])
        &&& sig.total_size(all[i]) == n
        &&& sig.size(all[i].last()) <= k
    } by {
        if i >= earlier.len() {
            let place = i - earlier.len();
            assert(all[i] == added[place]);
            lemma_extend_parts(heads, tails, place);
            let tail = tails[place % (tails.len() as int)];
            let head = heads[place / (tails.len() as int)];
            assert(sig.is_ground(head) && sig.size(head) == k);
            assert(tail.len() == arity - 1 && sig.all_ground(tail) && sig.total_size(tail) == n - k);
        } else {
            assert(all[i] == earlier[i]);
        }
    }
}

/// What is applied by the function symbol at `j` is listed among the applications of the
/// first `count` function symbols, for any `count` above `j`.
pub proof fn lemma_applications_list(sig: Signature, m: nat, count: nat, j: int, term: TermView)
    requires
        0 <= j < count <= sig.functions.len(),
        apply_to_all(sig.functions[j].0, sig.ground_tuples(m, sig.functions[j].1)).contains(term),
    ensures
        sig.applications(m, count).contains(term),
    decreases count,
{
    let (name, arity) = sig.functions[count - 1];
    let earlier = sig.applications(m, (count - 1) as nat);
    let added = apply_to_all(name, sig.ground_tuples(m, arity));
    if j == count - 1 {
        let i = choose|i: int| 0 <= i < added.len() && added[i] == term;
        assert((earlier + added)[earlier.len() + i] == term);
    } else {
        lemma_applications_list(sig, m, (count - 1) as nat, j, term);
        let i = choose|i: int| 0 <= i < earlier.len() && earlier[i] == term;
        assert((earlier + added)[i] == term);
    }
}

/// A tuple whose last term is listed at the size `last` is listed among the tuples whose
/// last term has a size of at most `k`, for any `k` from `last` on.
pub proof fn lemma_splits_list(
    sig: Signature,
    n: nat,
    arity: nat,
    k: nat,
    last: nat,
    tuple: Seq<TermView>,
)
    requires
        arity > 0,
        last <= k <= n,
        extend(
            sig.ground_terms(last),
            sig.ground_tuples((n - last) as nat, (arity - 1) as nat),
        ).contains(tuple),
    ensures
        sig.splits(n, arity, k).contains(tuple),
    decreases k,
{
    let earlier = if k == 0 {
        Seq::empty()
    } else {
        sig.splits(n, arity, (k - 1) as nat)
    };
    let added = extend(sig.ground_terms(k), sig.ground_tuples((n - k) as nat, (arity - 1) as nat));
    if last == k {
        let i = choose|i: int| 0 <= i < added.len() && added[i] == tuple;
        assert((earlier + added)[earlier.len() + i] == tuple);
    } else {
        lemma_splits_list(sig, n, arity, (k - 1) as nat, last, tuple);
        let i = choose|i: int| 0 <= i < earlier.len() && earlier[i] == tuple;
        assert((earlier + added)[i] == tuple);
    }
}

/// Every term built from the signature is listed at its size.
pub proof fn lemma_every_term_is_listed(sig: Signature, term: TermView)
    requires
        sig.is_ground(term),
    ensures
        sig.ground_terms(sig.size(term)).contains(term),
    decreases term,
{
    if !sig.constants.contains(term) {
        let a = term->Fn_0;
        let m = sig.total_size(a.terms);
        let j = choose|j: int|
            0 <= j < sig.functions.len() && #[trigger] sig.functions[j] == (a.name, a.terms.len());
        lemma_every_tuple_is_listed(sig, a.terms);
        let tuples = sig.ground_tuples(m, a.terms.len());
        let i = choose|i: int| 0 <= i < tuples.len() && tuples[i] == a.terms;
        assert(apply_to_all(a.name, tuples)[i] == term);
        lemma_applications_list(sig, m, sig.functions.len(), j, term);
    }
}

/// Every tuple of terms built from the signature is listed at the sum of their sizes.
pub proof fn lemma_every_tuple_is_listed(sig: Signature, tuple: Seq<TermView>)
    requires
        sig.all_ground(tuple),
    ensures
        sig.ground_tuples(sig.total_size(tuple), tuple.len()).contains(tuple),
    decreases tuple,
{
    if tuple.len() == 0 {
        assert(tuple =~= Seq::empty());
        assert(sig.ground_tuples(0, 0)[0] == tuple);
    } else {
        let n = sig.total_size(tuple);
        let k = sig.size(tuple.last());
        let heads = sig.ground_terms(k);
        let tails = sig.ground_tuples((n - k) as nat, (tuple.len() - 1) as nat);
        lemma_every_term_is_listed(sig, tuple.last());
        lemma_every_tuple_is_listed(sig, tuple.drop_last());
        let row = choose|row: int| 0 <= row < heads.len() && heads[row] == tuple.last();
        let column = choose|column: int|
            0 <= column < tails.len() && tails[column] == tuple.drop_last();
        lemma_extend_lists(heads, tails, row, column);
        assert(tuple.drop_last().push(tuple.last()) =~= tuple);
        lemma_splits_list(sig, n, tuple.len(), n, k, tuple);
    }
}

/// Two sequences without repetition that share no item make one without repetition.
pub proof fn lemma_joined_without_repetition<A>(first: Seq<A>, second: Seq<A>)
    requires
        first.no_duplicates(),
        second.no_duplicates(),
        forall|i: int, j: int|
            0 <= i < first.len() && 0 <= j < second.len() ==> first[i] != second[j],
    ensures
        (first + second).no_duplicates(),
{
    let all = first + second;
    assert forall|i: int, j: int| 0 <= i < all.len() && 0 <= j < all.len() && i != j implies all[i]
        != all[j] by {
        if i < first.len() && j < first.len() {
            assert(first[i] != first[j]);
        } else if i >= first.len() && j >= first.len() {
            assert(second[i - first.len()] != second[j - first.len()]);
        } else if i < first.len() {
            assert(first[i] != second[j - first.len()]);
        } else {
            assert(first[j] != second[i - first.len()]);
        }
    }
}

/// No tail is extended twice by the same head, where no head and no tail is listed twice.
pub proof fn lemma_extend_without_repetition(heads: Seq<TermView>, tails: Seq<Seq<TermView>>)
    requires
        heads.no_duplicates(),
        tails.no_duplicates(),
    ensures
        extend(heads, tails).no_duplicates(),
{
    let all = extend(heads, tails);
    assert forall|i: int, j: int| 0 <= i < all.len() && 0 <= j < all.len() && i != j implies all[i]
        != all[j] by {
        lemma_extend_parts(heads, tails, i);
        lemma_extend_parts(heads, tails, j);
        let columns = tails.len() as int;
        lemma_grid_row_and_column(heads.len() as int, columns, i);
        lemma_grid_row_and_column(heads.len() as int, columns, j);
        if i / columns != j / columns {
            assert(heads[i / columns] != heads[j / columns]);
        } else {
            assert(i % columns != j % columns);
            assert(tails[i % columns] != tails[j % columns]);
        }
    }
}

/// No term is listed twice at a size, where the signature is unambiguous.
pub proof fn lemma_no_term_is_listed_twice(sig: Signature, n: nat)
    requires
        sig.unambiguous(),
    ensures
        sig.ground_terms(n).no_duplicates(),
    decreases 3 * n, 0nat, 0nat,
{
    if n > 0 {
        lemma_applications_without_repetition(sig, (n - 1) as nat, sig.functions.len());
    }
}

/// No application of the first `count` function symbols to tuples of size `m` is listed
/// twice, where the signature is unambiguous.
pub proof fn lemma_applications_without_repetition(sig: Signature, m: nat, count: nat)
    requires
        sig.unambiguous(),
        count <= sig.functions.len(),
    ensures
        sig.applications(m, count).no_duplicates(),
    decreases 3 * m + 2, count, 0nat,
{
    if count > 0 {
        let (name, arity) = sig.functions[count - 1];
        let earlier = sig.applications(m, (count - 1) as nat);
        let tuples = sig.ground_tuples(m, arity);
        let added = apply_to_all(name, tuples);
        lemma_applications_without_repetition(sig, m, (count - 1) as nat);
        lemma_no_tuple_is_listed_twice(sig, m, arity);
        lemma_applications_sound(sig, m, (count - 1) as nat);
        assert(sig.functions[count - 1].0 == name);
        assert forall|i: int, j: int|
            0 <= i < added.len() && 0 <= j < added.len() && i != j implies added[i] != added[j] by {
            assert(tuples[i] != tuples[j]);
        }
        assert forall|i: int, j: int|
            0 <= i < earlier.len() && 0 <= j < added.len() implies earlier[i] != added[j] by {
            let a = earlier[i]->Fn_0;
            let f = choose|f: int| 0 <= f < count - 1 && #[trigger] sig.functions[f].0 == a.name;
            assert(sig.functions[f].0 != sig.functions[count - 1].0);
        }
        lemma_joined_without_repetition(earlier, added);
    }
}

/// No tuple is listed twice for a size and a length, where the signature is unambiguous.
pub proof fn lemma_no_tuple_is_listed_twice(sig: Signature, n: nat, arity: nat)
    requires
        sig.unambiguous(),
    ensures
        sig.ground_tuples(n, arity).no_duplicates(),
    decreases 3 * n + 1, arity, n + 2,
{
    if arity > 0 {
        lemma_splits_without_repetition(sig, n, arity, n);
    }
}

/// No tuple is listed twice among those whose last term has a size of at most `k`, where
/// the signature is unambiguous.
pub proof fn lemma_splits_without_repetition(sig: Signature, n: nat, arity: nat, k: nat)
    requires
        sig.unambiguous(),
        arity > 0,
        k <= n,
    ensures
        sig.splits(n, arity, k).no_duplicates(),
    decreases 3 * n + 1, arity, k + 1,
{
    let heads = sig.ground_terms(k);
    let tails = sig.ground_tuples((n - k) as nat, (arity - 1) as nat);
    let added = extend(heads, tails);
    let earlier = if k == 0 {
        Seq::empty()
    } else {
        sig.splits(n, arity, (k - 1) as nat)
    };
    lemma_no_term_is_listed_twice(sig, k);
    lemma_no_tuple_is_listed_twice(sig, (n - k) as nat, (arity - 1) as nat);
    lemma_extend_without_repetition(heads, tails);
    if k > 0 {
        lemma_splits_without_repetition(sig, n, arity, (k - 1) as nat);
        lemma_splits_sound(sig, n, arity, (k - 1) as nat);
        lemma_listed_terms_have_the_size(sig, k);
        assert forall|i: int, j: int|
            0 <= i < earlier.len() && 0 <= j < added.len() implies earlier[i] != added[j] by {
            lemma_extend_parts(heads, tails, j);
            let head = heads[j / (tails.len() as int)];
            assert(sig.size(head) == k);
            assert(sig.size(earlier[i].last()) <= k - 1);
        }
    }
    lemma_joined_without_repetition(earlier, added);
}

/// Every tuple of terms built from an unambiguous signature is listed exactly once: at one
/// place of the list for the sum of the terms' sizes, and in no list for another size.
pub proof fn lemma_every_tuple_is_listed_once(sig: Signature, tuple: Seq<TermView>)
    requires
        sig.unambiguous(),
        sig.all_ground(tuple),
    ensures
        exists|i: int|
            {
                &&& sig.listed_at(tuple, sig.total_size(tuple), i)
                &&& forall|j: int| sig.listed_at(tuple, sig.total_size(tuple), j) ==> j == i
            },
        forall|n: nat, j: int| sig.listed_at(tuple, n, j) ==> n == sig.total_size(tuple),
{
    let size = sig.total_size(tuple);
    let list = sig.ground_tuples(size, tuple.len());
    lemma_every_tuple_is_listed(sig, tuple);
    lemma_no_tuple_is_listed_twice(sig, size, tuple.len());
    let i = choose|i: int| 0 <= i < list.len() && list[i] == tuple;
    assert(sig.listed_at(tuple, size, i));
    assert forall|n: nat, j: int| sig.listed_at(tuple, n, j) implies n == size by {
        lemma_listed_tuples_have_the_size(sig, n, tuple.len());
    }
}

} // verus!
