//! Interned names, as handed out by the `lalrpop_intern` symbol table.

use lalrpop_intern::InternedString;
use vstd::prelude::*;

verus! {

/// `lalrpop_intern::InternedString`: a handle for an interned name. Its only field is the
/// index of the name in the table, so two handles are equal exactly when they stand for
/// the same entry.
#[verifier::external_type_specification]
#[verifier::external_body]
pub struct ExInternedString(InternedString);

/// `InternedString`'s `==`, which compares the two handles' indices: the result says
/// whether the two handles are the same value.
#[verifier::external_body]
pub(crate) fn same_symbol(a: InternedString, b: InternedString) -> (same: bool)
    ensures
        same == (a == b),
{
    a == b
}

} // verus!
