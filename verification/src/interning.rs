//! Trusted surface over the string-interning crate.
//!
//! Atoms and variables carry an interned name handle so that equal names
//! compare equal in constant time. The handle type is opaque here; the one
//! operation the analysis needs is equality of handles.

use vstd::prelude::*;

verus! {

#[verifier::external_type_specification]
#[verifier::external_body]
pub struct ExInternedString(lalrpop_intern::InternedString);

/// Relies on `lalrpop_intern::InternedString`'s derived `PartialEq`: a handle
/// is a single index, so two handles compare equal exactly when they are the
/// same value.
#[verifier::external_body]
pub(crate) fn interned_eq(a: lalrpop_intern::InternedString, b: lalrpop_intern::InternedString) -> (r: bool)
    ensures
        r == (a == b),
{
    a == b
}

} // verus!
