//! Generation of opaque identifiers for buckets and objects.

use vstd::prelude::*;

verus! {

/// Relies on `uuid::Uuid::new_v4` and `Uuid`'s `Display` impl: a freshly
/// generated random identifier rendered in the hyphenated form, which is
/// always 36 characters long. Nothing more is claimed: the value is random.
#[verifier::external_body]
pub(crate) fn fresh_id() -> (r: String)
    ensures
        r@.len() == 36,
{
    uuid::Uuid::new_v4().to_string()
}

} // verus!
