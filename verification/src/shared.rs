//! Shared ownership of immutable values.

use std::sync::Arc;

use vstd::prelude::*;

verus! {

/// Calls `Arc::clone`: another handle to the same immutable value.
#[verifier::external_body]
pub(crate) fn share<T>(value: &Arc<T>) -> (copy: Arc<T>)
    ensures
        copy == *value,
{
    Arc::clone(value)
}

} // verus!
