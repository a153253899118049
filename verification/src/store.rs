//! Declares dashmap's concurrent map type so that the cache and the pending
//! registry can hold one in a field.

use vstd::prelude::*;

verus! {

/// Declares dashmap::DashMap; values of it are opaque here and are reached
/// only through the trusted wrappers beside each store.
#[verifier::external_type_specification]
#[verifier::external_body]
#[verifier::reject_recursive_types(K)]
#[verifier::reject_recursive_types(V)]
#[verifier::reject_recursive_types(S)]
pub struct ExDashMap<K, V, S>(dashmap::DashMap<K, V, S>);

} // verus!
