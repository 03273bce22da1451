//! Scoped finalization: tracked resources are registered with the innermost
//! open scope and finalized, in reverse order of creation, when that scope
//! exits.
use vstd::prelude::*;

pub mod model;
pub mod registry;
pub mod laws;

verus! {

} // verus!
