pub mod extract;
pub mod fuzzy;
pub mod ident;
pub mod reconcile;
pub mod registry;
pub mod store;
pub mod timings;
pub mod merge;
pub mod model;
pub mod orchestrator;
pub mod strutil;

use vstd::prelude::*;

verus! {

} // verus!
