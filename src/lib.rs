//! Live synchronization of an instance tree: patches applied to the tree
//! one whole batch at a time, a cursor-indexed log of what each patch
//! changed, a session that owns both, and the web interface over it.

use vstd::prelude::*;

pub mod patch;
pub mod tree;
pub mod queue;
pub mod session;
pub mod text;
pub mod api;
pub mod update;

verus! {

} // verus!
