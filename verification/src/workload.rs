//! What a sporadic server executes.

use vstd::prelude::*;

verus! {

/// A unit of work that a sporadic server runs each time it is activated.
pub trait Workload {
    /// Runs one activation's worth of work.
    fn exec_workload(&mut self);
}

} // verus!
