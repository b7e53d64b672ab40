//! The interface of a worker pool.

use crate::error::Result;
use vstd::prelude::*;

verus! {

/// A pool that runs jobs on worker threads.
pub trait ThreadPool {
    /// A pool of `threads` workers.
    fn new(threads: u32) -> Result<Self> where Self: Sized;

    /// Hands `job` to the pool; one of its threads runs it.
    fn spawn<F>(&self, job: F) where F: FnOnce() + Send + 'static;
}

} // verus!
