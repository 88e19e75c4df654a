use vstd::prelude::*;

verus! {

/// Adapts a closure that yields deferred work each time it is called, so
/// an asynchronous runner can hold job bodies behind one shape. The
/// scheduler core never polls the work itself; it only stores the source
/// of it.
#[verifier::reject_recursive_types(T)]
pub struct JobWrapper<F, T> where F: FnMut() -> T, T: core::future::Future {
    /// The source of the deferred work.
    pub f: F,
}

impl<F, T> JobWrapper<F, T> where F: FnMut() -> T, T: core::future::Future {
    /// Stores the source of work unchanged.
    pub fn new(f: F) -> (r: JobWrapper<F, T>)
        ensures
            r.f == f,
    {
        JobWrapper { f }
    }
}

} // verus!
