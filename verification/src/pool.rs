//! The size of the worker pool.

use vstd::prelude::*;

use crate::error::SieveError;

verus! {

/// The number of workers for a request, on a machine with `available`
/// processing units.
///
/// A caller who asks for a number gets it, unless the number is zero, which
/// no pool can have. A caller who asks for nothing gets one worker for each
/// processing unit.
pub open spec fn workers_for(requested: Option<usize>, available: usize) -> Result<
    usize,
    SieveError,
> {
    let count = match requested {
        Some(n) => n,
        None => available,
    };
    if count == 0 {
        Err(SieveError::PoolConfig)
    } else {
        Ok(count)
    }
}

/// Asks `num_cpus::get` for the number of logical processors that this
/// process may use.
///
/// Trusted: the number is at least 1, as its documentation promises. Nothing
/// else is known of it; it may differ from one call to the next.
#[verifier::external_body]
pub(crate) fn available_cpus() -> (n: usize)
    ensures
        n >= 1,
{
    num_cpus::get()
}

/// Decides the number of workers from the caller's request and the number of
/// processing units at hand.
pub fn resolve_workers(requested: Option<usize>, available: usize) -> (r: Result<
    usize,
    SieveError,
>)
    ensures
        r == workers_for(requested, available),
{
    let count: usize = match requested {
        Some(n) => n,
        None => available,
    };
    if count == 0 {
        Err(SieveError::PoolConfig)
    } else {
        Ok(count)
    }
}

/// The number of workers to run with: the number asked for, or, by default,
/// the number of processing units of this machine.
///
/// A request for zero workers is refused with [`SieveError::PoolConfig`],
/// before any task runs. Every other request succeeds.
pub fn worker_count(requested: Option<usize>) -> (r: Result<usize, SieveError>)
    ensures
        match requested {
            Some(n) => r == workers_for(requested, 0),
            None => r matches Ok(n) && n >= 1,
        },
{
    match requested {
        Some(_) => resolve_workers(requested, 0),
        None => resolve_workers(requested, available_cpus()),
    }
}

} // verus!
