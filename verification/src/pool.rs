//! The worker pool that runs background range scans, from the `threadpool`
//! crate, behind trusted declarations. The placement decision itself (pool
//! worker or ephemeral overflow worker) is verified code in the engine.

use vstd::prelude::*;

verus! {

#[verifier::external_type_specification]
#[verifier::external_body]
pub struct ExThreadPool(threadpool::ThreadPool);

/// The worker count a pool was built with.
pub uninterp spec fn pool_size(p: threadpool::ThreadPool) -> nat;

/// Relies on threadpool's ThreadPool::new: a pool of exactly `n` worker
/// threads, spawned eagerly; panics on zero, so zero is excluded here.
#[verifier::external_body]
pub(crate) fn pool_new(n: usize) -> (p: threadpool::ThreadPool)
    requires
        n >= 1,
    ensures
        pool_size(p) == n,
{
    threadpool::ThreadPool::new(n)
}

/// Relies on threadpool's ThreadPool::max_count: the configured worker
/// count. This crate never calls set_num_threads, so it stays what `new`
/// set.
#[verifier::external_body]
pub(crate) fn pool_max_count(p: &threadpool::ThreadPool) -> (n: usize)
    ensures
        n == pool_size(*p),
{
    p.max_count()
}

/// Relies on threadpool's ThreadPool::active_count: how many jobs are
/// executing at this moment. A momentary observation; nothing is promised
/// of it.
#[verifier::external_body]
pub(crate) fn pool_active_count(p: &threadpool::ThreadPool) -> usize {
    p.active_count()
}

/// Relies on threadpool's ThreadPool::execute: the job runs once, on one of
/// the pool's worker threads, after the jobs queued ahead of it.
#[verifier::external_body]
pub(crate) fn pool_execute<F: FnOnce() + Send + 'static>(p: &threadpool::ThreadPool, f: F) {
    p.execute(f)
}

} // verus!
