//! The bounded channel that carries scan results from the producing worker
//! to the consuming stream, and the single-shot signal of a watcher, from
//! the `crossbeam` crate, behind trusted declarations. A queue shared with
//! another thread can change between any two observations, so the contracts
//! promise nothing of what is received or whether a send is accepted.

use vstd::prelude::*;

verus! {

#[verifier::external_type_specification]
#[verifier::external_body]
#[verifier::reject_recursive_types(T)]
pub struct ExSender<T>(crossbeam::channel::Sender<T>);

#[verifier::external_type_specification]
#[verifier::external_body]
#[verifier::reject_recursive_types(T)]
pub struct ExReceiver<T>(crossbeam::channel::Receiver<T>);

/// Relies on crossbeam's channel::bounded: a first-in-first-out queue of at
/// most `cap` messages, with blocking send and receive ends.
#[verifier::external_body]
pub(crate) fn chan_bounded<T>(cap: usize) -> (r: (
    crossbeam::channel::Sender<T>,
    crossbeam::channel::Receiver<T>,
)) {
    crossbeam::channel::bounded(cap)
}

/// Relies on crossbeam's Sender::send: blocks while the queue is full, and
/// fails exactly when every receiver is gone; the result is turned into a
/// bool (true: the message entered the queue).
#[verifier::external_body]
pub(crate) fn chan_send<T>(s: &crossbeam::channel::Sender<T>, v: T) -> (ok: bool) {
    s.send(v).is_ok()
}

/// Relies on crossbeam's Receiver::recv: blocks until a message arrives,
/// or until the queue is empty with every sender gone (then None).
#[verifier::external_body]
pub(crate) fn chan_recv<T>(r: &crossbeam::channel::Receiver<T>) -> (v: Option<T>) {
    match r.recv() {
        Ok(x) => Some(x),
        Err(_) => None,
    }
}

/// Relies on crossbeam's Receiver::try_recv: a message if one is ready,
/// None otherwise; never blocks.
#[verifier::external_body]
pub(crate) fn chan_try_recv<T>(r: &crossbeam::channel::Receiver<T>) -> (v: Option<T>) {
    match r.try_recv() {
        Ok(x) => Some(x),
        Err(_) => None,
    }
}

/// Relies on std's Arc::clone: another handle to the same shared value.
#[verifier::external_body]
pub(crate) fn arc_clone<T>(t: &std::sync::Arc<T>) -> (r: std::sync::Arc<T>)
    ensures
        r == *t,
{
    std::sync::Arc::clone(t)
}

} // verus!
