//! The work queue.
//!
//! A FIFO `Worker` of `crossbeam_deque`: one owner pushes URLs, and any number
//! of `Stealer`s, each of which may sit on another thread, take them out at
//! the other end. What is in the queue at a given moment is therefore nothing
//! that its owner can know. What the owner does know is what it has pushed,
//! and that is what the contracts speak of: a queue is known by what was
//! pushed onto it, a stealer by the queue that it is a handle on, and what a
//! stealer takes is something that was pushed onto its queue.

use vstd::prelude::*;
use crossbeam_deque::{Steal, Stealer, Worker};

verus! {

/// `crossbeam_deque::Worker`, carried as an opaque value.
#[verifier::external_type_specification]
#[verifier::external_body]
#[verifier::reject_recursive_types(T)]
pub struct ExWorker<T>(crossbeam_deque::Worker<T>);

/// `crossbeam_deque::Stealer`, carried as an opaque value.
#[verifier::external_type_specification]
#[verifier::external_body]
#[verifier::reject_recursive_types(T)]
pub struct ExStealer<T>(crossbeam_deque::Stealer<T>);

/// The tasks that have been pushed onto `queue` since it was made, oldest
/// first, whether or not a stealer has taken them since.
pub uninterp spec fn pushed(queue: Worker<String>) -> Seq<Seq<char>>;

/// Whether `stealer` is a handle on `queue`: the two share one buffer, so
/// that what the stealer takes, it takes out of that queue.
pub uninterp spec fn steals_from(stealer: Stealer<String>, queue: Worker<String>) -> bool;

/// Whether `url` has been pushed onto the queue that `stealer` is a handle
/// on: it is among what was pushed onto that queue, as the queue stood at
/// some moment.
pub open spec fn was_queued(stealer: Stealer<String>, url: Seq<char>) -> bool {
    exists|queue: Worker<String>| #[trigger] steals_from(stealer, queue) && pushed(queue).contains(url)
}

/// `Worker::new_fifo`: a queue onto which nothing has been pushed.
#[verifier::external_body]
pub(crate) fn queue_new() -> (queue: Worker<String>)
    ensures
        pushed(queue) == Seq::<Seq<char>>::empty(),
{
    Worker::new_fifo()
}

/// `Worker::push`: one more task has been pushed, behind the others, and the
/// stealers of the queue are its stealers still. The wrapper takes the queue
/// by `&mut` although `push` makes do with `&self`: the queue has one owner,
/// and the push changes what it has pushed.
#[verifier::external_body]
pub(crate) fn queue_push(queue: &mut Worker<String>, task: String)
    ensures
        pushed(*final(queue)) == pushed(*old(queue)).push(task@),
        forall|stealer: Stealer<String>| #[trigger]
            steals_from(stealer, *old(queue)) ==> steals_from(stealer, *final(queue)),
{
    queue.push(task)
}

/// `Worker::stealer`: a handle that takes tasks out of this queue. It holds
/// the buffer that the queue holds.
#[verifier::external_body]
pub(crate) fn queue_stealer(queue: &Worker<String>) -> (stealer: Stealer<String>)
    ensures
        steals_from(stealer, *queue),
{
    queue.stealer()
}

/// `Stealer::steal`, once. `Some` holds the task of `Steal::Success`; `None`
/// stands for `Steal::Empty` and for `Steal::Retry`. Which of them comes
/// depends on what the other threads do, so no task is promised. A task that
/// does come was read out of the buffer of the stealer's queue, where a push
/// had put it.
#[verifier::external_body]
pub(crate) fn queue_steal(stealer: &Stealer<String>) -> (task: Option<String>)
    ensures
        task matches Some(url) ==> was_queued(*stealer, url@),
{
    match stealer.steal() {
        Steal::Success(task) => Some(task),
        Steal::Empty => None,
        Steal::Retry => None,
    }
}

} // verus!
