//! Outside types and functions that the rest of the crate relies on.
//!
//! Everything in this file is believed, not proved: each item names the outside
//! function it speaks of and claims no more than is written in its clauses.
//!
//! No outside function opens an invariant of this crate, since it has none. Only
//! some items say so, by `opens_invariants none`: not those by which a task is
//! cancelled or a signal is sent. A function elsewhere that has this clause calls
//! none of the latter, so it neither cancels a task nor sends a signal.
use crate::simple_supervisor::{SupervisorStat, SupvervisorState};
use crate::stopper;
use crate::task::{Pid, TaskIdRepr};
use futures::stream::FuturesUnordered;
use std::pin::Pin;
use std::time::Duration;
use tokio::sync::{mpsc, oneshot, watch, Notify};
use tokio::task::{JoinError, JoinHandle};
use vstd::multiset::Multiset;
use vstd::prelude::*;

verus! {

/// The task context that `Future::poll` receives. It is only handed on.
#[verifier::external_type_specification]
#[verifier::external_body]
pub struct ExTaskContext<'a>(std::task::Context<'a>);

/// What `Future::poll` returns. It is only handed on.
#[verifier::external_type_specification]
#[verifier::external_body]
#[verifier::reject_recursive_types(T)]
pub struct ExPoll<T>(std::task::Poll<T>);

/// The pinned reference that `Future::poll` receives. It is only handed on.
#[verifier::external_type_specification]
#[verifier::external_body]
#[verifier::reject_recursive_types(Ptr)]
pub struct ExPin<Ptr>(Pin<Ptr>);

/// Handle to a running tokio task.
#[verifier::external_type_specification]
#[verifier::external_body]
#[verifier::reject_recursive_types(T)]
pub struct ExJoinHandle<T>(JoinHandle<T>);

/// Why a tokio task did not run to completion.
#[verifier::external_type_specification]
#[verifier::external_body]
pub struct ExJoinError(JoinError);

/// What `JoinError::is_panic` returns for an error: whether the task panicked,
/// as against being cancelled.
pub uninterp spec fn join_error_is_panic(err: JoinError) -> bool;

/// `JoinError::is_panic` reads the error and nothing else.
pub assume_specification[ JoinError::is_panic ](err: &JoinError) -> (panicked: bool)
    ensures
        panicked == join_error_is_panic(*err),
;

/// `JoinHandle::abort` asks the runtime to cancel the task. When the task stops
/// is up to the runtime, so nothing is claimed.
pub assume_specification<T>[ JoinHandle::<T>::abort ](handle: &JoinHandle<T>);

/// Sending half of a oneshot channel.
#[verifier::external_type_specification]
#[verifier::external_body]
#[verifier::reject_recursive_types(T)]
pub struct ExOneshotSender<T>(oneshot::Sender<T>);

/// Receiving half of a oneshot channel.
#[verifier::external_type_specification]
#[verifier::external_body]
#[verifier::reject_recursive_types(T)]
pub struct ExOneshotReceiver<T>(oneshot::Receiver<T>);

/// What awaiting a oneshot receiver yields once the sending half is gone.
#[verifier::external_type_specification]
#[verifier::external_body]
pub struct ExOneshotRecvError(oneshot::error::RecvError);

/// Why a oneshot receiver has nothing to give at once.
#[verifier::external_type_specification]
#[verifier::external_body]
pub struct ExOneshotTryRecvError(oneshot::error::TryRecvError);

/// `oneshot::channel` makes the two halves of a fresh channel. Nothing is claimed
/// of either half.
pub assume_specification<T>[ oneshot::channel::<T> ]() -> (halves: (
    oneshot::Sender<T>,
    oneshot::Receiver<T>,
))
    opens_invariants none
;

/// `oneshot::Sender::send` hands the value to the receiving half, or gives it
/// back unchanged where that half is gone. Which of the two happens is up to the
/// holder of the other half.
pub assume_specification<T>[ oneshot::Sender::<T>::send ](tx: oneshot::Sender<T>, t: T) -> (res:
    Result<(), T>)
    ensures
        res matches Err(back) ==> back == t,
;

/// `oneshot::Receiver::close` keeps the other half from sending from now on. A
/// value that was sent before stays in the channel. Nothing is claimed.
pub assume_specification<T>[ oneshot::Receiver::<T>::close ](rx: &mut oneshot::Receiver<T>);

/// `oneshot::Receiver::try_recv` takes the value out of the channel where there is
/// one. Whether there is is up to the holder of the other half.
pub assume_specification<T>[ oneshot::Receiver::<T>::try_recv ](rx: &mut oneshot::Receiver<T>) -> (res:
    Result<T, oneshot::error::TryRecvError>);

/// Sending half of a bounded channel.
#[verifier::external_type_specification]
#[verifier::external_body]
#[verifier::reject_recursive_types(T)]
pub struct ExMpscSender<T>(mpsc::Sender<T>);

/// Sending half of a bounded channel that does not keep the channel open.
#[verifier::external_type_specification]
#[verifier::external_body]
#[verifier::reject_recursive_types(T)]
pub struct ExMpscWeakSender<T>(mpsc::WeakSender<T>);

/// Receiving half of a bounded channel.
#[verifier::external_type_specification]
#[verifier::external_body]
#[verifier::reject_recursive_types(T)]
pub struct ExMpscReceiver<T>(mpsc::Receiver<T>);

/// `mpsc::channel` makes the two halves of a fresh channel that buffers up to
/// `buffer` values. It panics on a buffer of zero and on one above the permits
/// that tokio's semaphore can count, an eighth of the range of `usize`. Nothing
/// is claimed of either half.
pub assume_specification<T>[ mpsc::channel::<T> ](buffer: usize) -> (halves: (
    mpsc::Sender<T>,
    mpsc::Receiver<T>,
))
    requires
        0 < buffer <= usize::MAX / 8,
;

/// `mpsc::Sender::clone` makes another sending half of the same channel. Nothing
/// is claimed of it.
pub assume_specification<T>[ <mpsc::Sender<T> as Clone>::clone ](tx: &mpsc::Sender<T>) -> (other:
    mpsc::Sender<T>);

/// `mpsc::Sender::downgrade` makes a weak sending half of the same channel.
/// Nothing is claimed of it.
pub assume_specification<T>[ mpsc::Sender::<T>::downgrade ](tx: &mpsc::Sender<T>) -> (weak:
    mpsc::WeakSender<T>);

/// `mpsc::WeakSender::upgrade` gives a sending half back while the channel has
/// another one. Whether it has is up to the holders of the others.
pub assume_specification<T>[ mpsc::WeakSender::<T>::upgrade ](weak: &mpsc::WeakSender<T>) -> (tx:
    Option<mpsc::Sender<T>>);

/// Sending half of an unbounded channel.
#[verifier::external_type_specification]
#[verifier::external_body]
#[verifier::reject_recursive_types(T)]
pub struct ExMpscUnboundedSender<T>(mpsc::UnboundedSender<T>);

/// Receiving half of an unbounded channel.
#[verifier::external_type_specification]
#[verifier::external_body]
#[verifier::reject_recursive_types(T)]
pub struct ExMpscUnboundedReceiver<T>(mpsc::UnboundedReceiver<T>);

/// The value that a channel without a receiver did not take.
#[verifier::external_type_specification]
#[verifier::external_body]
#[verifier::reject_recursive_types(T)]
pub struct ExMpscSendError<T>(mpsc::error::SendError<T>);

/// `mpsc::unbounded_channel` makes the two halves of a fresh channel that buffers
/// any number of values. Nothing is claimed of either half.
pub assume_specification<T>[ mpsc::unbounded_channel::<T> ]() -> (halves: (
    mpsc::UnboundedSender<T>,
    mpsc::UnboundedReceiver<T>,
));

/// `mpsc::UnboundedSender::clone` makes another sending half of the same channel.
/// Nothing is claimed of it.
pub assume_specification<T>[ <mpsc::UnboundedSender<T> as Clone>::clone ](
    tx: &mpsc::UnboundedSender<T>,
) -> (other: mpsc::UnboundedSender<T>);

/// `mpsc::UnboundedSender::send` puts the value into the channel, and fails where
/// the receiver is gone. Which of the two happens is up to the holder of the
/// receiver. It would abort the process on a channel that holds half as many values
/// as a `usize` can count, for which no memory has room.
pub assume_specification<T>[ mpsc::UnboundedSender::<T>::send ](
    tx: &mpsc::UnboundedSender<T>,
    message: T,
) -> (res: Result<(), mpsc::error::SendError<T>>);

/// Sending half of a watch channel.
#[verifier::external_type_specification]
#[verifier::external_body]
#[verifier::reject_recursive_types(T)]
pub struct ExWatchSender<T>(watch::Sender<T>);

/// Receiving half of a watch channel.
#[verifier::external_type_specification]
#[verifier::external_body]
#[verifier::reject_recursive_types(T)]
pub struct ExWatchReceiver<T>(watch::Receiver<T>);

/// Shared access to the current value of a watch channel.
#[verifier::external_type_specification]
#[verifier::external_body]
#[verifier::reject_recursive_types(T)]
pub struct ExWatchRef<'a, T>(watch::Ref<'a, T>);

/// The value that a watch channel without receivers did not take.
#[verifier::external_type_specification]
#[verifier::external_body]
#[verifier::reject_recursive_types(T)]
pub struct ExWatchSendError<T>(watch::error::SendError<T>);

/// `watch::channel` makes the two halves of a fresh channel with a first value.
/// Nothing is claimed of either half.
pub assume_specification<T>[ watch::channel::<T> ](init: T) -> (halves: (
    watch::Sender<T>,
    watch::Receiver<T>,
));

/// `watch::Sender::send` replaces the value of the channel, and fails where no
/// receiver is left. Which of the two happens is up to the holders of the
/// receivers.
pub assume_specification<T>[ watch::Sender::<T>::send ](tx: &watch::Sender<T>, value: T) -> (res:
    Result<(), watch::error::SendError<T>>);

/// `watch::Receiver::borrow` gives access to the current value. Which value that
/// is is up to the senders.
pub assume_specification<T>[ watch::Receiver::<T>::borrow ](rx: &watch::Receiver<T>) -> (value:
    watch::Ref<'_, T>)
    opens_invariants none
;

/// `watch::Receiver::borrow` on the channel that tells a group to suspend and to
/// resume, copied out. Which state that is is up to the senders.
#[verifier::external_body]
pub(crate) fn current_signal(rx: &watch::Receiver<SupvervisorState>) -> SupvervisorState {
    *rx.borrow()
}

/// `watch::Receiver::borrow` on the channel on which a group publishes itself,
/// copied out. What that is is up to the group.
#[verifier::external_body]
pub(crate) fn current_stat(rx: &watch::Receiver<SupervisorStat>) -> SupervisorStat {
    *rx.borrow()
}

/// What `watch::Receiver::same_channel` returns for two receivers on which groups
/// publish themselves: whether they belong to one channel.
pub uninterp spec fn on_same_stat_channel(
    a: watch::Receiver<SupervisorStat>,
    b: watch::Receiver<SupervisorStat>,
) -> bool;

/// `watch::Receiver::same_channel` tells whether two receivers belong to one
/// channel.
#[verifier::external_body]
pub(crate) fn same_stat_channel(
    a: &watch::Receiver<SupervisorStat>,
    b: &watch::Receiver<SupervisorStat>,
) -> (same: bool)
    ensures
        same == on_same_stat_channel(*a, *b),
{
    a.same_channel(b)
}

/// `watch::Receiver::clone` makes another receiver of the same channel. A third
/// receiver is on the channel of the one where it is on that of the other.
#[verifier::external_body]
pub(crate) fn clone_stat(rx: &watch::Receiver<SupervisorStat>) -> (other: watch::Receiver<
    SupervisorStat,
>)
    ensures
        on_same_stat_channel(*rx, other),
        forall|third: watch::Receiver<SupervisorStat>|
            #[trigger] on_same_stat_channel(other, third) == on_same_stat_channel(*rx, third),
    opens_invariants none
{
    rx.clone()
}

/// `watch::Receiver::borrow_and_update` gives access to the current value and
/// marks it as seen. The receiver stays on its channel: a third receiver is on the
/// channel of the one after the call where it was on that of the one before. Which
/// value it is is up to the senders, and nothing is claimed of it.
#[verifier::external_body]
pub(crate) fn update_stat(rx: &mut watch::Receiver<SupervisorStat>) -> (value: watch::Ref<
    '_,
    SupervisorStat,
>)
    ensures
        on_same_stat_channel(*old(rx), *final(rx)),
        forall|third: watch::Receiver<SupervisorStat>|
            #[trigger] on_same_stat_channel(*final(rx), third) == on_same_stat_channel(
                *old(rx),
                third,
            ),
    opens_invariants none
{
    rx.borrow_and_update()
}

/// Wakes the tasks that wait for a signal.
#[verifier::external_type_specification]
#[verifier::external_body]
pub struct ExNotify(Notify);

/// `Notify::new` makes a signal that nobody waits for. Nothing is claimed of it.
pub assume_specification[ Notify::new ]() -> (notify: Notify);

/// `Notify::notify_waiters` wakes every task that waits at this moment. Which
/// tasks those are is up to the runtime, so nothing is claimed. It is called where a
/// record is kept of it, and nowhere else.
pub assume_specification[ Notify::notify_waiters ](notify: &Notify)
    requires
        stopper::on_record(*notify),
;

/// What `Duration::from_secs` returns.
pub uninterp spec fn duration_from_secs(secs: u64) -> Duration;

/// What `Duration::from_millis` returns.
pub uninterp spec fn duration_from_millis(millis: u64) -> Duration;

/// What `Duration::as_millis` returns: the whole milliseconds of a duration.
pub uninterp spec fn duration_as_millis(d: Duration) -> u128;

/// `Duration::from_secs` makes a duration of that many seconds.
pub assume_specification[ Duration::from_secs ](secs: u64) -> (d: Duration)
    ensures
        d == duration_from_secs(secs),
        duration_as_millis(d) == secs * 1000,
    opens_invariants none
;

/// `Duration::from_millis` makes a duration of that many milliseconds.
pub assume_specification[ Duration::from_millis ](millis: u64) -> (d: Duration)
    ensures
        d == duration_from_millis(millis),
        duration_as_millis(d) == millis,
;

/// `Duration::as_millis` counts the whole milliseconds of a duration.
pub assume_specification[ Duration::as_millis ](d: &Duration) -> (millis: u128)
    ensures
        millis == duration_as_millis(*d),
;

/// A set of futures that finish in any order.
#[verifier::external_type_specification]
#[verifier::external_body]
#[verifier::reject_recursive_types(Fut)]
pub struct ExFuturesUnordered<Fut>(FuturesUnordered<Fut>);

/// The ids of the tasks in a set of running tasks.
pub uninterp spec fn running_ids(running: FuturesUnordered<Pid<()>>) -> Multiset<TaskIdRepr>;

/// `FuturesUnordered::new` makes an empty set.
#[verifier::external_body]
pub(crate) fn running_new() -> (running: FuturesUnordered<Pid<()>>)
    ensures
        running_ids(running) == Multiset::<TaskIdRepr>::empty(),
    opens_invariants none
{
    FuturesUnordered::new()
}

/// `FuturesUnordered::len` counts the tasks in the set.
#[verifier::external_body]
pub(crate) fn running_len(running: &FuturesUnordered<Pid<()>>) -> (n: usize)
    ensures
        n == running_ids(*running).len(),
{
    running.len()
}

/// `FuturesUnordered::is_empty` tells whether the set holds no task.
#[verifier::external_body]
pub(crate) fn running_is_empty(running: &FuturesUnordered<Pid<()>>) -> (b: bool)
    ensures
        b == (running_ids(*running).len() == 0),
{
    running.is_empty()
}

/// `FuturesUnordered::push` adds one task to the set.
#[verifier::external_body]
pub(crate) fn running_push(running: FuturesUnordered<Pid<()>>, pid: Pid<()>) -> (after:
    FuturesUnordered<Pid<()>>)
    ensures
        running_ids(after) == running_ids(running).insert(pid.task_id),
    opens_invariants none
{
    running.push(pid);
    running
}

/// `FuturesUnordered::clear` drops every task of the set.
#[verifier::external_body]
pub(crate) fn running_clear(running: &mut FuturesUnordered<Pid<()>>)
    ensures
        running_ids(*final(running)) == Multiset::<TaskIdRepr>::empty(),
{
    running.clear()
}

/// The ids of a list of tasks.
pub open spec fn member_ids(pids: Seq<&Pid<()>>) -> Seq<TaskIdRepr> {
    Seq::new(pids.len(), |i: int| pids[i].task_id)
}

/// `FuturesUnordered::iter` visits every task of the set, in an order of its own. The
/// set holds the same tasks after that. Nothing else is said of it, since a task can
/// be cancelled through what is handed out here: a set that is known to be what it
/// was has not handed out its tasks.
#[verifier::external_body]
pub(crate) fn running_members(running: &mut FuturesUnordered<Pid<()>>) -> (pids: Vec<&Pid<()>>)
    ensures
        member_ids(pids@).to_multiset() == running_ids(*old(running)),
        running_ids(*final(running)) == running_ids(*old(running)),
{
    running.iter().collect()
}

} // verus!
