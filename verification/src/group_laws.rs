//! What a group does to its tasks, and what it leaves alone.
//!
//! A set of tasks hands out its tasks, through which they can be cancelled, only to
//! whoever may change the set. The channel on which a group publishes itself and the
//! signal on which its tasks stop keep a record of what goes through them. So where a
//! law says that one of these is what it was, nothing was done through it.
use crate::group;
use crate::group::{GroupRef, RestartPolicy, Wait, Watch};
use crate::simple_supervisor;
use crate::simple_supervisor::{
    DrainEvent, Next, Resume, Select, SignalWait, SimpleSupervisorImpl, SimpleSupervisorMessage,
    SupervisorStat, SupvervisorState,
};
use crate::starter;
use crate::task::{Pid, TaskIdRepr, TaskKind};
use crate::trusted;
use futures::stream::FuturesUnordered;
use std::ops::ControlFlow;
use std::sync::Arc;
use std::time::Duration;
use tokio::sync::Notify;
use tokio::task::JoinError;
use vstd::prelude::*;

verus! {

/// Tasks that are given time to stop are left alone until the time is up: the end of
/// one of them, or of the last, changes nothing about the set and cancels nobody. Only
/// when the time is up are tasks asked to be cancelled, and those are all that are
/// left.
pub proof fn law_tasks_are_cancelled_only_when_time_is_up(
    before: FuturesUnordered<Pid<()>>,
    event: DrainEvent,
    after: FuturesUnordered<Pid<()>>,
    flow: ControlFlow<()>,
)
    requires
        simple_supervisor::drained(before, event, after, flow),
    ensures
        after != before ==> event == DrainEvent::TimedOut,
        event == DrainEvent::TimedOut ==> {
            &&& trusted::running_ids(after).len() == 0
            &&& exists|pids: Seq<Pid<()>>|
                {
                    &&& #[trigger] simple_supervisor::listed(before, pids)
                    &&& simple_supervisor::ids_of(pids) == trusted::running_ids(before)
                    &&& forall|i: int| 0 <= i < pids.len() ==> (#[trigger] pids[i]).aborted()
                }
        },
{
}

/// The same holds of the tasks of a group while they are given time to stop, and the
/// group does not tell them to stop again.
pub proof fn law_stopping_group_cancels_only_when_time_is_up<F, S>(
    before: SimpleSupervisorImpl<F, S>,
    event: DrainEvent,
    after: SimpleSupervisorImpl<F, S>,
    flow: ControlFlow<()>,
)
    requires
        before.after_drain(event, after, flow),
    ensures
        after.running != before.running ==> event == DrainEvent::TimedOut,
        after.shutdown_notify == before.shutdown_notify,
        after.stat.log() == before.stat.log().push(after.current),
{
}

/// The end of one task leaves the tasks that run alone, whatever the policy says and
/// however the task ended: none is cancelled, none is told to stop, and at most one
/// new task joins them.
pub proof fn law_end_of_a_task_leaves_the_others<F, Fut, S>(
    before: SimpleSupervisorImpl<F, S>,
    res: Result<((), TaskIdRepr), JoinError>,
    after: SimpleSupervisorImpl<F, S>,
    next: Next,
) where F: Fn() -> Fut, S: Fn(Arc<Notify>, Fut, TaskKind) -> Pid<()>
    requires
        before.after_event(Select::Future(Some(res)), after, next),
    ensures
        next == Next::Continue,
        after.shutdown_notify == before.shutdown_notify,
        after.running != before.running ==> exists|pid: Pid<()>|
            before.started(pid) && #[trigger] starter::added(
                before.running,
                pid,
                after.running,
            ),
{
    if before.config.restart_policy.restarts(group::outcome_of(res)) {
        let pid = choose|pid: Pid<()>| #[trigger] before.after_starting(seq![pid], after);
        let pids = seq![pid];
        assert(before.started(pids[0]));
        reveal_with_fuel(simple_supervisor::extended, 2);
        assert(pids.drop_last().len() == 0);
        assert(pids.last() == pid);
    }
}

/// A task that panicked is replaced, one that was cancelled is not, and one that came
/// to its end is replaced by a group that keeps its tasks running and by no other.
pub proof fn law_policy_says_which_tasks_are_replaced<F, Fut, S>(
    before: SimpleSupervisorImpl<F, S>,
    res: Result<((), TaskIdRepr), JoinError>,
    after: SimpleSupervisorImpl<F, S>,
    next: Next,
) where F: Fn() -> Fut, S: Fn(Arc<Notify>, Fut, TaskKind) -> Pid<()>
    requires
        before.after_event(Select::Future(Some(res)), after, next),
    ensures
        res matches Err(err) && trusted::join_error_is_panic(err) ==> after.running_ids().len()
            == before.running_ids().len() + 1,
        res matches Err(err) && !trusted::join_error_is_panic(err) ==> after.running
            == before.running,
        after.starter != before.starter ==> after.running_ids().len()
            == before.running_ids().len() + 1,
        res is Ok && before.config.restart_policy == RestartPolicy::Always
            ==> after.running_ids().len() == before.running_ids().len() + 1,
        res is Ok && before.config.restart_policy == RestartPolicy::OnPanic ==> after.running
            == before.running,
{
    if before.config.restart_policy.restarts(group::outcome_of(res)) {
        let pid = choose|pid: Pid<()>| #[trigger] before.after_starting(seq![pid], after);
        simple_supervisor::lemma_ids_len(seq![pid]);
    }
}

/// Whatever a running group sees to, it cancels none of the tasks that run: all that
/// happens to them is that tasks of its own making join them, and no task is started
/// that does not join them.
pub proof fn law_running_group_cancels_nobody<F, Fut, S>(
    before: SimpleSupervisorImpl<F, S>,
    sel: Select,
    after: SimpleSupervisorImpl<F, S>,
    next: Next,
) where F: Fn() -> Fut, S: Fn(Arc<Notify>, Fut, TaskKind) -> Pid<()>
    requires
        before.after_event(sel, after, next),
    ensures
        exists|pids: Seq<Pid<()>>|
            {
                &&& #[trigger] simple_supervisor::extended(before.running, pids, after.running)
                &&& after.starter.log() == before.starter.log() + pids
                &&& forall|i: int| 0 <= i < pids.len() ==> before.started(#[trigger] pids[i])
            },
{
    let none = Seq::<Pid<()>>::empty();
    assert(simple_supervisor::extended(before.running, none, before.running));
    assert(before.starter.log() + none =~= before.starter.log());
    match sel {
        Select::Message(SimpleSupervisorMessage::Upscale { n }) => {
            let pids = choose|pids: Seq<Pid<()>>| #[trigger] before.after_starting(pids, after);
            assert(simple_supervisor::extended(before.running, pids, after.running));
        },
        Select::Future(Some(res)) => {
            if before.config.restart_policy.restarts(group::outcome_of(res)) {
                let pid = choose|pid: Pid<()>| #[trigger] before.after_starting(seq![pid], after);
                assert(simple_supervisor::extended(before.running, seq![pid], after.running));
            }
        },
        _ => {},
    }
}

/// A suspended group that looks whether it goes on cancels nobody and tells nobody to
/// stop. It starts tasks only where it goes on, and then as many as it is to run at
/// least.
pub proof fn law_resuming_group_cancels_nobody<F, Fut, S>(
    before: SimpleSupervisorImpl<F, S>,
    wait: SignalWait,
    after: SimpleSupervisorImpl<F, S>,
    resume: Resume,
) where F: Fn() -> Fut, S: Fn(Arc<Notify>, Fut, TaskKind) -> Pid<()>
    requires
        before.resumed(wait, after, resume),
    ensures
        after.shutdown_notify == before.shutdown_notify,
        resume != Resume::Now ==> after == before,
        resume == Resume::StopTasks <==> before.running_ids().len() > 0,
        resume == Resume::AwaitChange ==> wait != SignalWait::Closed
            && simple_supervisor::saw_signal(before.suspend_signal, SupvervisorState::Suspend),
        resume == Resume::Now ==> {
            &&& wait == SignalWait::Closed || simple_supervisor::saw_signal(
                before.suspend_signal,
                SupvervisorState::Active,
            )
            &&& before.running_ids().len() == 0
            &&& after.current.state == SupvervisorState::Active
            &&& after.stat.log() == before.stat.log().push(after.current)
            &&& after.running_ids().len() == before.config.spawn_at_least
            &&& exists|pids: Seq<Pid<()>>|
                {
                    &&& pids.len() == before.config.spawn_at_least
                    &&& #[trigger] simple_supervisor::extended(
                        before.running,
                        pids,
                        after.running,
                    )
                    &&& forall|i: int| 0 <= i < pids.len() ==> before.started(#[trigger] pids[i])
                }
        },
{
    if resume == Resume::Now {
        let pids = choose|pids: Seq<Pid<()>>|
            pids.len() == before.config.spawn_at_least && #[trigger] before.after_starting(
                pids,
                after,
            );
        assert(simple_supervisor::extended(before.running, pids, after.running));
        simple_supervisor::lemma_ids_len(pids);
    }
}

/// A suspended supervisor, which has no tasks of its own to start, goes on in the same
/// way and starts none.
pub proof fn law_resuming_supervisor_starts_nothing<F, S>(
    before: SimpleSupervisorImpl<F, S>,
    wait: SignalWait,
    after: SimpleSupervisorImpl<F, S>,
    resume: Resume,
)
    requires
        before.resumed_idle(wait, after, resume),
    ensures
        after.running == before.running,
        after.starter == before.starter,
        after.shutdown_notify == before.shutdown_notify,
        resume != Resume::Now ==> after == before,
        resume == Resume::StopTasks <==> before.running_ids().len() > 0,
        resume == Resume::AwaitChange ==> wait != SignalWait::Closed
            && simple_supervisor::saw_signal(before.suspend_signal, SupvervisorState::Suspend),
        resume == Resume::Now ==> {
            &&& wait == SignalWait::Closed || simple_supervisor::saw_signal(
                before.suspend_signal,
                SupvervisorState::Active,
            )
            &&& after.current.state == SupvervisorState::Active
            &&& after.stat.log() == before.stat.log().push(after.current)
        },
{
}

/// A group tells its tasks to stop when it is suspended and when it is told to exit,
/// once each, and at no other event. When it is suspended it has published that by
/// then.
pub proof fn law_tasks_are_told_to_stop_only_when_asked<F, Fut, S>(
    before: SimpleSupervisorImpl<F, S>,
    sel: Select,
    after: SimpleSupervisorImpl<F, S>,
    next: Next,
) where F: Fn() -> Fut, S: Fn(Arc<Notify>, Fut, TaskKind) -> Pid<()>
    requires
        before.after_event(sel, after, next),
    ensures
        match next {
            Next::Continue => after.shutdown_notify == before.shutdown_notify,
            Next::Suspend { timeout } => {
                &&& after.shutdown_notify.log() == before.shutdown_notify.log().push(
                    after.stat.log().len(),
                )
                &&& after.stat.log().last().state == SupvervisorState::Suspend
                &&& simple_supervisor::notified(*before.shutdown_notify.notify())
            },
            Next::Exit { timeout } => {
                &&& after.shutdown_notify.log() == before.shutdown_notify.log().push(
                    before.stat.log().len(),
                )
                &&& simple_supervisor::notified(*before.shutdown_notify.notify())
            },
        },
        next is Suspend <==> sel is Suspend,
        next is Exit <==> exists|timeout: Duration|
            sel == Select::Message(SimpleSupervisorMessage::Exit { timeout }),
{
    if let Select::Message(SimpleSupervisorMessage::Exit { timeout }) = sel {
        assert(sel == Select::Message(SimpleSupervisorMessage::Exit { timeout }));
    }
}

/// A group publishes itself once after every event, and says then how many tasks run,
/// how many events it has seen to, and how many tasks have panicked.
pub proof fn law_every_event_is_published_once<F, Fut, S>(
    before: SimpleSupervisorImpl<F, S>,
    sel: Select,
    after: SimpleSupervisorImpl<F, S>,
    next: Next,
) where F: Fn() -> Fut, S: Fn(Arc<Notify>, Fut, TaskKind) -> Pid<()>
    requires
        before.after_event(sel, after, next),
    ensures
        after.stat.channel() == before.stat.channel(),
        after.stat.log() == before.stat.log().push(after.current),
        simple_supervisor::published(before.stat.channel(), after.current),
        after.current.running == after.running_ids().len(),
        before.current.iterations < u64::MAX ==> after.current.iterations
            == before.current.iterations + 1,
        sel matches Select::Future(Some(Err(err))) && trusted::join_error_is_panic(err)
            && before.current.failed < u64::MAX ==> after.current.failed == before.current.failed
            + 1,
        !(sel matches Select::Future(Some(Err(err))) && trusted::join_error_is_panic(err))
            ==> after.current.failed == before.current.failed,
        after.current.state == if sel is Suspend {
            SupvervisorState::Suspend
        } else {
            before.current.state
        },
{
}

/// A group that is told to run `n` tasks runs that many, or as many as it did where
/// those were more.
pub proof fn law_upscaled_group_runs_that_many<F, Fut, S>(
    before: SimpleSupervisorImpl<F, S>,
    n: usize,
    after: SimpleSupervisorImpl<F, S>,
    next: Next,
) where F: Fn() -> Fut, S: Fn(Arc<Notify>, Fut, TaskKind) -> Pid<()>
    requires
        before.after_event(
            Select::Message(SimpleSupervisorMessage::Upscale { n }),
            after,
            next,
        ),
    ensures
        after.running_ids().len() >= n,
        after.running_ids().len() == n || after.running == before.running,
        before.running_ids().subset_of(after.running_ids()),
{
    let pids = choose|pids: Seq<Pid<()>>|
        pids.len() == simple_supervisor::missing(before.running_ids().len(), n)
            && #[trigger] before.after_starting(pids, after);
    simple_supervisor::lemma_ids_len(pids);
}

/// How a wait for a group to run and then to be suspended stands, after the group was
/// seen in these states one after the other.
pub open spec fn watch_after(
    group_ref: GroupRef,
    first: Watch,
    seen: Seq<SupvervisorState>,
) -> (Watch, Wait)
    decreases seen.len(),
{
    if seen.len() == 0 {
        (first, Wait::AwaitChange)
    } else {
        group_ref.watched(watch_after(group_ref, first, seen.drop_last()).0, seen.last())
    }
}

/// A wait for a group to run and then to be suspended is over just where the group is
/// seen to be suspended and was seen to run before that, unless it was known to run to
/// begin with.
pub proof fn law_watch_ends_with_a_suspension_after_a_run(
    group_ref: GroupRef,
    first: Watch,
    seen: Seq<SupvervisorState>,
)
    requires
        seen.len() > 0,
    ensures
        watch_after(group_ref, first, seen).1 == Wait::Over(group_ref.sv_task_id)
            || watch_after(group_ref, first, seen).1 == Wait::AwaitChange,
        watch_after(group_ref, first, seen).1 is Over <==> {
            &&& seen.last() == SupvervisorState::Suspend
            &&& first == Watch::Running || seen.contains(SupvervisorState::Active)
        },
{
    let earlier = seen.drop_last();
    lemma_watch_knows_of_a_run(group_ref, first, earlier);
    if seen.contains(SupvervisorState::Active) && seen.last() == SupvervisorState::Suspend {
        let i = choose|i: int| 0 <= i < seen.len() && seen[i] == SupvervisorState::Active;
        assert(earlier[i] == SupvervisorState::Active);
    }
    if earlier.contains(SupvervisorState::Active) {
        let i = choose|i: int| 0 <= i < earlier.len() && earlier[i] == SupvervisorState::Active;
        assert(seen[i] == SupvervisorState::Active);
    }
}

proof fn lemma_watch_knows_of_a_run(
    group_ref: GroupRef,
    first: Watch,
    seen: Seq<SupvervisorState>,
)
    ensures
        watch_after(group_ref, first, seen).0 == Watch::Running <==> first == Watch::Running
            || seen.contains(SupvervisorState::Active),
    decreases seen.len(),
{
    if seen.len() > 0 {
        let earlier = seen.drop_last();
        lemma_watch_knows_of_a_run(group_ref, first, earlier);
        if earlier.contains(SupvervisorState::Active) {
            let i = choose|i: int|
                0 <= i < earlier.len() && earlier[i] == SupvervisorState::Active;
            assert(seen[i] == SupvervisorState::Active);
        }
        if seen.last() == SupvervisorState::Active {
            assert(seen[seen.len() - 1] == SupvervisorState::Active);
        } else if seen.contains(SupvervisorState::Active) {
            let i = choose|i: int| 0 <= i < seen.len() && seen[i] == SupvervisorState::Active;
            assert(earlier[i] == SupvervisorState::Active);
        }
    }
}

/// A wait for a group to stop is over just where the group was seen to be suspended
/// with no task running, however many tasks it ran before, and it is over for that
/// group.
pub proof fn law_stop_is_awaited(group_ref: GroupRef, seen: SupervisorStat)
    ensures
        group_ref.stop_awaited(seen) is Over <==> seen.state == SupvervisorState::Suspend
            && seen.running == 0,
        group_ref.stop_awaited(seen) matches Wait::Over(id) ==> id == group_ref.sv_task_id,
{
}

} // verus!
