//! The supervisor of one group: keeps its tasks running.
use crate::group;
use crate::group::{SupervisorConfig, TaskOutcome};
use crate::publisher::Publisher;
use crate::starter;
use crate::starter::Starter;
use crate::stopper::Stopper;
use crate::task::{Pid, TaskIdRepr, TaskKind};
use crate::trusted;
use crate::trusted::{
    current_signal, running_clear, running_is_empty, running_len, running_members, running_new,
};
use futures::stream::FuturesUnordered;
use std::ops::ControlFlow;
use std::sync::Arc;
use std::time::Duration;
use tokio::sync::{mpsc, watch, Notify};
use tokio::task::JoinError;
use vstd::multiset::Multiset;
use vstd::prelude::*;

verus! {

/// Whether a group runs its tasks or has stopped them for the time being.
#[derive(Debug, Clone, Copy, PartialEq, Eq, PartialOrd, Ord, Structural)]
pub enum SupvervisorState {
    Suspend,
    Active,
}

/// What a group publishes about itself.
#[derive(Debug, Clone, Copy, PartialEq, Eq, Structural)]
#[non_exhaustive]
pub struct SupervisorStat {
    /// Whether the group runs its tasks.
    pub state: SupvervisorState,
    /// How many tasks run.
    pub running: usize,
    /// How many tasks have failed, that is, panicked.
    pub failed: u64,
    /// How many times the loop of the supervisor has seen to an event.
    pub iterations: u64,
}

impl SupervisorStat {
    /// What a group publishes at first.
    pub open spec fn first() -> SupervisorStat {
        SupervisorStat { state: SupvervisorState::Active, running: 0, failed: 0, iterations: 0 }
    }

    /// What a group publishes at first.
    pub fn new() -> (stat: SupervisorStat)
        ensures
            stat == SupervisorStat::first(),
    {
        SupervisorStat { state: SupvervisorState::Active, running: 0, failed: 0, iterations: 0 }
    }

    /// The group is suspended and none of its tasks runs any more.
    pub open spec fn is_stopped(self) -> bool {
        self.state == SupvervisorState::Suspend && self.running == 0
    }

    /// Whether the group is suspended and none of its tasks runs any more.
    pub fn stopped(&self) -> (b: bool)
        ensures
            b == self.is_stopped(),
    {
        self.state == SupvervisorState::Suspend && self.running == 0
    }
}

/// A count after one more. The largest count is not left any more.
pub open spec fn one_more(count: u64) -> u64 {
    if count < u64::MAX {
        (count + 1) as u64
    } else {
        count
    }
}

/// The count of failed tasks after a task ended this way.
pub open spec fn failed_after(failed: u64, res: Result<((), TaskIdRepr), JoinError>) -> u64 {
    if group::outcome_of(res) == TaskOutcome::Panicked {
        one_more(failed)
    } else {
        failed
    }
}

/// Counts a task that ended, where it failed.
fn count_failed(failed: u64, res: &Result<((), TaskIdRepr), JoinError>) -> (after: u64)
    ensures
        after == failed_after(failed, *res),
{
    match TaskOutcome::of(res) {
        TaskOutcome::Panicked => failed.saturating_add(1),
        _ => failed,
    }
}

/// What a group can be told.
#[derive(Debug)]
pub enum SimpleSupervisorMessage {
    Upscale { n: usize },
    Exit { timeout: Duration },
}

/// What the supervisor of a group woke up for.
#[derive(Debug)]
pub enum Select {
    Future(Option<Result<((), TaskIdRepr), JoinError>>),
    Message(SimpleSupervisorMessage),
    Suspend,
    Nop,
}

/// Something that happened while the tasks of a set were given time to stop.
#[derive(Debug)]
pub enum DrainEvent {
    /// The set had nothing left, or one of its tasks ended.
    Exited(Option<Result<((), TaskIdRepr), JoinError>>),
    /// The time was up.
    TimedOut,
}

/// The ids of a list of tasks, without their order.
pub open spec fn ids_of(pids: Seq<Pid<()>>) -> Multiset<TaskIdRepr> {
    Seq::new(pids.len(), |i: int| pids[i].task_id).to_multiset()
}

/// These are the tasks of the set, as a walk through it gave them.
pub closed spec fn listed(futs: FuturesUnordered<Pid<()>>, pids: Seq<Pid<()>>) -> bool {
    exists|set: &mut FuturesUnordered<Pid<()>>, members: Vec<&Pid<()>>|
        {
            &&& #[trigger] call_ensures(running_members, (set,), members)
            &&& *set == futs
            &&& pids == members@.map_values(|pid: &Pid<()>| *pid)
        }
}

/// The set became this by the tasks that were added to it one after the other, and by
/// nothing else.
pub open spec fn extended(
    before: FuturesUnordered<Pid<()>>,
    pids: Seq<Pid<()>>,
    after: FuturesUnordered<Pid<()>>,
) -> bool
    decreases pids.len(),
{
    if pids.len() == 0 {
        after == before
    } else {
        exists|halfway: FuturesUnordered<Pid<()>>|
            {
                &&& extended(before, pids.drop_last(), halfway)
                &&& #[trigger] starter::added(halfway, pids.last(), after)
            }
    }
}

/// Every task of the set was asked to be cancelled.
pub open spec fn all_aborted(futs: FuturesUnordered<Pid<()>>) -> bool {
    exists|pids: Seq<Pid<()>>|
        {
            &&& #[trigger] listed(futs, pids)
            &&& ids_of(pids) == trusted::running_ids(futs)
            &&& forall|i: int| 0 <= i < pids.len() ==> (#[trigger] pids[i]).aborted()
        }
}

/// What one event does to a set of tasks that are given time to stop: the wait goes
/// on until none is left, and the remaining ones are aborted and forgotten when the
/// time is up.
pub open spec fn drained(
    before: FuturesUnordered<Pid<()>>,
    event: DrainEvent,
    after: FuturesUnordered<Pid<()>>,
    flow: ControlFlow<()>,
) -> bool {
    match event {
        DrainEvent::Exited(None) => flow == ControlFlow::<()>::Break(()) && after == before,
        DrainEvent::Exited(Some(_)) => flow == ControlFlow::<()>::Continue(()) && after == before,
        DrainEvent::TimedOut => {
            &&& flow == ControlFlow::<()>::Break(())
            &&& trusted::running_ids(after) == Multiset::<TaskIdRepr>::empty()
            &&& all_aborted(before)
        },
    }
}

/// Waits for the tasks of a set to stop, one event at a time: goes on until none
/// is left, and aborts and forgets the remaining ones when the time is up. Before that
/// nothing is called of which it is not known that it cannot unwind.
pub fn timeout_pids(futs: &mut FuturesUnordered<Pid<()>>, event: DrainEvent) -> (flow: ControlFlow<
    (),
>)
    ensures
        drained(*old(futs), event, *final(futs), flow),
    no_unwind when event is Exited
{
    match event {
        DrainEvent::Exited(None) => ControlFlow::Break(()),
        DrainEvent::Exited(Some(_)) => ControlFlow::Continue(()),
        DrainEvent::TimedOut => {
            abort_all(futs);
            running_clear(futs);
            ControlFlow::Break(())
        },
    }
}

/// Asks the runtime to cancel every task of a set.
fn abort_all(futs: &mut FuturesUnordered<Pid<()>>)
    ensures
        all_aborted(*old(futs)),
        trusted::running_ids(*final(futs)) == trusted::running_ids(*old(futs)),
{
    let ghost before = *futs;
    let members = running_members(futs);
    let ghost pids: Seq<Pid<()>> = members@.map_values(|pid: &Pid<()>| *pid);
    assert(Seq::new(pids.len(), |i: int| pids[i].task_id) =~= trusted::member_ids(members@));
    assert(ids_of(pids) == trusted::running_ids(before));
    assert(listed(before, pids));
    let mut i: usize = 0;
    while i < members.len()
        invariant
            i <= members.len(),
            listed(before, pids),
            pids == members@.map_values(|pid: &Pid<()>| *pid),
            ids_of(pids) == trusted::running_ids(before),
            forall|j: int| 0 <= j < i ==> (#[trigger] pids[j]).aborted(),
        decreases members.len() - i,
    {
        members[i].abort();
        assert(pids[i as int].aborted());
        i = i + 1;
    }
}

/// What a suspended group does next.
#[derive(Debug, Clone, Copy, PartialEq, Eq, Structural)]
pub enum Resume {
    /// The group goes on.
    Now,
    /// Wait until the signal changes, then look again.
    AwaitChange,
    /// Tasks still run: give them time to stop first.
    StopTasks,
}

/// What a suspended group knows of its signal before it looks.
#[derive(Debug, Clone, Copy, PartialEq, Eq, Structural)]
pub enum SignalWait {
    /// It has not waited for a change.
    NotYet,
    /// It has waited, and the signal changed.
    Changed,
    /// It has waited, and the signal cannot change any more.
    Closed,
}

/// Whether a suspended group goes on, by the signal that it sees.
pub fn resume_on(signal: SupvervisorState) -> (resume: Resume)
    ensures
        resume == match signal {
            SupvervisorState::Active => Resume::Now,
            SupvervisorState::Suspend => Resume::AwaitChange,
        },
{
    match signal {
        SupvervisorState::Active => Resume::Now,
        SupvervisorState::Suspend => Resume::AwaitChange,
    }
}

/// What a change of the signal asks of a running group.
pub fn select_on(signal: SupvervisorState) -> (sel: Select)
    ensures
        sel == match signal {
            SupvervisorState::Suspend => Select::Suspend,
            SupvervisorState::Active => Select::Nop,
        },
{
    match signal {
        SupvervisorState::Suspend => Select::Suspend,
        SupvervisorState::Active => Select::Nop,
    }
}

/// A look at the channel gave this signal.
pub closed spec fn saw_signal(
    rx: watch::Receiver<SupvervisorState>,
    signal: SupvervisorState,
) -> bool {
    call_ensures(current_signal, (&rx,), signal)
}

/// This was handed to the channel on which a group publishes itself.
pub open spec fn published(stat: watch::Sender<SupervisorStat>, current: SupervisorStat) -> bool {
    exists|res: Result<(), watch::error::SendError<SupervisorStat>>|
        call_ensures(watch::Sender::<SupervisorStat>::send, (&stat, current), res)
}

/// The tasks that wait for the signal have been woken.
pub open spec fn notified(notify: Notify) -> bool {
    call_ensures(Notify::notify_waiters, (&notify,), ())
}

/// What is left to do once the supervisor of a group has seen to an event.
#[derive(Debug)]
pub enum Next {
    /// Wait for the next event.
    Continue,
    /// Give the tasks this long to stop, handing what happens to
    /// `SimpleSupervisorImpl::drain`, and then call `SimpleSupervisorImpl::resume`,
    /// or `SupervisorImpl::resume` in a supervisor, until the group goes on.
    Suspend { timeout: Duration },
    /// Give the tasks this long to stop, handing what happens to
    /// `SimpleSupervisorImpl::drain`, and leave the event loop.
    Exit { timeout: Duration },
}

/// The supervisor of one group. `starter` makes its tasks.
#[verifier::reject_recursive_types(F)]
#[verifier::reject_recursive_types(S)]
pub struct SimpleSupervisorImpl<F, S> {
    pub stat: Publisher,
    pub starter: Starter<F, S>,
    pub config: SupervisorConfig,
    pub chan_rx: mpsc::Receiver<SimpleSupervisorMessage>,
    pub suspend_signal: watch::Receiver<SupvervisorState>,
    pub shutdown_notify: Stopper,
    pub running: FuturesUnordered<Pid<()>>,
    /// What the group last published about itself.
    pub current: SupervisorStat,
}

impl<F, S> SimpleSupervisorImpl<F, S> {
    pub fn new(
        stat: Publisher,
        starter: Starter<F, S>,
        config: SupervisorConfig,
        chan_rx: mpsc::Receiver<SimpleSupervisorMessage>,
        suspend_signal: watch::Receiver<SupvervisorState>,
        shutdown_notify: Stopper,
        running: FuturesUnordered<Pid<()>>,
    ) -> (sv: Self)
        ensures
            sv == (SimpleSupervisorImpl {
                stat,
                starter,
                config,
                chan_rx,
                suspend_signal,
                shutdown_notify,
                running,
                current: SupervisorStat::first(),
            }),
    {
        SimpleSupervisorImpl {
            stat,
            starter,
            config,
            chan_rx,
            suspend_signal,
            shutdown_notify,
            running,
            current: SupervisorStat::new(),
        }
    }

    /// The ids of the tasks that run.
    pub open spec fn running_ids(self) -> Multiset<TaskIdRepr> {
        trusted::running_ids(self.running)
    }

    /// Whether there is a task to wait for.
    pub fn awaits_tasks(&self) -> (b: bool)
        ensures
            b == (self.running_ids().len() > 0),
    {
        !running_is_empty(&self.running)
    }

    /// What the signal asks for, looked at after it changed.
    pub fn select_signal(&self) -> (sel: Select)
        ensures
            match sel {
                Select::Suspend => saw_signal(self.suspend_signal, SupvervisorState::Suspend),
                Select::Nop => saw_signal(self.suspend_signal, SupvervisorState::Active),
                _ => false,
            },
    {
        select_on(current_signal(&self.suspend_signal))
    }

    /// A suspended group may go on: none of its tasks runs any more, and it has seen
    /// the signal to resume, or the signal cannot change any more.
    pub open spec fn may_resume(self, wait: SignalWait) -> bool {
        &&& self.running_ids().len() == 0
        &&& wait == SignalWait::Closed || saw_signal(
            self.suspend_signal,
            SupvervisorState::Active,
        )
    }

    /// A suspended group without tasks has seen that it is to stay so.
    pub open spec fn must_wait(self, wait: SignalWait) -> bool {
        &&& self.running_ids().len() == 0
        &&& wait != SignalWait::Closed
        &&& saw_signal(self.suspend_signal, SupvervisorState::Suspend)
    }

    /// Whether the group, while it is suspended, goes on.
    pub fn check_resume(&self, wait: SignalWait) -> (resume: Resume)
        ensures
            match resume {
                Resume::Now => self.may_resume(wait),
                Resume::AwaitChange => self.must_wait(wait),
                Resume::StopTasks => self.running_ids().len() > 0,
            },
    {
        if self.awaits_tasks() {
            return Resume::StopTasks;
        }
        match wait {
            SignalWait::Closed => Resume::Now,
            _ => resume_on(current_signal(&self.suspend_signal)),
        }
    }

    /// The tasks were told to stop, once, and nothing else changed.
    pub open spec fn stopping(self, after: Self) -> bool {
        &&& after == (SimpleSupervisorImpl { shutdown_notify: after.shutdown_notify, ..self })
        &&& self.shutdown_notify.told_once(self.stat, after.shutdown_notify)
    }

    /// Tells the tasks to stop.
    pub fn shutdown_children(&mut self)
        ensures
            old(self).stopping(*final(self)),
    {
        self.shutdown_notify.tell(&self.stat)
    }

    /// The group published this about itself, once, with the tasks that run now, and
    /// nothing else changed.
    pub open spec fn told(
        self,
        after: Self,
        state: SupvervisorState,
        failed: u64,
        iterations: u64,
    ) -> bool {
        &&& after == (SimpleSupervisorImpl { current: after.current, stat: after.stat, ..self })
        &&& after.current.state == state
        &&& after.current.running == self.running_ids().len()
        &&& after.current.failed == failed
        &&& after.current.iterations == iterations
        &&& self.stat.published_once(after.current, after.stat)
    }

    /// Publishes what the group says of itself.
    fn publish(&mut self, state: SupvervisorState, failed: u64, iterations: u64)
        ensures
            old(self).told(*final(self), state, failed, iterations),
    {
        let running: usize = running_len(&self.running);
        self.current = SupervisorStat { state, running, failed, iterations };
        self.stat.publish(self.current);
    }

    /// Tells the tasks to stop, once it is published that the group is suspended.
    fn stop_tasks(&mut self)
        requires
            old(self).current.state == SupvervisorState::Suspend,
            old(self).stat.log().len() > 0,
            old(self).stat.log().last() == old(self).current,
            published(old(self).stat.channel(), old(self).current),
        ensures
            old(self).stopping(*final(self)),
            final(self).stopped_once_published(),
    {
        self.shutdown_children()
    }

    /// The last that the group published is that it is suspended, and the tasks were
    /// told to stop when it had published that, and not before.
    pub open spec fn stopped_once_published(self) -> bool {
        &&& self.current.state == SupvervisorState::Suspend
        &&& self.stat.log().len() > 0
        &&& self.stat.log().last() == self.current
        &&& published(self.stat.channel(), self.current)
        &&& self.shutdown_notify.log().len() > 0
        &&& self.shutdown_notify.log().last() == self.stat.log().len()
        &&& notified(*self.shutdown_notify.notify())
    }

    /// The group published that it is suspended and then told its tasks to stop, each
    /// once, and nothing else changed.
    pub open spec fn suspended(self, failed: u64, iterations: u64, after: Self) -> bool {
        &&& (SimpleSupervisorImpl { shutdown_notify: after.shutdown_notify, ..self }).told(
            after,
            SupvervisorState::Suspend,
            failed,
            iterations,
        )
        &&& self.shutdown_notify.told_once(after.stat, after.shutdown_notify)
        &&& after.stopped_once_published()
    }

    /// Publishes that the group is being suspended and then tells the tasks to stop.
    /// They are given the time that the group is configured with.
    pub fn suspend(&mut self) -> (timeout: Duration)
        ensures
            old(self).suspended(
                old(self).current.failed,
                old(self).current.iterations,
                *final(self),
            ),
            timeout == old(self).config.shutdown_timeout,
    {
        self.publish(SupvervisorState::Suspend, self.current.failed, self.current.iterations);
        self.stop_tasks();
        self.config.shutdown_timeout
    }

    /// What the group does with an event while its tasks are given time to stop:
    /// it sees to the event, counts a task that failed, and publishes how many
    /// tasks still run.
    pub open spec fn after_drain(self, event: DrainEvent, after: Self, flow: ControlFlow<()>) -> bool {
        &&& drained(self.running, event, after.running, flow)
        &&& (SimpleSupervisorImpl { running: after.running, ..self }).told(
            after,
            self.current.state,
            match event {
                DrainEvent::Exited(Some(res)) => failed_after(self.current.failed, res),
                _ => self.current.failed,
            },
            self.current.iterations,
        )
    }

    /// Waits for the tasks of the group to stop, one event at a time.
    pub fn drain(&mut self, event: DrainEvent) -> (flow: ControlFlow<()>)
        ensures
            old(self).after_drain(event, *final(self), flow),
    {
        let failed: u64 = match &event {
            DrainEvent::Exited(Some(res)) => count_failed(self.current.failed, res),
            _ => self.current.failed,
        };
        let flow = timeout_pids(&mut self.running, event);
        self.publish(self.current.state, failed, self.current.iterations);
        flow
    }

    /// Publishes that the group runs again.
    fn finish_suspend(&mut self, Ghost(wait): Ghost<SignalWait>)
        requires
            old(self).may_resume(wait),
        ensures
            old(self).told(
                *final(self),
                SupvervisorState::Active,
                old(self).current.failed,
                old(self).current.iterations,
            ),
    {
        self.publish(SupvervisorState::Active, self.current.failed, self.current.iterations)
    }

    /// What a suspended supervisor does, which has no tasks of its own to start.
    pub open spec fn resumed_idle(self, wait: SignalWait, after: Self, resume: Resume) -> bool {
        match resume {
            Resume::Now => {
                &&& self.may_resume(wait)
                &&& self.told(
                    after,
                    SupvervisorState::Active,
                    self.current.failed,
                    self.current.iterations,
                )
            },
            Resume::AwaitChange => self.must_wait(wait) && after == self,
            Resume::StopTasks => self.running_ids().len() > 0 && after == self,
        }
    }

    /// Looks whether a suspended supervisor goes on, and publishes where it does
    /// that it runs again.
    pub(crate) fn resume_idle(&mut self, wait: SignalWait) -> (resume: Resume)
        ensures
            old(self).resumed_idle(wait, *final(self), resume),
    {
        let resume = self.check_resume(wait);
        if resume == Resume::Now {
            self.finish_suspend(Ghost(wait));
        }
        resume
    }
}

impl<F, Fut, S> SimpleSupervisorImpl<F, S> where
    F: Fn() -> Fut,
    S: Fn(Arc<Notify>, Fut, TaskKind) -> Pid<()>,
 {
    /// The two functions that make a task accept what they are called with.
    pub open spec fn can_spawn(self) -> bool {
        self.starter.can_start(self.shutdown_notify.notify(), self.config.task_kind)
    }

    /// The task was made by the two functions, with the signal and the kind of
    /// task of this group.
    pub open spec fn started(self, pid: Pid<()>) -> bool {
        self.starter.made(self.shutdown_notify.notify(), self.config.task_kind, pid)
    }

    /// The group after these tasks, and no others, were started in it. Nothing else
    /// changed but what it published, of which nothing is said here.
    pub open spec fn after_starting(self, pids: Seq<Pid<()>>, after: Self) -> bool {
        &&& after == (SimpleSupervisorImpl {
            running: after.running,
            current: after.current,
            stat: after.stat,
            starter: after.starter,
            ..self
        })
        &&& self.starter.started_these(pids, after.starter)
        &&& extended(self.running, pids, after.running)
        &&& after.running_ids() == self.running_ids().add(ids_of(pids))
        &&& forall|i: int| 0 <= i < pids.len() ==> self.started(#[trigger] pids[i])
    }

    /// The group published, once, how many tasks run now, in this state, and these
    /// counts.
    pub open spec fn publishes(
        self,
        after: Self,
        state: SupvervisorState,
        failed: u64,
        iterations: u64,
    ) -> bool {
        &&& after.current.state == state
        &&& after.current.running == after.running_ids().len()
        &&& after.current.failed == failed
        &&& after.current.iterations == iterations
        &&& self.stat.published_once(after.current, after.stat)
    }

    /// What the group publishes about itself after an event: how many tasks run now,
    /// one more failed task where one panicked, and one more iteration.
    pub open spec fn counts(self, sel: Select, after: Self) -> bool {
        self.publishes(
            after,
            match sel {
                Select::Suspend => SupvervisorState::Suspend,
                _ => self.current.state,
            },
            match sel {
                Select::Future(Some(res)) => failed_after(self.current.failed, res),
                _ => self.current.failed,
            },
            one_more(self.current.iterations),
        )
    }

    /// Nothing changed but what the group published.
    pub open spec fn same_but_current(self, after: Self) -> bool {
        after == (SimpleSupervisorImpl { current: after.current, stat: after.stat, ..self })
    }

    /// What the group does with an event, and what is left to do.
    pub open spec fn after_event(self, sel: Select, after: Self, next: Next) -> bool {
        &&& self.counts(sel, after)
        &&& match sel {
            Select::Nop | Select::Future(None) => {
                &&& next == Next::Continue
                &&& self.same_but_current(after)
            },
            Select::Suspend => {
                &&& next == (Next::Suspend { timeout: self.config.shutdown_timeout })
                &&& self.suspended(
                    self.current.failed,
                    one_more(self.current.iterations),
                    after,
                )
            },
            Select::Future(Some(res)) => {
                &&& next == Next::Continue
                &&& if self.config.restart_policy.restarts(group::outcome_of(res)) {
                    exists|pid: Pid<()>| #[trigger] self.after_starting(seq![pid], after)
                } else {
                    self.same_but_current(after)
                }
            },
            Select::Message(SimpleSupervisorMessage::Exit { timeout }) => {
                &&& next == (Next::Exit { timeout })
                &&& (SimpleSupervisorImpl {
                    shutdown_notify: after.shutdown_notify,
                    ..self
                }).same_but_current(after)
                &&& self.shutdown_notify.told_once(self.stat, after.shutdown_notify)
            },
            Select::Message(SimpleSupervisorMessage::Upscale { n }) => {
                &&& next == Next::Continue
                &&& exists|pids: Seq<Pid<()>>|
                    pids.len() == missing(self.running_ids().len(), n)
                        && #[trigger] self.after_starting(pids, after)
            },
        }
    }

    /// Starts one task.
    fn spawn(&mut self) -> (pid: Ghost<Pid<()>>)
        requires
            old(self).can_spawn(),
        ensures
            *final(self) == (SimpleSupervisorImpl {
                running: final(self).running,
                starter: final(self).starter,
                ..*old(self)
            }),
            old(self).starter.started_these(seq![pid@], final(self).starter),
            old(self).started(pid@),
            starter::added(old(self).running, pid@, final(self).running),
            final(self).running_ids() == old(self).running_ids().insert(pid@.task_id),
    {
        let mut running = running_new();
        std::mem::swap(&mut self.running, &mut running);
        let (running, pid) = self.starter.start_in(
            running,
            &self.shutdown_notify,
            self.config.task_kind,
        );
        self.running = running;
        pid
    }

    /// Starts `n` tasks.
    fn spawn_many(&mut self, n: usize)
        requires
            old(self).can_spawn(),
        ensures
            exists|pids: Seq<Pid<()>>|
                pids.len() == n && #[trigger] old(self).after_starting(pids, *final(self)),
            final(self).running_ids().len() == old(self).running_ids().len() + n,
            final(self).current == old(self).current,
            final(self).stat == old(self).stat,
    {
        let ghost mut pids: Seq<Pid<()>> = Seq::empty();
        proof {
            lemma_starting_nothing(*self);
        }
        let mut i: usize = 0;
        while i < n
            invariant
                i <= n,
                pids.len() == i,
                self.can_spawn(),
                self.current == old(self).current,
                self.stat == old(self).stat,
                old(self).after_starting(pids, *self),
            decreases n - i,
        {
            let ghost halfway = *self;
            let Ghost(pid) = self.spawn();
            assert(old(self).started(pid));
            proof {
                let more = pids.push(pid);
                lemma_ids_push(pids, pid);
                lemma_extended_push(old(self).running, pids, halfway.running, pid, self.running);
                assert(halfway.starter.log() + seq![pid] =~= old(self).starter.log() + more);
                assert(old(self).running_ids().add(ids_of(pids)).insert(pid.task_id)
                    =~= old(self).running_ids().add(ids_of(more)));
                pids = more;
            }
            i = i + 1;
        }
        proof {
            lemma_ids_len(pids);
        }
    }

    /// Starts as many tasks as the group is to run at least, and publishes that they
    /// run.
    pub fn upscale_to_minimum(&mut self)
        requires
            old(self).can_spawn(),
        ensures
            exists|pids: Seq<Pid<()>>|
                pids.len() == old(self).config.spawn_at_least && #[trigger] old(
                    self,
                ).after_starting(pids, *final(self)),
            final(self).running_ids().len() == old(self).running_ids().len() + old(
                self,
            ).config.spawn_at_least,
            old(self).publishes(
                *final(self),
                old(self).current.state,
                old(self).current.failed,
                old(self).current.iterations,
            ),
    {
        self.spawn_many(self.config.spawn_at_least);
        let ghost halfway = *self;
        self.publish(self.current.state, self.current.failed, self.current.iterations);
        proof {
            lemma_telling_keeps_starting(*old(self), *old(self), halfway, *self);
        }
    }

    /// Starts as many tasks as are missing from `n`. A group that runs more is
    /// left as it is.
    pub fn try_upscale(&mut self, n: usize)
        requires
            old(self).can_spawn(),
        ensures
            final(self).current == old(self).current,
            final(self).stat == old(self).stat,
            exists|pids: Seq<Pid<()>>|
                pids.len() == missing(old(self).running_ids().len(), n) && #[trigger] old(
                    self,
                ).after_starting(pids, *final(self)),
            final(self).running_ids().len() == if old(self).running_ids().len() <= n {
                n as nat
            } else {
                old(self).running_ids().len()
            },
    {
        let len: usize = running_len(&self.running);
        if len <= n {
            self.spawn_many(n - len)
        } else {
            proof {
                lemma_starting_nothing(*self);
            }
        }
    }

    /// Starts a task in the place of one that ended, where the policy says so.
    pub fn handle_task_exit(&mut self, res: Result<((), TaskIdRepr), JoinError>)
        requires
            old(self).can_spawn(),
        ensures
            final(self).current == old(self).current,
            final(self).stat == old(self).stat,
            if old(self).config.restart_policy.restarts(group::outcome_of(res)) {
                exists|pid: Pid<()>| #[trigger]
                    old(self).after_starting(seq![pid], *final(self))
            } else {
                *final(self) == *old(self)
            },
    {
        if self.config.restart_policy.should_restart(&res) {
            let Ghost(pid) = self.spawn();
            assert(old(self).started(pid));
            proof {
                let none = Seq::<Pid<()>>::empty();
                lemma_starting_nothing(*old(self));
                lemma_ids_push(none, pid);
                assert(none.push(pid) =~= seq![pid]);
                lemma_extended_push(
                    old(self).running,
                    none,
                    old(self).running,
                    pid,
                    self.running,
                );
                assert(old(self).running_ids().add(ids_of(none)).insert(pid.task_id)
                    =~= old(self).running_ids().add(ids_of(none).insert(pid.task_id)));
                assert(self.running_ids() =~= old(self).running_ids().add(ids_of(seq![pid])));
                assert(old(self).after_starting(seq![pid], *self));
            }
        }
    }

    /// Starts the tasks of the group anew and publishes that it runs again.
    fn restart(&mut self, Ghost(wait): Ghost<SignalWait>)
        requires
            old(self).can_spawn(),
            old(self).may_resume(wait),
        ensures
            exists|pids: Seq<Pid<()>>|
                pids.len() == old(self).config.spawn_at_least && #[trigger] old(
                    self,
                ).after_starting(pids, *final(self)),
            old(self).publishes(
                *final(self),
                SupvervisorState::Active,
                old(self).current.failed,
                old(self).current.iterations,
            ),
    {
        self.spawn_many(self.config.spawn_at_least);
        let ghost halfway = *self;
        self.publish(SupvervisorState::Active, self.current.failed, self.current.iterations);
        proof {
            lemma_telling_keeps_starting(*old(self), *old(self), halfway, *self);
        }
    }

    /// What a suspended group does: it starts its tasks anew and publishes that it
    /// runs again, but only once its tasks have stopped and it is to go on.
    pub open spec fn resumed(self, wait: SignalWait, after: Self, resume: Resume) -> bool {
        match resume {
            Resume::Now => {
                &&& self.may_resume(wait)
                &&& exists|pids: Seq<Pid<()>>|
                    pids.len() == self.config.spawn_at_least && #[trigger] self.after_starting(
                        pids,
                        after,
                    )
                &&& self.publishes(
                    after,
                    SupvervisorState::Active,
                    self.current.failed,
                    self.current.iterations,
                )
            },
            Resume::AwaitChange => self.must_wait(wait) && after == self,
            Resume::StopTasks => self.running_ids().len() > 0 && after == self,
        }
    }

    /// Looks whether a suspended group goes on, and lets it run again where it does.
    pub fn resume(&mut self, wait: SignalWait) -> (resume: Resume)
        requires
            old(self).can_spawn(),
        ensures
            old(self).resumed(wait, *final(self), resume),
    {
        let resume = self.check_resume(wait);
        if resume == Resume::Now {
            self.restart(Ghost(wait));
        }
        resume
    }

    /// Sees to one event.
    pub fn poll(&mut self, sel: Select) -> (next: Next)
        requires
            old(self).can_spawn(),
        ensures
            old(self).after_event(sel, *final(self), next),
    {
        self.current.iterations = self.current.iterations.saturating_add(1);
        if let Select::Future(Some(res)) = &sel {
            self.current.failed = count_failed(self.current.failed, res);
        }
        let ghost counted = *self;
        let next = match sel {
            Select::Nop => Next::Continue,
            Select::Suspend => return Next::Suspend { timeout: self.suspend() },
            Select::Future(None) => Next::Continue,
            Select::Future(Some(res)) => {
                self.handle_task_exit(res);
                Next::Continue
            },
            Select::Message(SimpleSupervisorMessage::Exit { timeout }) => {
                self.shutdown_children();
                Next::Exit { timeout }
            },
            Select::Message(SimpleSupervisorMessage::Upscale { n }) => {
                self.try_upscale(n);
                Next::Continue
            },
        };
        let ghost halfway = *self;
        self.publish(self.current.state, self.current.failed, self.current.iterations);
        proof {
            lemma_telling_keeps_starting(*old(self), counted, halfway, *self);
        }
        next
    }
}

/// What a group publishes does not bear on the tasks that were started.
proof fn lemma_telling_keeps_starting<F, Fut, S>(
    before: SimpleSupervisorImpl<F, S>,
    counted: SimpleSupervisorImpl<F, S>,
    halfway: SimpleSupervisorImpl<F, S>,
    after: SimpleSupervisorImpl<F, S>,
) where F: Fn() -> Fut, S: Fn(Arc<Notify>, Fut, TaskKind) -> Pid<()>
    requires
        before.same_but_current(counted),
        halfway.same_but_current(after),
    ensures
        forall|pids: Seq<Pid<()>>| #[trigger]
            counted.after_starting(pids, halfway) ==> before.after_starting(pids, after),
{
    assert forall|pids: Seq<Pid<()>>| #[trigger] counted.after_starting(pids, halfway) implies
        before.after_starting(pids, after) by {
        assert forall|i: int| 0 <= i < pids.len() implies before.started(
            #[trigger] pids[i],
        ) by {
            assert(counted.started(pids[i]));
        }
    }
}

/// A group that is seen to be stopped runs no task.
pub proof fn law_stopped_group_runs_nothing<F, Fut, S>(
    before: SimpleSupervisorImpl<F, S>,
    event: DrainEvent,
    after: SimpleSupervisorImpl<F, S>,
    flow: ControlFlow<()>,
) where F: Fn() -> Fut, S: Fn(Arc<Notify>, Fut, TaskKind) -> Pid<()>
    requires
        before.after_drain(event, after, flow),
        after.current.is_stopped(),
    ensures
        after.running_ids().len() == 0,
{
}

/// A suspended group is seen to be stopped once the time of its tasks is up.
pub proof fn law_suspended_group_stops_in_time<F, Fut, S>(
    before: SimpleSupervisorImpl<F, S>,
    after: SimpleSupervisorImpl<F, S>,
    flow: ControlFlow<()>,
) where F: Fn() -> Fut, S: Fn(Arc<Notify>, Fut, TaskKind) -> Pid<()>
    requires
        before.current.state == SupvervisorState::Suspend,
        before.after_drain(DrainEvent::TimedOut, after, flow),
    ensures
        flow == ControlFlow::<()>::Break(()),
        after.current.is_stopped(),
        published(before.stat.channel(), after.current),
{
}

/// A wait for tasks to stop that is over leaves none in the set, given that the set
/// is found to have nothing left only where it is empty.
pub proof fn law_drain_leaves_nothing(
    before: FuturesUnordered<Pid<()>>,
    event: DrainEvent,
    after: FuturesUnordered<Pid<()>>,
    flow: ControlFlow<()>,
)
    requires
        drained(before, event, after, flow),
        flow == ControlFlow::<()>::Break(()),
        event == DrainEvent::Exited(None) ==> trusted::running_ids(before).len() == 0,
    ensures
        trusted::running_ids(after).len() == 0,
        event != DrainEvent::Exited(None) ==> all_aborted(before),
{
}

impl<F, Fut, S> SimpleSupervisorImpl<F, S> where
    F: Fn() -> Fut,
    S: Fn(Arc<Notify>, Fut, TaskKind) -> Pid<()>,
 {
    /// The group, while it is suspended, becomes this at one step: an event of the
    /// drain, or a look at the signal after which it does not go on.
    pub open spec fn stays_suspended(self, after: Self) -> bool {
        ||| exists|event: DrainEvent, flow: ControlFlow<()>| #[trigger]
            self.after_drain(event, after, flow)
        ||| exists|wait: SignalWait, resume: Resume|
            resume != Resume::Now && #[trigger] self.resumed(wait, after, resume)
    }
}

/// A suspension runs its course: the group publishes that it is suspended before its
/// tasks are told to stop, says nothing else until it goes on, and goes on, which it
/// then publishes, only when none of its tasks runs any more and it has seen the
/// signal to resume or the signal cannot change any more.
pub proof fn law_suspension_runs_its_course<F, Fut, S>(
    before: SimpleSupervisorImpl<F, S>,
    next: Next,
    history: Seq<SimpleSupervisorImpl<F, S>>,
    wait: SignalWait,
    after: SimpleSupervisorImpl<F, S>,
) where F: Fn() -> Fut, S: Fn(Arc<Notify>, Fut, TaskKind) -> Pid<()>
    requires
        history.len() > 0,
        before.after_event(Select::Suspend, history[0], next),
        forall|i: int|
            0 <= i < history.len() - 1 ==> (#[trigger] history[i]).stays_suspended(
                history[i + 1],
            ),
        history.last().resumed(wait, after, Resume::Now),
    ensures
        history[0].stopped_once_published(),
        forall|i: int|
            0 <= i < history.len() ==> (#[trigger] history[i]).current.state
                == SupvervisorState::Suspend,
        history.last().running_ids().len() == 0,
        wait == SignalWait::Closed || saw_signal(
            history.last().suspend_signal,
            SupvervisorState::Active,
        ),
        after.current.state == SupvervisorState::Active,
        published(history.last().stat.channel(), after.current),
{
    lemma_suspension_lasts(history, history.len() - 1);
    assert forall|i: int| 0 <= i < history.len() implies (#[trigger] history[i]).current.state
        == SupvervisorState::Suspend by {
        lemma_suspension_lasts(history, i);
    }
}

proof fn lemma_suspension_lasts<F, Fut, S>(
    history: Seq<SimpleSupervisorImpl<F, S>>,
    i: int,
) where F: Fn() -> Fut, S: Fn(Arc<Notify>, Fut, TaskKind) -> Pid<()>
    requires
        0 <= i < history.len(),
        history[0].current.state == SupvervisorState::Suspend,
        forall|j: int|
            0 <= j < history.len() - 1 ==> (#[trigger] history[j]).stays_suspended(
                history[j + 1],
            ),
    ensures
        history[i].current.state == SupvervisorState::Suspend,
    decreases i,
{
    if i > 0 {
        lemma_suspension_lasts(history, i - 1);
        assert(history[i - 1].stays_suspended(history[i - 1 + 1]));
    }
}

/// A group makes up for every task that panicked: it counts the task as failed,
/// starts one in its place, whatever the policy, and goes on.
pub proof fn law_panicked_tasks_are_replaced<F, Fut, S>(
    before: SimpleSupervisorImpl<F, S>,
    res: Result<((), TaskIdRepr), JoinError>,
    after: SimpleSupervisorImpl<F, S>,
    next: Next,
) where F: Fn() -> Fut, S: Fn(Arc<Notify>, Fut, TaskKind) -> Pid<()>
    requires
        before.after_event(Select::Future(Some(res)), after, next),
        group::outcome_of(res) == group::TaskOutcome::Panicked,
    ensures
        next == Next::Continue,
        after.current.failed == one_more(before.current.failed),
        after.running_ids().len() == before.running_ids().len() + 1,
        exists|pid: Pid<()>| #[trigger] before.started(pid) && after.running_ids().contains(
            pid.task_id,
        ),
{
    broadcast use vstd::seq_lib::group_to_multiset_ensures;

    let pid = choose|pid: Pid<()>| #[trigger] before.after_starting(seq![pid], after);
    let pids = seq![pid];
    lemma_ids_len(pids);
    assert(before.started(pids[0]));
    assert(Seq::new(pids.len(), |i: int| pids[i].task_id)[0] == pid.task_id);
    assert(ids_of(pids).contains(pid.task_id));
}

/// A group that was told to run `n` tasks has nothing left to start when it is
/// told so again.
pub proof fn law_upscale_twice_is_upscale_once(len: nat, n: usize)
    ensures
        missing(len + missing(len, n), n) == 0,
{
}

/// How many tasks a group of `len` lacks in order to run `n`.
pub open spec fn missing(len: nat, n: usize) -> nat {
    if len <= n {
        (n - len) as nat
    } else {
        0
    }
}

proof fn lemma_extended_push(
    before: FuturesUnordered<Pid<()>>,
    pids: Seq<Pid<()>>,
    halfway: FuturesUnordered<Pid<()>>,
    pid: Pid<()>,
    after: FuturesUnordered<Pid<()>>,
)
    requires
        extended(before, pids, halfway),
        starter::added(halfway, pid, after),
    ensures
        extended(before, pids.push(pid), after),
{
    let more = pids.push(pid);
    assert(more.drop_last() =~= pids);
    assert(extended(before, more.drop_last(), halfway));
    assert(starter::added(halfway, more.last(), after));
}

proof fn lemma_ids_push(pids: Seq<Pid<()>>, pid: Pid<()>)
    ensures
        ids_of(pids.push(pid)) == ids_of(pids).insert(pid.task_id),
{
    broadcast use vstd::seq_lib::group_to_multiset_ensures;

    let more = pids.push(pid);
    let ids = Seq::new(pids.len(), |i: int| pids[i].task_id);
    assert(Seq::new(more.len(), |i: int| more[i].task_id) =~= ids.push(pid.task_id));
}

pub(crate) proof fn lemma_ids_len(pids: Seq<Pid<()>>)
    ensures
        ids_of(pids).len() == pids.len(),
{
    broadcast use vstd::seq_lib::group_to_multiset_ensures;

}

proof fn lemma_starting_nothing<F, Fut, S>(sv: SimpleSupervisorImpl<F, S>) where
    F: Fn() -> Fut,
    S: Fn(Arc<Notify>, Fut, TaskKind) -> Pid<()>,

    ensures
        sv.after_starting(Seq::empty(), sv),
{
    broadcast use vstd::seq_lib::group_to_multiset_ensures;

    let none = Seq::<Pid<()>>::empty();
    let ids = Seq::new(none.len(), |i: int| none[i].task_id);
    assert(ids.to_multiset() =~= Multiset::empty()) by {
        assert forall|id: TaskIdRepr| ids.to_multiset().count(id) == 0 by {
            assert(!ids.contains(id));
        }
    }
    assert(sv.running_ids().add(ids_of(none)) =~= sv.running_ids());
    assert(sv.starter.log() + none =~= sv.starter.log());
}

} // verus!
