//! Task groups.
use crate::publisher::Publisher;
use crate::simple_supervisor::{
    SimpleSupervisorImpl, SimpleSupervisorMessage, SupervisorStat, SupvervisorState,
};
use crate::starter::Starter;
use crate::stopper::Stopper;
use crate::task::{Pid, TaskIdRepr, TaskKind};
use crate::task_handle::Handle;
use crate::trusted;
use crate::trusted::{clone_stat, current_stat, running_new, same_stat_channel, update_stat};
use std::time::Duration;
use tokio::sync::{mpsc, watch, Notify};
use tokio::task::JoinError;
use vstd::multiset::Multiset;
use vstd::prelude::*;

verus! {

/// Which finished tasks a group starts again.
#[derive(Debug, Clone, Copy, PartialEq, Eq, Structural)]
pub enum RestartPolicy {
    Always,
    OnPanic,
}

/// How a task ended.
#[derive(Debug, Clone, Copy, PartialEq, Eq, Structural)]
pub enum TaskOutcome {
    Completed,
    Panicked,
    Cancelled,
}

/// How a task ended, by what awaiting it yielded.
pub open spec fn outcome_of(res: Result<((), TaskIdRepr), JoinError>) -> TaskOutcome {
    match res {
        Ok(_) => TaskOutcome::Completed,
        Err(err) => if trusted::join_error_is_panic(err) {
            TaskOutcome::Panicked
        } else {
            TaskOutcome::Cancelled
        },
    }
}

impl TaskOutcome {
    /// How a task ended, by what awaiting it yielded.
    pub fn of(res: &Result<((), TaskIdRepr), JoinError>) -> (outcome: Self)
        ensures
            outcome == outcome_of(*res),
    {
        match res {
            Ok(_) => TaskOutcome::Completed,
            Err(err) => if err.is_panic() {
                TaskOutcome::Panicked
            } else {
                TaskOutcome::Cancelled
            },
        }
    }
}

impl RestartPolicy {
    /// Whether a task that ended this way is started again.
    pub open spec fn restarts(self, outcome: TaskOutcome) -> bool {
        match outcome {
            TaskOutcome::Completed => self == RestartPolicy::Always,
            TaskOutcome::Panicked => true,
            TaskOutcome::Cancelled => false,
        }
    }

    /// Whether a task that ended this way is started again.
    pub fn restarts_after(&self, outcome: TaskOutcome) -> (b: bool)
        ensures
            b == self.restarts(outcome),
        no_unwind
    {
        match (*self, outcome) {
            (RestartPolicy::Always, TaskOutcome::Completed) => true,
            (RestartPolicy::OnPanic, TaskOutcome::Completed) => false,
            (_, TaskOutcome::Panicked) => true,
            (_, TaskOutcome::Cancelled) => false,
        }
    }

    /// Whether a task is started again, by what awaiting it yielded.
    pub fn should_restart(&self, res: &Result<((), TaskIdRepr), JoinError>) -> (b: bool)
        ensures
            b == self.restarts(outcome_of(*res)),
    {
        self.restarts_after(TaskOutcome::of(res))
    }
}

/// A group starts a panicked task again under every policy, and a cancelled one
/// under none.
pub proof fn law_panicked_tasks_restart(policy: RestartPolicy)
    ensures
        policy.restarts(TaskOutcome::Panicked),
        !policy.restarts(TaskOutcome::Cancelled),
{
}

/// How a group runs its tasks.
#[derive(Debug)]
pub struct SupervisorConfig {
    /// Which finished tasks are started again.
    pub restart_policy: RestartPolicy,
    /// The interval between starts. No supervisor acts on it.
    pub interval_dur: Duration,
    /// How many tasks are started at first.
    pub spawn_at_least: usize,
    /// Whether the tasks do work or supervise.
    pub task_kind: TaskKind,
    /// Whether a group without tasks is of no more use. No supervisor acts on it.
    pub automatic_shutdown: bool,
    /// How long a suspended task may take to stop before it is aborted.
    pub shutdown_timeout: Duration,
}

/// Sets how a group runs its tasks before it is started.
#[derive(Debug)]
pub struct GroupBuilder(pub SupervisorConfig);

/// The ends that a group holds of the channels to its supervisor: requests, the
/// published state, and the signal to suspend and resume.
pub struct GroupChannels {
    pub sv_tx: mpsc::Sender<SimpleSupervisorMessage>,
    pub sv_stat: watch::Receiver<SupervisorStat>,
    pub sv_suspend: watch::Sender<SupvervisorState>,
}

impl GroupChannels {
    /// The supervisor is a fresh one with this configuration, and these are the
    /// other ends of its channels.
    pub open spec fn lead_to<F, S>(
        self,
        sv: SimpleSupervisorImpl<F, S>,
        config: SupervisorConfig,
        make_fut: F,
        start: S,
    ) -> bool {
        &&& sv.config == config
        &&& sv.starter.make_fut() == make_fut
        &&& sv.starter.start() == start
        &&& sv.starter.log() == Seq::<Pid<()>>::empty()
        &&& sv.running_ids() == Multiset::<TaskIdRepr>::empty()
        &&& sv.current == SupervisorStat::first()
        &&& call_ensures(Notify::new, (), *sv.shutdown_notify.notify())
        &&& sv.shutdown_notify.log() == Seq::<nat>::empty()
        &&& sv.stat.log() == Seq::<SupervisorStat>::empty()
        &&& call_ensures(
            mpsc::channel::<SimpleSupervisorMessage>,
            (1usize,),
            (self.sv_tx, sv.chan_rx),
        )
        &&& call_ensures(
            watch::channel::<SupervisorStat>,
            (SupervisorStat::first(),),
            (sv.stat.channel(), self.sv_stat),
        )
        &&& call_ensures(
            watch::channel::<SupvervisorState>,
            (SupvervisorState::Active,),
            (self.sv_suspend, sv.suspend_signal),
        )
    }
}

impl GroupBuilder {
    /// Sets which finished tasks are started again.
    pub fn restart_policy(self, policy: RestartPolicy) -> (builder: Self)
        ensures
            builder == GroupBuilder(SupervisorConfig { restart_policy: policy, ..self.0 }),
    {
        let mut config = self.0;
        config.restart_policy = policy;
        GroupBuilder(config)
    }

    /// Sets how long a task may take to stop before it is aborted.
    pub fn shutdown_timeout(self, dur: Duration) -> (builder: Self)
        ensures
            builder == GroupBuilder(SupervisorConfig { shutdown_timeout: dur, ..self.0 }),
    {
        let mut config = self.0;
        config.shutdown_timeout = dur;
        GroupBuilder(config)
    }

    /// Sets the interval between starts.
    pub fn spawn_interval(self, dur: Duration) -> (builder: Self)
        ensures
            builder == GroupBuilder(SupervisorConfig { interval_dur: dur, ..self.0 }),
    {
        let mut config = self.0;
        config.interval_dur = dur;
        GroupBuilder(config)
    }

    /// Sets how many tasks are started at least.
    pub fn spawn_at_least(self, n: usize) -> (builder: Self)
        ensures
            builder == GroupBuilder(SupervisorConfig { spawn_at_least: n, ..self.0 }),
    {
        let mut config = self.0;
        config.spawn_at_least = n;
        GroupBuilder(config)
    }

    /// Sets whether the tasks do work or supervise.
    pub fn task_kind(self, kind: TaskKind) -> (builder: Self)
        ensures
            builder == GroupBuilder(SupervisorConfig { task_kind: kind, ..self.0 }),
    {
        let mut config = self.0;
        config.task_kind = kind;
        GroupBuilder(config)
    }

    /// Makes the supervisor of a group and the other ends of its channels.
    pub(crate) fn assemble<F, S>(self, make_fut: F, start: S) -> (parts: (
        SimpleSupervisorImpl<F, S>,
        GroupChannels,
    ))
        ensures
            parts.1.lead_to(parts.0, self.0, make_fut, start),
    {
        let (sv_tx, chan_rx) = mpsc::channel(1);
        let (stat, sv_stat) = watch::channel(SupervisorStat::new());
        let (sv_suspend, suspend_signal) = watch::channel(SupvervisorState::Active);
        let sv = SimpleSupervisorImpl::new(
            Publisher::new(stat),
            Starter::new(make_fut, start),
            self.0,
            chan_rx,
            suspend_signal,
            Stopper::new(),
            running_new(),
        );
        (sv, GroupChannels { sv_tx, sv_stat, sv_suspend })
    }

    /// Makes the supervisor of a group and hands it to `f` with the other ends of
    /// its channels.
    pub fn spawn_custom<F, S, G, T>(self, make_fut: F, start: S, f: G) -> (t: T) where
        G: FnOnce(SimpleSupervisorImpl<F, S>, GroupChannels) -> T,

        requires
            forall|sv: SimpleSupervisorImpl<F, S>, chans: GroupChannels|
                chans.lead_to(sv, self.0, make_fut, start) ==> #[trigger] call_requires(
                    f,
                    (sv, chans),
                ),
        ensures
            exists|sv: SimpleSupervisorImpl<F, S>, chans: GroupChannels|
                chans.lead_to(sv, self.0, make_fut, start) && #[trigger] call_ensures(
                    f,
                    (sv, chans),
                    t,
                ),
    {
        let (sv, chans) = self.assemble(make_fut, start);
        f(sv, chans)
    }

    /// Makes a group and starts its supervisor with `run`, as a task of the kind
    /// that `run` is told. `run` is to start the least number of tasks and then
    /// hand every event to `SimpleSupervisorImpl::poll`.
    pub fn spawn<F, S, R>(self, make_fut: F, start: S, run: R) -> (group: Group) where
        R: FnOnce(SimpleSupervisorImpl<F, S>, TaskKind) -> Pid<()>,

        requires
            forall|sv: SimpleSupervisorImpl<F, S>, chans: GroupChannels|
                #[trigger] chans.lead_to(sv, self.0, make_fut, start) ==> call_requires(
                    run,
                    (sv, TaskKind::Super),
                ),
        ensures
            exists|sv: SimpleSupervisorImpl<F, S>|
                #[trigger] group.inner.channels().lead_to(sv, self.0, make_fut, start)
                    && call_ensures(run, (sv, TaskKind::Super), group.inner.sv_handle.pid()),
    {
        let (sv, chans) = self.assemble(make_fut, start);
        let sv_handle = run(sv, TaskKind::Super);
        let inner = Inner::new(chans.sv_tx, chans.sv_stat, sv_handle, chans.sv_suspend);
        let group = Group { inner };
        assert(group.inner.channels() == chans);
        assert(call_ensures(run, (sv, TaskKind::Super), group.inner.sv_handle.pid()));
        assert(group.inner.channels().lead_to(sv, self.0, make_fut, start));
        group
    }
}

/// What a group holds of its supervisor.
#[derive(Debug)]
pub struct Inner {
    pub sv_tx: mpsc::Sender<SimpleSupervisorMessage>,
    pub sv_stat: watch::Receiver<SupervisorStat>,
    pub sv_handle: Handle,
    pub sv_suspend: watch::Sender<SupvervisorState>,
}

impl Inner {
    /// The channels among it.
    pub open spec fn channels(self) -> GroupChannels {
        GroupChannels { sv_tx: self.sv_tx, sv_stat: self.sv_stat, sv_suspend: self.sv_suspend }
    }

    pub fn new(
        sv_tx: mpsc::Sender<SimpleSupervisorMessage>,
        sv_stat: watch::Receiver<SupervisorStat>,
        sv_handle: Pid<()>,
        sv_suspend: watch::Sender<SupvervisorState>,
    ) -> (inner: Self)
        ensures
            inner == (Inner { sv_tx, sv_stat, sv_handle: inner.sv_handle, sv_suspend }),
            inner.sv_handle.pid() == sv_handle,
    {
        Inner { sv_tx, sv_stat, sv_handle: Handle::new(sv_handle), sv_suspend }
    }
}

/// What is left of a group that nobody controls any more: the task of its
/// supervisor.
impl From<Inner> for Pid<()> {
    fn from(inner: Inner) -> (pid: Self) {
        inner.sv_handle.into_pid()
    }
}

impl vstd::std_specs::convert::FromSpecImpl<Inner> for Pid<()> {
    open spec fn obeys_from_spec() -> bool {
        true
    }

    open spec fn from_spec(inner: Inner) -> Self {
        inner.sv_handle.pid()
    }
}

/// A running group. Whoever holds it controls the group.
#[derive(Debug)]
pub struct Group {
    pub inner: Inner,
}

impl Group {
    /// The group was sent this signal, and it was received or not as `ok` says.
    pub open spec fn signalled(self, state: SupvervisorState, ok: bool) -> bool {
        exists|res: Result<(), watch::error::SendError<SupvervisorState>>|
            {
                &&& #[trigger] call_ensures(
                    watch::Sender::<SupvervisorState>::send,
                    (&self.inner.sv_suspend, state),
                    res,
                )
                &&& ok == res is Ok
            }
    }

    fn signal(&self, state: SupvervisorState) -> (res: Result<(), ()>)
        ensures
            self.signalled(state, res is Ok),
    {
        match self.inner.sv_suspend.send(state) {
            Ok(()) => Ok(()),
            Err(_) => Err(()),
        }
    }

    /// Tells the group to stop its tasks for the time being. Fails where its
    /// supervisor is gone.
    pub fn suspend(&self) -> (res: Result<(), ()>)
        ensures
            self.signalled(SupvervisorState::Suspend, res is Ok),
    {
        self.signal(SupvervisorState::Suspend)
    }

    /// Tells the group to run its tasks. Fails where its supervisor is gone.
    pub fn resume(&self) -> (res: Result<(), ()>)
        ensures
            self.signalled(SupvervisorState::Active, res is Ok),
    {
        self.signal(SupvervisorState::Active)
    }

    /// The id of the supervisor of this group.
    pub fn task_id(&self) -> (id: TaskIdRepr)
        ensures
            id == self.id(),
        opens_invariants none
        no_unwind
    {
        self.inner.sv_handle.task_id()
    }

    /// The id of the supervisor of this group.
    pub open spec fn id(self) -> TaskIdRepr {
        self.inner.sv_handle.pid().task_id
    }

    /// What to send to the supervisor so that the group runs at least `n` tasks.
    pub fn upscale(&self, n: usize) -> (message: SimpleSupervisorMessage)
        ensures
            message == (SimpleSupervisorMessage::Upscale { n }),
        opens_invariants none
        no_unwind
    {
        SimpleSupervisorMessage::Upscale { n }
    }

    /// What to send to the supervisor so that it stops the tasks within `timeout`
    /// and ends.
    pub fn exit(&self, timeout: Duration) -> (message: SimpleSupervisorMessage)
        ensures
            message == (SimpleSupervisorMessage::Exit { timeout }),
        opens_invariants none
        no_unwind
    {
        SimpleSupervisorMessage::Exit { timeout }
    }

    /// What to send to the supervisor at the end of a scope.
    pub fn scope(&self) -> (message: SimpleSupervisorMessage)
        ensures
            message == (SimpleSupervisorMessage::Exit { timeout: trusted::duration_from_secs(1) }),
        opens_invariants none
    {
        self.exit(Duration::from_secs(1))
    }

    /// Aborts the supervisor. The tasks of the group are left as they are.
    pub fn abort_unchecked(self)
        ensures
            self.inner.sv_handle.pid().aborted(),
    {
        self.inner.sv_handle.abort()
    }

    /// Access to what the group last published.
    pub fn stat_borrow(&self) -> (stat: watch::Ref<'_, SupervisorStat>)
        ensures
            call_ensures(watch::Receiver::<SupervisorStat>::borrow, (&self.inner.sv_stat,), stat),
        opens_invariants none
    {
        self.inner.sv_stat.borrow()
    }

    /// Access to what the group last published, which is then marked as seen. The
    /// group stays the one that its handles observe.
    pub fn stat_borrow_and_update(&mut self) -> (stat: watch::Ref<'_, SupervisorStat>)
        ensures
            final(self).inner == (Inner {
                sv_stat: final(self).inner.sv_stat,
                ..old(self).inner
            }),
            same_channel(old(self).inner.sv_stat, final(self).inner.sv_stat),
            exists|rx: &mut watch::Receiver<SupervisorStat>|
                {
                    &&& #[trigger] updated(rx, stat)
                    &&& *rx == old(self).inner.sv_stat
                    &&& *final(rx) == final(self).inner.sv_stat
                },
        opens_invariants none
    {
        let stat = update_stat(&mut self.inner.sv_stat);
        assert(forall|rx: &mut watch::Receiver<SupervisorStat>| #[trigger]
            call_ensures(update_stat, (rx,), stat) ==> updated(rx, stat));
        stat
    }

    /// A handle that only observes the group.
    pub fn to_group_ref(&self) -> (group_ref: GroupRef)
        ensures
            group_ref.observes(*self),
        opens_invariants none
    {
        GroupRef {
            sv_task_id: self.inner.sv_handle.task_id(),
            sv_stat: clone_stat(&self.inner.sv_stat),
        }
    }
}

/// Observes a group.
#[derive(Debug)]
pub struct GroupRef {
    pub sv_task_id: TaskIdRepr,
    pub sv_stat: watch::Receiver<SupervisorStat>,
}

/// What a wait for a group to reach a state does next.
#[derive(Debug, Clone, Copy, PartialEq, Eq, Structural)]
pub enum Wait {
    /// The wait is over for the group with this id.
    Over(TaskIdRepr),
    /// Wait until the group publishes something, then look again.
    AwaitChange,
}

/// How far a wait for a group to run and then to be suspended has come.
#[derive(Debug, Clone, Copy, PartialEq, Eq, Structural)]
pub enum Watch {
    /// The group has not been seen to run.
    Resuming,
    /// The group has been seen to run.
    Running,
}

/// The two receivers are on one channel: no third receiver tells them apart.
pub open spec fn same_channel(
    a: watch::Receiver<SupervisorStat>,
    b: watch::Receiver<SupervisorStat>,
) -> bool {
    &&& trusted::on_same_stat_channel(a, b)
    &&& forall|third: watch::Receiver<SupervisorStat>| #[trigger]
        trusted::on_same_stat_channel(b, third) == trusted::on_same_stat_channel(a, third)
}

/// Handles that observe one group are of one group, however many are made.
pub proof fn law_group_refs_are_interchangeable(group: Group, first: GroupRef, second: GroupRef)
    requires
        first.observes(group),
        second.observes(group),
    ensures
        first.same_group(second),
{
}

impl Clone for GroupRef {
    fn clone(&self) -> (other: Self)
        ensures
            other.sv_task_id == self.sv_task_id,
            same_channel(self.sv_stat, other.sv_stat),
    {
        GroupRef { sv_task_id: self.sv_task_id, sv_stat: clone_stat(&self.sv_stat) }
    }
}

impl PartialEq for GroupRef {
    fn eq(&self, other: &Self) -> (b: bool) {
        self.sv_task_id == other.sv_task_id && same_stat_channel(&self.sv_stat, &other.sv_stat)
    }
}

impl vstd::std_specs::cmp::PartialEqSpecImpl for GroupRef {
    open spec fn obeys_eq_spec() -> bool {
        true
    }

    open spec fn eq_spec(&self, other: &Self) -> bool {
        self.same_group(*other)
    }
}

/// A look at the channel through this receiver gave access to its current value,
/// which the receiver has then seen.
pub closed spec fn updated(
    rx: &mut watch::Receiver<SupervisorStat>,
    stat: watch::Ref<'_, SupervisorStat>,
) -> bool {
    call_ensures(update_stat, (rx,), stat)
}

/// A look at the channel gave this.
pub closed spec fn saw_stat(rx: watch::Receiver<SupervisorStat>, stat: SupervisorStat) -> bool {
    call_ensures(current_stat, (&rx,), stat)
}

impl GroupRef {
    /// The handle has the id of the group and is on its channel.
    pub open spec fn observes(self, group: Group) -> bool {
        &&& self.sv_task_id == group.id()
        &&& same_channel(group.inner.sv_stat, self.sv_stat)
    }

    /// The two handles are of one group.
    pub open spec fn same_group(self, other: Self) -> bool {
        &&& self.sv_task_id == other.sv_task_id
        &&& trusted::on_same_stat_channel(self.sv_stat, other.sv_stat)
    }

    /// The id of the supervisor of the group.
    pub fn task_id(&self) -> (id: TaskIdRepr)
        ensures
            id == self.sv_task_id,
    {
        self.sv_task_id
    }

    /// Whether the wait for `target` is over, by the state that the group was
    /// seen in.
    pub fn wait_on(&self, seen: SupvervisorState, target: SupvervisorState) -> (wait: Wait)
        ensures
            wait == if seen == target {
                Wait::Over(self.sv_task_id)
            } else {
                Wait::AwaitChange
            },
    {
        if seen == target {
            Wait::Over(self.sv_task_id)
        } else {
            Wait::AwaitChange
        }
    }

    /// Whether the wait for `target` is over.
    pub fn wait_until(&self, target: SupvervisorState) -> (wait: Wait)
        ensures
            exists|seen: SupervisorStat|
                {
                    &&& #[trigger] saw_stat(self.sv_stat, seen)
                    &&& wait == if seen.state == target {
                        Wait::Over(self.sv_task_id)
                    } else {
                        Wait::AwaitChange
                    }
                },
    {
        let seen = current_stat(&self.sv_stat);
        assert(saw_stat(self.sv_stat, seen));
        self.wait_on(seen.state, target)
    }

    /// Whether the wait for the group to be suspended is over.
    pub fn wait_until_suspended(&self) -> (wait: Wait)
        ensures
            exists|seen: SupervisorStat|
                {
                    &&& #[trigger] saw_stat(self.sv_stat, seen)
                    &&& wait == if seen.state == SupvervisorState::Suspend {
                        Wait::Over(self.sv_task_id)
                    } else {
                        Wait::AwaitChange
                    }
                },
    {
        self.wait_until(SupvervisorState::Suspend)
    }

    /// Whether the wait for `target` is over, after waiting for a change. It is
    /// over, too, where no change can come any more.
    pub fn wait_after_change(&self, target: SupvervisorState, changed: bool) -> (wait: Wait)
        ensures
            if changed {
                exists|seen: SupervisorStat|
                    {
                        &&& #[trigger] saw_stat(self.sv_stat, seen)
                        &&& wait == if seen.state == target {
                            Wait::Over(self.sv_task_id)
                        } else {
                            Wait::AwaitChange
                        }
                    }
            } else {
                wait == Wait::Over(self.sv_task_id)
            },
    {
        if changed {
            self.wait_until(target)
        } else {
            Wait::Over(self.sv_task_id)
        }
    }

    /// How a wait for the group to stop goes on, by what the group was seen to
    /// publish.
    pub open spec fn stop_awaited(self, seen: SupervisorStat) -> Wait {
        if seen.is_stopped() {
            Wait::Over(self.sv_task_id)
        } else {
            Wait::AwaitChange
        }
    }

    /// Whether the wait for the group to be suspended and its tasks to have stopped
    /// is over. A supervisor has no tasks of its own: it counts as stopped as soon
    /// as it is suspended, and its children go on.
    pub fn wait_until_stopped(&self) -> (wait: Wait)
        ensures
            exists|seen: SupervisorStat|
                {
                    &&& #[trigger] saw_stat(self.sv_stat, seen)
                    &&& wait == self.stop_awaited(seen)
                },
    {
        let seen = current_stat(&self.sv_stat);
        assert(saw_stat(self.sv_stat, seen));
        if seen.stopped() {
            Wait::Over(self.sv_task_id)
        } else {
            Wait::AwaitChange
        }
    }

    /// Whether the wait for the group to have stopped is over, after waiting for a
    /// change. It is over, too, where no change can come any more.
    pub fn stopped_after_change(&self, changed: bool) -> (wait: Wait)
        ensures
            if changed {
                exists|seen: SupervisorStat|
                    {
                        &&& #[trigger] saw_stat(self.sv_stat, seen)
                        &&& wait == self.stop_awaited(seen)
                    }
            } else {
                wait == Wait::Over(self.sv_task_id)
            },
    {
        if changed {
            self.wait_until_stopped()
        } else {
            Wait::Over(self.sv_task_id)
        }
    }

    /// How a wait for the group to run and then to be suspended goes on, by the
    /// state that the group was seen in.
    pub fn watch_on(&self, watch: Watch, seen: SupvervisorState) -> (next: (Watch, Wait))
        ensures
            next == self.watched(watch, seen),
    {
        match (watch, seen) {
            (_, SupvervisorState::Active) => (Watch::Running, Wait::AwaitChange),
            (Watch::Resuming, SupvervisorState::Suspend) => (Watch::Resuming, Wait::AwaitChange),
            (Watch::Running, SupvervisorState::Suspend) => (
                Watch::Running,
                Wait::Over(self.sv_task_id),
            ),
        }
    }

    /// How a wait for the group to run and then to be suspended goes on, by the
    /// state that the group was seen in.
    pub open spec fn watched(self, watch: Watch, seen: SupvervisorState) -> (Watch, Wait) {
        if seen == SupvervisorState::Active {
            (Watch::Running, Wait::AwaitChange)
        } else if watch == Watch::Running {
            (watch, Wait::Over(self.sv_task_id))
        } else {
            (watch, Wait::AwaitChange)
        }
    }

    /// How a wait for the group to run and then to be suspended goes on.
    pub fn watch_now(&self, watch: Watch) -> (next: (Watch, Wait))
        ensures
            exists|seen: SupervisorStat|
                {
                    &&& #[trigger] saw_stat(self.sv_stat, seen)
                    &&& next == self.watched(watch, seen.state)
                },
    {
        let seen = current_stat(&self.sv_stat);
        assert(saw_stat(self.sv_stat, seen));
        self.watch_on(watch, seen.state)
    }

    /// How a wait for the group to run and then to be suspended goes on, after
    /// waiting for a change. It is over where no change can come any more.
    pub fn watch_after_change(&self, watch: Watch, changed: bool) -> (next: (Watch, Wait))
        ensures
            if changed {
                exists|seen: SupervisorStat|
                    {
                        &&& #[trigger] saw_stat(self.sv_stat, seen)
                        &&& next == self.watched(watch, seen.state)
                    }
            } else {
                next == (watch, Wait::Over(self.sv_task_id))
            },
    {
        if changed {
            self.watch_now(watch)
        } else {
            (watch, Wait::Over(self.sv_task_id))
        }
    }

    /// Whether the wait for the group to end is over, after waiting for a change:
    /// the group has ended once no change can come any more.
    pub fn wait_until_exited(&self, changed: bool) -> (wait: Wait)
        ensures
            wait == if changed {
                Wait::AwaitChange
            } else {
                Wait::Over(self.sv_task_id)
            },
    {
        if changed {
            Wait::AwaitChange
        } else {
            Wait::Over(self.sv_task_id)
        }
    }
}

} // verus!
