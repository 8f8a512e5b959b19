//! A root supervisor and the futures that run beside it.
use crate::mailbox::{MailboxState, MailboxTask};
use crate::supervisor::{
    supervisor, SupervisedChild, Supervisor, SupervisorImpl, SupervisorStrategy,
};
use crate::task::{Pid, TaskKind};
use crate::trusted;
use std::time::Duration;
use vstd::prelude::*;

verus! {

/// A future that is to run beside the root supervisor, before and after it was
/// started.
pub enum Task<Fut> {
    Fut(Fut),
    Spawned(Pid<()>),
}

impl<Fut> Task<Fut> {
    /// Stops the task where it runs.
    pub fn abort(&mut self)
        ensures
            *final(self) == *old(self),
            *old(self) matches Task::Spawned(pid) ==> pid.aborted(),
    {
        match self {
            Task::Fut(_) => {},
            Task::Spawned(pid) => pid.abort(),
        }
    }
}

/// The root supervisor and the futures.
#[verifier::reject_recursive_types(M)]
pub struct Inner<M, Fut> {
    pub root: Supervisor<M>,
    pub tasks: Vec<Task<Fut>>,
}

/// A runtime that is running.
#[verifier::reject_recursive_types(M)]
pub struct RuntimeGuard<M, Fut> {
    pub inner: Inner<M, Fut>,
}

/// The task is the one that was made of the given one by `start`.
pub open spec fn started_with<Fut, R>(start: R, before: Task<Fut>, after: Task<Fut>) -> bool where
    R: Fn(Fut, TaskKind) -> Pid<()>,
 {
    match before {
        Task::Fut(fut) => {
            &&& after matches Task::Spawned(pid)
            &&& call_ensures(start, (fut, TaskKind::Worker), pid)
        },
        Task::Spawned(_) => after == before,
    }
}

impl<M, Fut> RuntimeGuard<M, Fut> {
    /// Starts the futures that have not been started, in their order.
    pub fn spawn_task_futures<R>(&mut self, start: R) where R: Fn(Fut, TaskKind) -> Pid<()>
        requires
            forall|fut: Fut| #[trigger] call_requires(start, (fut, TaskKind::Worker)),
        ensures
            final(self).inner.root == old(self).inner.root,
            final(self).inner.tasks@.len() == old(self).inner.tasks@.len(),
            forall|i: int|
                0 <= i < old(self).inner.tasks@.len() ==> started_with(
                    start,
                    old(self).inner.tasks@[i],
                    #[trigger] final(self).inner.tasks@[i],
                ),
    {
        let mut tasks: Vec<Task<Fut>> = Vec::new();
        std::mem::swap(&mut self.inner.tasks, &mut tasks);
        let ghost before = tasks@;
        let mut started: Vec<Task<Fut>> = Vec::new();
        for task in it: tasks
            invariant
                it.seq() == before,
                started@.len() == it.index(),
                forall|fut: Fut| #[trigger] call_requires(start, (fut, TaskKind::Worker)),
                forall|i: int|
                    0 <= i < it.index() ==> started_with(
                        start,
                        before[i],
                        #[trigger] started@[i],
                    ),
        {
            let next = match task {
                Task::Fut(fut) => Task::Spawned(start(fut, TaskKind::Worker)),
                Task::Spawned(_) => task,
            };
            started.push(next);
        }
        self.inner.tasks = started;
    }

    /// Stops the futures, in their order. What is left is to tell the root
    /// supervisor to exit within the given time.
    pub fn exit(self) -> (left: (Supervisor<M>, Duration))
        ensures
            left.0 == self.inner.root,
            left.1 == trusted::duration_from_secs(1),
            forall|i: int|
                0 <= i < self.inner.tasks@.len() ==> ((#[trigger] self.inner.tasks@[i]) matches
                    Task::Spawned(pid) ==> pid.aborted()),
    {
        let ghost before = self.inner.tasks@;
        let Inner { root, tasks } = self.inner;
        for task in it: tasks
            invariant
                it.seq() == before,
                forall|i: int|
                    0 <= i < it.index() ==> ((#[trigger] before[i]) matches Task::Spawned(pid)
                        ==> pid.aborted()),
        {
            let mut task = task;
            task.abort();
        }
        (root, Duration::from_secs(1))
    }
}

/// Collects futures that are to run beside a root supervisor.
#[verifier::reject_recursive_types(M)]
pub struct Runtime<M, Fut> {
    pub inner: Option<Inner<M, Fut>>,
}

impl<M, Fut> Runtime<M, Fut> {
    /// A runtime without futures, with a root supervisor that restarts only the
    /// child that stopped. The root is made and started as in `supervisor`.
    pub fn new<F, S, R, G>(make_fut: F, start: S, run_mailbox: R, run: G) -> (runtime: Self) where
        R: FnOnce(MailboxTask<M>, TaskKind) -> Pid<()>,
        G: FnOnce(SupervisorImpl<M, F, S>, TaskKind) -> Pid<()>,

        requires
            forall|task: MailboxTask<M>|
                task.mbox@ == MailboxState::<M>::empty() ==> #[trigger] call_requires(
                    run_mailbox,
                    (task, TaskKind::Worker),
                ),
            forall|sv: SupervisorImpl<M, F, S>|
                sv.strategy == SupervisorStrategy::OneForOne && sv.children@ == Seq::<
                    SupervisedChild<M>,
                >::empty() ==> #[trigger] call_requires(run, (sv, TaskKind::Super)),
        ensures
            runtime.inner is Some,
            runtime.inner->0.tasks@ == Seq::<Task<Fut>>::empty(),
            exists|sv: SupervisorImpl<M, F, S>|
                {
                    &&& #[trigger] runtime.inner->0.root.controls(
                        sv,
                        SupervisorStrategy::OneForOne,
                        make_fut,
                        start,
                        run_mailbox,
                    )
                    &&& call_ensures(
                        run,
                        (sv, TaskKind::Super),
                        runtime.inner->0.root.sv_group.inner.sv_handle.pid(),
                    )
                },
    {
        let root = supervisor(SupervisorStrategy::OneForOne, make_fut, start, run_mailbox, run);
        let runtime = Runtime { inner: Some(Inner { root, tasks: Vec::new() }) };
        assert(runtime.inner->0.root == root);
        runtime
    }

    /// Begins to run.
    pub fn into_guard(self) -> (guard: RuntimeGuard<M, Fut>)
        requires
            self.inner is Some,
        ensures
            self.inner == Some(guard.inner),
    {
        RuntimeGuard { inner: self.inner.unwrap() }
    }

    /// Adds a future that is started when the runtime begins to run.
    pub fn spawn_with(self, fut: Fut) -> (runtime: Self)
        requires
            self.inner is Some,
        ensures
            runtime.inner matches Some(inner) && inner.root == self.inner->0.root && inner.tasks@
                == self.inner->0.tasks@.push(Task::Fut(fut)),
    {
        let mut inner = self.inner.unwrap();
        inner.tasks.push(Task::Fut(fut));
        Runtime { inner: Some(inner) }
    }

    /// Begins to run and starts the futures with `start`. When the future that is
    /// run beside them is finished, `RuntimeGuard::exit` is to be called.
    pub fn block_on<R>(self, start: R) -> (guard: RuntimeGuard<M, Fut>) where
        R: Fn(Fut, TaskKind) -> Pid<()>,

        requires
            self.inner is Some,
            forall|fut: Fut| #[trigger] call_requires(start, (fut, TaskKind::Worker)),
        ensures
            guard.inner.root == self.inner->0.root,
            guard.inner.tasks@.len() == self.inner->0.tasks@.len(),
            forall|i: int|
                0 <= i < guard.inner.tasks@.len() ==> started_with(
                    start,
                    self.inner->0.tasks@[i],
                    #[trigger] guard.inner.tasks@[i],
                ),
    {
        let mut guard = self.into_guard();
        guard.spawn_task_futures(start);
        guard
    }
}

/// A future is started once: what was started is left as it is when the futures are
/// started again.
pub proof fn law_futures_are_started_once<Fut, R, Q>(
    first: R,
    second: Q,
    before: Task<Fut>,
    between: Task<Fut>,
    after: Task<Fut>,
) where R: Fn(Fut, TaskKind) -> Pid<()>, Q: Fn(Fut, TaskKind) -> Pid<()>
    requires
        started_with(first, before, between),
        started_with(second, between, after),
    ensures
        between is Spawned,
        after == between,
        before is Spawned ==> between == before,
{
}

} // verus!
