//! Task identities: how ids are numbered and what an id says about its task.
use std::future::Future;
use std::ops::Deref;
use std::pin::Pin;
use tokio::task::{JoinError, JoinHandle};
use vstd::prelude::*;

verus! {

/// The number behind a task id.
pub type TaskIdRepr = u64;

/// What `try_current_task_id` reports outside of any task.
pub const NO_TASK: TaskIdRepr = 0;

/// The first value of the id counter.
pub const FIRST_TASK_ID: TaskIdRepr = 2;

/// Identity of a task.
#[derive(Debug, Clone, Copy, PartialEq, Eq, PartialOrd, Ord, Hash, Structural)]
pub struct TaskId(pub TaskIdRepr);

/// Whether a task does work or supervises other tasks.
#[derive(Debug, Clone, Copy, PartialEq, Eq, Structural)]
pub enum TaskKind {
    Worker,
    Super,
}

/// The kind that a task id stands for: odd ids belong to supervisors.
pub open spec fn kind_of_id(id: TaskIdRepr) -> TaskKind {
    if id % 2 == 1 {
        TaskKind::Super
    } else {
        TaskKind::Worker
    }
}

impl From<TaskIdRepr> for TaskKind {
    fn from(value: TaskIdRepr) -> (kind: Self) {
        assert(value & 1 == value % 2) by (bit_vector);
        if value & 1 == 1 {
            Self::Super
        } else {
            Self::Worker
        }
    }
}

impl vstd::std_specs::convert::FromSpecImpl<TaskIdRepr> for TaskKind {
    open spec fn obeys_from_spec() -> bool {
        true
    }

    open spec fn from_spec(value: TaskIdRepr) -> Self {
        kind_of_id(value)
    }
}

/// The id that a task of the given kind gets when the counter stands at `counter`.
pub open spec fn task_id_at(counter: TaskIdRepr, kind: TaskKind) -> int {
    match kind {
        TaskKind::Worker => counter as int,
        TaskKind::Super => counter - 1,
    }
}

/// Hands out task ids. The counter moves in steps of two, so that the two kinds
/// of task share it and the lowest bit of an id tells them apart.
pub struct TaskIds {
    next: TaskIdRepr,
}

impl TaskIds {
    #[verifier::type_invariant]
    spec fn even(self) -> bool {
        self.next % 2 == 0
    }

    /// Where the counter stands.
    pub closed spec fn counter(self) -> TaskIdRepr {
        self.next
    }

    /// Whether a task of this kind has an id at this point. Only a counter that
    /// has wrapped around to zero has none left below it for a supervisor.
    pub open spec fn available(self, kind: TaskKind) -> bool {
        0 <= task_id_at(self.counter(), kind)
    }

    /// A counter from which no id has been taken.
    pub fn new() -> (ids: Self)
        ensures
            ids.counter() == FIRST_TASK_ID,
    {
        TaskIds { next: FIRST_TASK_ID }
    }

    /// Whether `allocate` may be called for a task of this kind.
    pub fn can_allocate(&self, kind: TaskKind) -> (b: bool)
        ensures
            b == self.available(kind),
    {
        match kind {
            TaskKind::Worker => true,
            TaskKind::Super => self.next != 0,
        }
    }

    /// Takes the next id for a task of the given kind. The counter wraps around
    /// at the end of its range.
    pub fn allocate(&mut self, kind: TaskKind) -> (id: TaskIdRepr)
        requires
            old(self).available(kind),
        ensures
            id == task_id_at(old(self).counter(), kind),
            old(self).counter() % 2 == 0,
            final(self).counter() == (old(self).counter() + 2) % 0x1_0000_0000_0000_0000,
            final(self).counter() % 2 == 0,
            kind_of_id(id) == kind,
    {
        proof {
            use_type_invariant(&*self);
        }
        let current: TaskIdRepr = self.next;
        let following: TaskIdRepr = current.wrapping_add(2);
        self.next = following;
        match kind {
            TaskKind::Worker => current,
            TaskKind::Super => current - 1,
        }
    }
}

/// Ids taken at different points of the counter differ, whatever the kinds of
/// the two tasks, and the later id is the larger one.
pub proof fn law_task_ids_are_unique(
    first: TaskIdRepr,
    first_kind: TaskKind,
    second: TaskIdRepr,
    second_kind: TaskKind,
)
    requires
        first % 2 == 0,
        second % 2 == 0,
        first < second,
    ensures
        task_id_at(first, first_kind) < task_id_at(second, second_kind),
{
}

/// The kind of a task can be read off its id.
pub proof fn law_task_id_tells_kind(counter: TaskIdRepr, kind: TaskKind)
    requires
        counter % 2 == 0,
        0 <= task_id_at(counter, kind),
    ensures
        kind_of_id(task_id_at(counter, kind) as TaskIdRepr) == kind,
{
}

/// The id that stands for "no task" is never handed out, as long as the counter
/// has not wrapped around.
pub proof fn law_no_task_is_no_task_id(counter: TaskIdRepr, kind: TaskKind)
    requires
        counter >= FIRST_TASK_ID,
    ensures
        task_id_at(counter, kind) != NO_TASK,
{
}

/// A running task together with its id.
#[derive(Debug)]
#[verifier::reject_recursive_types(T)]
pub struct Pid<T> {
    pub inner: JoinHandle<T>,
    pub task_id: TaskIdRepr,
}

impl<T> Pid<T> {
    /// The id of the task.
    pub fn task_id(&self) -> (id: TaskId)
        ensures
            id == TaskId(self.task_id),
    {
        TaskId(self.task_id)
    }

    /// Asks the runtime to cancel the task.
    pub fn abort(&self)
        ensures
            self.aborted(),
    {
        self.inner.abort()
    }

    /// The runtime has been asked to cancel the task.
    pub open spec fn aborted(&self) -> bool {
        call_ensures(JoinHandle::<T>::abort, (&self.inner,), ())
    }
}

impl<T> Deref for Pid<T> {
    type Target = JoinHandle<T>;

    fn deref(&self) -> (handle: &JoinHandle<T>)
        ensures
            *handle == self.inner,
    {
        &self.inner
    }
}

/// What awaiting a task yields: its output and its id, or why it has none.
pub fn with_task_id<T>(res: Result<T, JoinError>, task_id: TaskIdRepr) -> (tagged: Result<
    (T, TaskIdRepr),
    JoinError,
>)
    ensures
        match res {
            Ok(t) => tagged == Ok::<(T, TaskIdRepr), JoinError>((t, task_id)),
            Err(e) => tagged == Err::<(T, TaskIdRepr), JoinError>(e),
        },
{
    match res {
        Ok(t) => Ok((t, task_id)),
        Err(e) => Err(e),
    }
}

impl<T> Future for Pid<T> {
    type Output = Result<(T, TaskIdRepr), JoinError>;

    /// Polls the `JoinHandle` of the task and passes a finished result through
    /// `with_task_id`. Whether the task has finished is up to the runtime, so
    /// nothing is claimed.
    #[verifier::external_body]
    fn poll(self: Pin<&mut Self>, cx: &mut std::task::Context<'_>) -> std::task::Poll<
        Self::Output,
    > {
        let pid = self.get_mut();
        let task_id = pid.task_id;
        Pin::new(&mut pid.inner).poll(cx).map(|res| with_task_id(res, task_id))
    }
}

/// Numbers a task and hands the number to `scope`, which makes it known inside
/// the future.
pub fn scope_with_task_id<T, S, G>(ids: &mut TaskIds, future: T, kind: TaskKind, scope: G) -> (res: (
    S,
    TaskIdRepr,
)) where G: FnOnce(TaskIdRepr, T) -> S
    requires
        old(ids).available(kind),
        call_requires(scope, (task_id_at(old(ids).counter(), kind) as TaskIdRepr, future)),
    ensures
        res.1 == task_id_at(old(ids).counter(), kind),
        kind_of_id(res.1) == kind,
        call_ensures(scope, (res.1, future), res.0),
        final(ids).counter() == (old(ids).counter() + 2) % 0x1_0000_0000_0000_0000,
{
    let task_id: TaskIdRepr = ids.allocate(kind);
    let fut = scope(task_id, future);
    (fut, task_id)
}

/// Numbers a task and starts it with `start`, which hands the future to the
/// runtime.
pub fn spawn<T, R, G>(ids: &mut TaskIds, future: T, kind: TaskKind, start: G) -> (pid: Pid<
    R,
>) where G: FnOnce(TaskIdRepr, T) -> JoinHandle<R>
    requires
        old(ids).available(kind),
        call_requires(start, (task_id_at(old(ids).counter(), kind) as TaskIdRepr, future)),
    ensures
        pid.task_id == task_id_at(old(ids).counter(), kind),
        kind_of_id(pid.task_id) == kind,
        call_ensures(start, (pid.task_id, future), pid.inner),
        final(ids).counter() == (old(ids).counter() + 2) % 0x1_0000_0000_0000_0000,
{
    let (inner, task_id): (JoinHandle<R>, TaskIdRepr) = scope_with_task_id(
        ids,
        future,
        kind,
        start,
    );
    Pid { inner, task_id }
}

/// What is reported of the task that is running: its id, where there is one.
pub open spec fn reported_id(current: Option<TaskIdRepr>) -> TaskIdRepr {
    match current {
        Some(id) => id,
        None => NO_TASK,
    }
}

/// The id of the task that is running. There must be one.
pub fn current_task_id(current: Option<TaskIdRepr>) -> (id: TaskIdRepr)
    requires
        current is Some,
    ensures
        Some(id) == current,
{
    current.unwrap()
}

/// The id of the task that is running, where one is.
pub fn try_current_task_id(current: Option<TaskIdRepr>) -> (id: TaskIdRepr)
    ensures
        id == reported_id(current),
{
    match current {
        Some(id) => id,
        None => NO_TASK,
    }
}

/// The id was handed out by a counter that has not wrapped around.
pub open spec fn handed_out(id: TaskIdRepr) -> bool {
    exists|counter: TaskIdRepr, kind: TaskKind|
        counter >= FIRST_TASK_ID && id == #[trigger] task_id_at(counter, kind)
}

/// What is reported outside of any task is never what is reported inside one, where
/// it is the id of that task.
pub proof fn law_no_task_is_reported_outside_of_tasks(current: Option<TaskIdRepr>)
    requires
        current matches Some(id) ==> handed_out(id),
    ensures
        reported_id(current) == NO_TASK <==> current is None,
        current matches Some(id) ==> reported_id(current) == id,
{
}

} // verus!
