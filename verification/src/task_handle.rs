//! The task of a supervisor, in the hands of whoever controls the supervisor.
use crate::task::{Pid, TaskIdRepr};
use crate::trusted;
use crate::trusted::running_push;
use futures::stream::FuturesUnordered;
use vstd::prelude::*;

verus! {

/// The set became this by the task behind the handle, which was added to it.
pub closed spec fn joined(
    before: FuturesUnordered<Pid<()>>,
    handle: Handle,
    after: FuturesUnordered<Pid<()>>,
) -> bool {
    call_ensures(running_push, (before, handle.pid), after)
}

/// The task of a supervisor. It can be cancelled only by giving the handle up, so
/// whoever still has the handle that it was given has not cancelled the task.
#[derive(Debug)]
pub struct Handle {
    pid: Pid<()>,
}

impl Handle {
    /// The task.
    pub closed spec fn pid(self) -> Pid<()> {
        self.pid
    }

    pub fn new(pid: Pid<()>) -> (handle: Self)
        ensures
            handle.pid() == pid,
    {
        Handle { pid }
    }

    /// The id of the task.
    pub fn task_id(&self) -> (id: TaskIdRepr)
        ensures
            id == self.pid().task_id,
        opens_invariants none
        no_unwind
    {
        self.pid.task_id
    }

    /// The task itself.
    pub fn into_pid(self) -> (pid: Pid<()>)
        ensures
            pid == self.pid(),
        opens_invariants none
        no_unwind
    {
        self.pid
    }

    /// Adds the task to a set of tasks that are waited for.
    pub fn join(self, futs: FuturesUnordered<Pid<()>>) -> (after: FuturesUnordered<Pid<()>>)
        ensures
            joined(futs, self, after),
            trusted::running_ids(after) == trusted::running_ids(futs).insert(self.pid().task_id),
        opens_invariants none
    {
        running_push(futs, self.pid)
    }

    /// Asks the runtime to cancel the task.
    pub fn abort(self)
        ensures
            self.pid().aborted(),
    {
        self.pid.abort()
    }
}

} // verus!
