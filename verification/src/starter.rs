//! How the tasks of a group come into being.
use crate::stopper::Stopper;
use crate::task::{Pid, TaskKind};
use crate::trusted;
use crate::trusted::running_push;
use futures::stream::FuturesUnordered;
use std::ops::Deref;
use std::sync::Arc;
use tokio::sync::Notify;
use vstd::prelude::*;

verus! {

/// The set became this by one task that was added to it.
pub closed spec fn added(
    before: FuturesUnordered<Pid<()>>,
    pid: Pid<()>,
    after: FuturesUnordered<Pid<()>>,
) -> bool {
    call_ensures(running_push, (before, pid), after)
}

/// The two functions that make a task: `make_fut` builds its future, `start` hands the
/// future to the runtime together with the signal on which the task is to stop. A task
/// comes into being through here only, goes right into the set of those that run, and
/// is kept on record.
#[verifier::reject_recursive_types(F)]
#[verifier::reject_recursive_types(S)]
pub struct Starter<F, S> {
    make_fut: F,
    start: S,
    log: Ghost<Seq<Pid<()>>>,
}

impl<F, S> Starter<F, S> {
    /// Builds the future of a task.
    pub closed spec fn make_fut(self) -> F {
        self.make_fut
    }

    /// Hands the future of a task to the runtime.
    pub closed spec fn start(self) -> S {
        self.start
    }

    /// The tasks that were started, in order.
    pub closed spec fn log(self) -> Seq<Pid<()>> {
        self.log@
    }

    /// These tasks were started, one after the other, and no other.
    pub open spec fn started_these(self, pids: Seq<Pid<()>>, after: Self) -> bool {
        &&& after.make_fut() == self.make_fut()
        &&& after.start() == self.start()
        &&& after.log() == self.log() + pids
    }

    pub fn new(make_fut: F, start: S) -> (starter: Self)
        ensures
            starter.make_fut() == make_fut,
            starter.start() == start,
            starter.log() == Seq::<Pid<()>>::empty(),
    {
        Starter { make_fut, start, log: Ghost(Seq::empty()) }
    }
}

impl<F, Fut, S> Starter<F, S> where
    F: Fn() -> Fut,
    S: Fn(Arc<Notify>, Fut, TaskKind) -> Pid<()>,
 {
    /// The two functions accept what they are called with.
    pub open spec fn can_start(self, notify: Arc<Notify>, kind: TaskKind) -> bool {
        &&& call_requires(self.make_fut(), ())
        &&& forall|fut: Fut| #[trigger] call_requires(self.start(), (notify, fut, kind))
    }

    /// The task was made by the two functions, with this signal, as a task of this
    /// kind.
    pub open spec fn made(self, notify: Arc<Notify>, kind: TaskKind, pid: Pid<()>) -> bool {
        exists|fut: Fut|
            {
                &&& #[trigger] call_ensures(self.make_fut(), (), fut)
                &&& call_ensures(self.start(), (notify, fut, kind), pid)
            }
    }

    /// Starts one task and adds it to those that run.
    pub fn start_in(
        &mut self,
        running: FuturesUnordered<Pid<()>>,
        stopper: &Stopper,
        kind: TaskKind,
    ) -> (res: (FuturesUnordered<Pid<()>>, Ghost<Pid<()>>))
        requires
            old(self).can_start(stopper.notify(), kind),
        ensures
            old(self).started_these(seq![res.1@], *final(self)),
            old(self).made(stopper.notify(), kind, res.1@),
            added(running, res.1@, res.0),
            trusted::running_ids(res.0) == trusted::running_ids(running).insert(res.1@.task_id),
    {
        let notify = stopper.deref().clone();
        let fut = (self.make_fut)();
        assert(call_requires(self.start(), (notify, fut, kind)));
        let pid = (self.start)(notify, fut, kind);
        let ghost started = pid;
        let after = running_push(running, pid);
        proof {
            assert(self.log@.push(started) =~= self.log@ + seq![started]);
            self.log@ = self.log@.push(started);
        }
        (after, Ghost(started))
    }
}

} // verus!
