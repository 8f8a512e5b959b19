//! The signal on which the tasks of a group stop.
use crate::publisher::Publisher;
use crate::simple_supervisor;
use std::ops::Deref;
use std::sync::Arc;
use tokio::sync::Notify;
use vstd::prelude::*;

verus! {

/// Whoever wakes the waiting tasks keeps a record of it.
pub closed spec fn on_record(notify: Notify) -> bool {
    call_ensures(record, (&notify,), ())
}

fn record(_notify: &Notify) {
}

/// The signal on which the tasks of a group stop. The tasks are woken through here
/// only, and each time is kept on record.
pub struct Stopper {
    notify: Arc<Notify>,
    log: Ghost<Seq<nat>>,
}

impl Stopper {
    /// The signal that the tasks wait for.
    pub closed spec fn notify(self) -> Arc<Notify> {
        self.notify
    }

    /// The times at which the tasks were told to stop: each is given by how much the
    /// group had published by then.
    pub closed spec fn log(self) -> Seq<nat> {
        self.log@
    }

    /// The tasks were told to stop, once, when the group had published this.
    pub open spec fn told_once(self, publisher: Publisher, after: Self) -> bool {
        &&& after.notify() == self.notify()
        &&& after.log() == self.log().push(publisher.log().len())
        &&& simple_supervisor::notified(*self.notify())
    }

    /// A new signal, which nobody waits for yet.
    pub fn new() -> (stopper: Self)
        ensures
            call_ensures(Notify::new, (), *stopper.notify()),
            stopper.log() == Seq::<nat>::empty(),
    {
        Stopper { notify: Arc::new(Notify::new()), log: Ghost(Seq::empty()) }
    }

    /// Tells the tasks that wait for the signal to stop.
    pub fn tell(&mut self, publisher: &Publisher)
        ensures
            old(self).told_once(*publisher, *final(self)),
    {
        record(&self.notify);
        self.notify.notify_waiters();
        proof {
            self.log@ = self.log@.push(publisher.log().len());
        }
    }
}

impl Deref for Stopper {
    type Target = Arc<Notify>;

    fn deref(&self) -> (notify: &Arc<Notify>)
        ensures
            *notify == self.notify(),
    {
        &self.notify
    }
}

} // verus!
