//! The channel on which a group publishes itself.
use crate::simple_supervisor;
use crate::simple_supervisor::SupervisorStat;
use tokio::sync::watch;
use vstd::prelude::*;

verus! {

/// The sending half of the channel on which a group publishes itself. All that goes
/// into the channel goes through here, and is kept on record.
pub struct Publisher {
    stat: watch::Sender<SupervisorStat>,
    log: Ghost<Seq<SupervisorStat>>,
}

impl Publisher {
    /// The channel.
    pub closed spec fn channel(self) -> watch::Sender<SupervisorStat> {
        self.stat
    }

    /// What was published, in order.
    pub closed spec fn log(self) -> Seq<SupervisorStat> {
        self.log@
    }

    /// This was published, once, and nothing else.
    pub open spec fn published_once(self, current: SupervisorStat, after: Self) -> bool {
        &&& after.channel() == self.channel()
        &&& after.log() == self.log().push(current)
        &&& simple_supervisor::published(self.channel(), current)
    }

    pub fn new(stat: watch::Sender<SupervisorStat>) -> (publisher: Self)
        ensures
            publisher.channel() == stat,
            publisher.log() == Seq::<SupervisorStat>::empty(),
    {
        Publisher { stat, log: Ghost(Seq::empty()) }
    }

    /// Publishes what a group says of itself. Nobody needs to listen.
    pub fn publish(&mut self, current: SupervisorStat)
        ensures
            old(self).published_once(current, *final(self)),
    {
        let _ = self.stat.send(current);
        proof {
            self.log@ = self.log@.push(current);
        }
    }
}

} // verus!
