//! A child in the care of its supervisor.
use crate::group::GroupRef;
use crate::simple_supervisor::SupvervisorState;
use crate::supervisor::Child;
use crate::task::TaskIdRepr;
use std::ops::Deref;
use vstd::prelude::*;

verus! {

/// A child in the care of its supervisor. While it is in care, signals reach it
/// through here only, and are kept on record.
#[verifier::reject_recursive_types(M)]
pub struct Ward<M> {
    child: Child<M>,
    sent: Ghost<Seq<(SupvervisorState, bool)>>,
}

impl<M> Ward<M> {
    /// The child.
    pub closed spec fn child(self) -> Child<M> {
        self.child
    }

    /// The signals that the child was sent in this care, in order, each with whether it
    /// was received.
    pub closed spec fn sent(self) -> Seq<(SupvervisorState, bool)> {
        self.sent@
    }

    /// The same child after it was sent a signal.
    pub closed spec fn after_signal(self, state: SupvervisorState, received: bool) -> Self {
        Ward { child: self.child, sent: Ghost(self.sent@.push((state, received))) }
    }

    /// Takes a child into care.
    pub fn new(child: Child<M>) -> (ward: Self)
        ensures
            ward.child() == child,
            ward.sent() == Seq::<(SupvervisorState, bool)>::empty(),
        opens_invariants none
    {
        Ward { child, sent: Ghost(Seq::empty()) }
    }

    /// Sends a signal to the child. Tells whether it was received.
    pub fn signal(&mut self, state: SupvervisorState) -> (received: bool)
        ensures
            *final(self) == old(self).after_signal(state, received),
            old(self).child().group().signalled(state, received),
    {
        let res = match state {
            SupvervisorState::Suspend => self.child.deref().suspend(),
            SupvervisorState::Active => self.child.deref().resume(),
        };
        let received = res.is_ok();
        proof {
            self.sent@ = self.sent@.push((state, received));
        }
        received
    }

    /// A handle that observes the child.
    pub fn group_ref(&self) -> (group_ref: GroupRef)
        ensures
            group_ref.observes(self.child().group()),
        opens_invariants none
    {
        match &self.child {
            Child::Worker(group) => group.to_group_ref(),
            Child::Super(supervisor) => supervisor.sv_group.to_group_ref(),
        }
    }

    /// The id of the child.
    pub fn task_id(&self) -> (id: TaskIdRepr)
        ensures
            id == self.child().group().id(),
        opens_invariants none
        no_unwind
    {
        match &self.child {
            Child::Worker(group) => group.task_id(),
            Child::Super(supervisor) => supervisor.sv_group.task_id(),
        }
    }

    /// Gives the child out of care.
    pub fn into_child(self) -> (child: Child<M>)
        ensures
            child == self.child(),
        opens_invariants none
        no_unwind
    {
        self.child
    }
}

/// A signal is added to the record, and the child stays the same.
pub broadcast proof fn lemma_after_signal<M>(
    ward: Ward<M>,
    state: SupvervisorState,
    received: bool,
)
    ensures
        (#[trigger] ward.after_signal(state, received)).child() == ward.child(),
        ward.after_signal(state, received).sent() == ward.sent().push((state, received)),
{
}

} // verus!
