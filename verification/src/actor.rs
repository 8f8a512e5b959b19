//! Actors: a state, a mailbox of requests, and a service that answers them one
//! at a time.
use crate::mailbox::{
    mailbox, MailboxReceiver, MailboxSender, MailboxState, MailboxTask, Message,
};
use crate::task::{Pid, TaskKind};
use std::ops::ControlFlow;
use tokio::sync::mpsc;
use vstd::prelude::*;

verus! {

/// A request together with the state of the actor that is to answer it.
#[verifier::reject_recursive_types(T)]
pub struct Context<'a, T, U> {
    pub state: &'a mut T,
    pub inner: U,
}

impl<'a, T, U> Context<'a, T, U> {
    /// What the state holds.
    pub open spec fn held(self) -> T {
        *self.state
    }

    /// The state.
    pub fn as_ref(&self) -> (t: &T)
        ensures
            *t == self.held(),
    {
        &self.state
    }

    /// The state, to be changed.
    pub fn as_mut(&mut self) -> (t: &mut T)
        ensures
            *t == old(self).held(),
            final(self).held() == *final(t),
            *final(old(self).state) == *final(final(self).state),
            final(self).inner == old(self).inner,
    {
        self.state
    }

    /// The state and the request.
    pub fn into_parts(self) -> (parts: (&'a mut T, U))
        ensures
            *parts.0 == self.held(),
            *final(parts.0) == *final(self.state),
            parts.1 == self.inner,
    {
        (self.state, self.inner)
    }
}

/// Makes a request ready for an actor with a state of type `T`.
pub trait IntoContext<'a, T> {
    /// The request together with the state.
    fn into_context(self, t: &'a mut T) -> (cx: Context<'a, T, Self>) where Self: Sized
        ensures
            cx.held() == *old(t),
            *final(cx.state) == *final(t),
            cx.inner == self,
    ;
}

impl<'a, T, U> IntoContext<'a, T> for U {
    fn into_context(self, t: &'a mut T) -> (cx: Context<'a, T, Self>) where Self: Sized {
        Context { state: t, inner: self }
    }
}

/// The state of a running actor between two requests.
pub struct ActorLoop<T> {
    pub state: T,
}

impl<T> ActorLoop<T> {
    pub fn new(state: T) -> (actor: Self)
        ensures
            actor.state == state,
    {
        ActorLoop { state }
    }

    /// What the service is called with for a request.
    pub fn context<U>(&mut self, request: U) -> (cx: Context<'_, T, U>)
        ensures
            cx.held() == old(self).state,
            cx.inner == request,
            final(self).state == *final(cx.state),
    {
        request.into_context(&mut self.state)
    }

    /// Whether the actor goes on, by whether its service was ready for the
    /// request. The request of a service that was not ready is dropped.
    pub fn after_ready(&self, ready: bool) -> (flow: ControlFlow<()>)
        ensures
            flow == if ready {
                ControlFlow::<()>::Continue(())
            } else {
                ControlFlow::<()>::Break(())
            },
    {
        if ready {
            ControlFlow::Continue(())
        } else {
            ControlFlow::Break(())
        }
    }
}

/// An actor: the future that answers its requests, and a way to its mailbox that
/// does not keep the mailbox open.
#[verifier::reject_recursive_types(U)]
pub struct Actor<Fut, U> {
    pub fut: Fut,
    pub chan: mpsc::WeakSender<Message<U>>,
}

impl<Fut, U> Actor<Fut, U> {
    /// A sender to the mailbox of the actor, unless the mailbox is closed.
    pub fn sender(&self) -> (sender: Option<MailboxSender<U>>)
        ensures
            match sender {
                Some(sender) => call_ensures(
                    mpsc::WeakSender::<Message<U>>::upgrade,
                    (&self.chan,),
                    Some(sender.0.0),
                ),
                None => call_ensures(
                    mpsc::WeakSender::<Message<U>>::upgrade,
                    (&self.chan,),
                    None::<mpsc::Sender<Message<U>>>,
                ),
            },
    {
        match self.chan.upgrade() {
            Some(tx) => Some(MailboxSender::from_raw(tx)),
            None => None,
        }
    }

    /// The future and the way to the mailbox.
    pub fn into_parts(self) -> (parts: (Fut, mpsc::WeakSender<Message<U>>))
        ensures
            parts == (self.fut, self.chan),
    {
        (self.fut, self.chan)
    }
}

/// Makes an actor out of a state and a service. `run_mailbox` starts its mailbox,
/// as in `mailbox`, and `answer` makes the future that receives each request and
/// hands it to the service.
pub fn actor<T, U, V, Fut, R, G>(state: T, service: V, run_mailbox: R, answer: G) -> (actor: Actor<
    Fut,
    U,
>) where
    R: FnOnce(MailboxTask<U>, TaskKind) -> Pid<()>,
    G: FnOnce(ActorLoop<T>, MailboxReceiver<U>, V) -> Fut,

    requires
        forall|task: MailboxTask<U>|
            task.mbox@ == MailboxState::<U>::empty() ==> #[trigger] call_requires(
                run_mailbox,
                (task, TaskKind::Worker),
            ),
        forall|rx: MailboxReceiver<U>| #[trigger]
            call_requires(answer, (ActorLoop { state }, rx, service)),
    ensures
        exists|tx: MailboxSender<U>, rx: MailboxReceiver<U>|
            {
                &&& #[trigger] crate::mailbox::lead_to_mailbox((tx, rx), 1, run_mailbox)
                &&& call_ensures(answer, (ActorLoop { state }, rx, service), actor.fut)
                &&& call_ensures(
                    mpsc::Sender::<Message<U>>::downgrade,
                    (&tx.0.0,),
                    actor.chan,
                )
            },
{
    let (tx, rx) = mailbox(1, run_mailbox);
    assert(crate::mailbox::lead_to_mailbox((tx, rx), 1, run_mailbox));
    let fut = answer(ActorLoop::new(state), rx, service);
    let raw = tx.into_raw();
    let chan = raw.downgrade();
    Actor { fut, chan }
}

} // verus!
