//! A queue that survives its readers: messages wait for a reader, readers wait
//! for a message, and a message that a vanished reader could not take goes to
//! the next one or back into the queue. A reader that vanishes with a message in
//! its hands gives the message back.
use crate::task::{Pid, TaskKind};
use std::collections::VecDeque;
use std::ops::Deref;
use tokio::sync::{mpsc, oneshot};
use vstd::prelude::*;

verus! {

/// A message on its way to a reader, with its number in the order of arrival.
#[derive(Debug)]
pub struct Delivery<T> {
    pub number: u64,
    pub message: T,
}

/// The queue behind a mailbox channel.
#[verifier::reject_recursive_types(T)]
pub struct Mailbox<T> {
    message_queue: VecDeque<Delivery<T>>,
    pending_readers: VecDeque<oneshot::Sender<Delivery<T>>>,
    next: u64,
}

/// What a mailbox holds: messages that nobody has taken and readers that wait,
/// both oldest first, and the number of the message that arrives next.
#[verifier::ext_equal]
#[verifier::reject_recursive_types(T)]
pub struct MailboxState<T> {
    pub messages: Seq<Delivery<T>>,
    pub readers: Seq<oneshot::Sender<Delivery<T>>>,
    pub next: u64,
}

impl<T> View for Mailbox<T> {
    type V = MailboxState<T>;

    closed spec fn view(&self) -> MailboxState<T> {
        MailboxState {
            messages: self.message_queue@,
            readers: self.pending_readers@,
            next: self.next,
        }
    }
}

/// The reader was offered the message and it was put into its hands.
pub open spec fn took<T>(reader: oneshot::Sender<T>, message: T) -> bool {
    call_ensures(oneshot::Sender::<T>::send, (reader, message), Ok::<(), T>(()))
}

/// The reader was offered the message and was gone: the message came back.
pub open spec fn refused<T>(reader: oneshot::Sender<T>, message: T) -> bool {
    call_ensures(oneshot::Sender::<T>::send, (reader, message), Err::<(), T>(message))
}

/// Offers a message to a reader. Gives it back where the reader is gone.
fn offer<T>(reader: oneshot::Sender<T>, message: T) -> (back: Option<T>)
    ensures
        match back {
            None => took(reader, message),
            Some(t) => t == message && refused(reader, message),
        },
{
    let res = reader.send(message);
    match res {
        Ok(u) => {
            assert(res == Ok::<(), T>(u));
            None
        },
        Err(t) => Some(t),
    }
}

/// The number after this one. The last number is not left any more.
pub open spec fn number_after(number: u64) -> u64 {
    if number < u64::MAX {
        (number + 1) as u64
    } else {
        number
    }
}

/// Where a message with this number belongs among messages in the order of
/// arrival: behind the last one that is not younger.
pub open spec fn place_of<T>(messages: Seq<Delivery<T>>, number: u64) -> int
    decreases messages.len(),
{
    if messages.len() == 0 || messages.last().number <= number {
        messages.len() as int
    } else {
        place_of(messages.drop_last(), number)
    }
}

impl<T> MailboxState<T> {
    /// A mailbox in which nothing waits.
    pub open spec fn empty() -> Self {
        MailboxState { messages: Seq::empty(), readers: Seq::empty(), next: 0 }
    }

    /// Messages and readers do not wait side by side.
    pub open spec fn wf(self) -> bool {
        self.messages.len() == 0 || self.readers.len() == 0
    }

    /// A message that arrives now, with its number.
    pub open spec fn numbered(self, message: T) -> Delivery<T> {
        Delivery { number: self.next, message }
    }

    /// Each of the first `gone` waiting readers was offered the message and was
    /// gone, and the one after them, if there is one, took it.
    pub open spec fn offered(self, delivery: Delivery<T>, gone: int) -> bool {
        &&& 0 <= gone <= self.readers.len()
        &&& forall|i: int| 0 <= i < gone ==> refused(#[trigger] self.readers[i], delivery)
        &&& gone < self.readers.len() ==> took(self.readers[gone], delivery)
    }

    /// The mailbox after a message arrived that the first `gone` waiting readers
    /// could not take: the next reader has it, or it waits behind the others.
    pub open spec fn after_push(self, message: T, gone: int) -> Self {
        if gone < self.readers.len() {
            MailboxState {
                messages: self.messages,
                readers: self.readers.skip(gone + 1),
                next: number_after(self.next),
            }
        } else {
            MailboxState {
                messages: self.messages.push(self.numbered(message)),
                readers: Seq::empty(),
                next: number_after(self.next),
            }
        }
    }

    /// The mailbox after a message was given back that the first `gone` waiting
    /// readers could not take: the next reader has it, or it waits where it
    /// belongs in the order of arrival.
    pub open spec fn after_return(self, delivery: Delivery<T>, gone: int) -> Self {
        if gone < self.readers.len() {
            MailboxState {
                messages: self.messages,
                readers: self.readers.skip(gone + 1),
                next: self.next,
            }
        } else {
            MailboxState {
                messages: self.messages.insert(
                    place_of(self.messages, delivery.number),
                    delivery,
                ),
                readers: Seq::empty(),
                next: self.next,
            }
        }
    }

    /// The mailbox after a reader asked for a message, which takes the oldest
    /// one unless it is gone, and waits where there is none.
    pub open spec fn after_pop(self, reader: oneshot::Sender<Delivery<T>>, taken: bool) -> Self {
        if self.messages.len() == 0 {
            MailboxState {
                messages: self.messages,
                readers: self.readers.push(reader),
                next: self.next,
            }
        } else if taken {
            MailboxState {
                messages: self.messages.skip(1),
                readers: self.readers,
                next: self.next,
            }
        } else {
            self
        }
    }

    /// The reader was offered the oldest message, where there is one, and took
    /// it or not as `taken` says.
    pub open spec fn served(self, reader: oneshot::Sender<Delivery<T>>, taken: bool) -> bool {
        self.messages.len() > 0 ==> if taken {
            took(reader, self.messages[0])
        } else {
            refused(reader, self.messages[0])
        }
    }
}

/// What the two ends of a mailbox channel ask of the mailbox.
#[derive(Debug)]
#[verifier::reject_recursive_types(T)]
pub enum Message<T> {
    Push(T),
    Pop(oneshot::Sender<Delivery<T>>),
}

/// One step of a mailbox, with what the readers did: how many waiting readers
/// were gone when a message came, or whether a reader took what it was offered.
#[verifier::reject_recursive_types(T)]
pub enum MailboxStep<T> {
    Push { message: T, gone: int },
    Pop { reader: oneshot::Sender<Delivery<T>>, taken: bool },
    Return { delivery: Delivery<T>, gone: int },
}

impl<T> MailboxState<T> {
    /// The step is one that the mailbox takes from here.
    pub open spec fn allows(self, step: MailboxStep<T>) -> bool {
        match step {
            MailboxStep::Push { message, gone } => self.offered(self.numbered(message), gone),
            MailboxStep::Pop { reader, taken } => self.served(reader, taken),
            MailboxStep::Return { delivery, gone } => self.offered(delivery, gone),
        }
    }

    /// The mailbox after one step.
    pub open spec fn after(self, step: MailboxStep<T>) -> Self {
        match step {
            MailboxStep::Push { message, gone } => self.after_push(message, gone),
            MailboxStep::Pop { reader, taken } => self.after_pop(reader, taken),
            MailboxStep::Return { delivery, gone } => self.after_return(delivery, gone),
        }
    }

    /// The message that one step puts into the hands of a reader, if it does so.
    pub open spec fn handed(self, step: MailboxStep<T>) -> Seq<Delivery<T>> {
        match step {
            MailboxStep::Push { message, gone } => if gone < self.readers.len() {
                seq![self.numbered(message)]
            } else {
                Seq::empty()
            },
            MailboxStep::Pop { reader, taken } => if self.messages.len() > 0 && taken {
                seq![self.messages[0]]
            } else {
                Seq::empty()
            },
            MailboxStep::Return { delivery, gone } => if gone < self.readers.len() {
                seq![delivery]
            } else {
                Seq::empty()
            },
        }
    }

    /// The mailbox after these messages were given back, one after the other, with
    /// as many waiting readers gone at each as `gone` says.
    pub open spec fn after_returns(self, deliveries: Seq<Delivery<T>>, gone: Seq<int>) -> Self
        decreases deliveries.len(),
    {
        if deliveries.len() == 0 {
            self
        } else {
            self.after_returns(deliveries.drop_last(), gone.drop_last()).after_return(
                deliveries.last(),
                gone.last(),
            )
        }
    }

    /// Each of these messages was offered to the readers that waited then.
    pub open spec fn all_offered(self, deliveries: Seq<Delivery<T>>, gone: Seq<int>) -> bool
        decreases deliveries.len(),
    {
        &&& gone.len() == deliveries.len()
        &&& deliveries.len() > 0 ==> {
            &&& self.all_offered(deliveries.drop_last(), gone.drop_last())
            &&& self.after_returns(deliveries.drop_last(), gone.drop_last()).offered(
                deliveries.last(),
                gone.last(),
            )
        }
    }

    /// The mailbox took one step from here, and is this afterwards.
    pub open spec fn stepped(self, step: MailboxStep<T>, after: Self) -> bool {
        &&& self.allows(step)
        &&& after == self.after(step)
    }

    /// A message arrived, and the mailbox is this afterwards.
    pub open spec fn pushed(self, message: T, after: Self) -> bool {
        exists|gone: int| #[trigger] self.stepped(MailboxStep::Push { message, gone }, after)
    }

    /// A reader asked for a message, and the mailbox is this afterwards.
    pub open spec fn popped(self, reader: oneshot::Sender<Delivery<T>>, after: Self) -> bool {
        exists|taken: bool| #[trigger] self.stepped(MailboxStep::Pop { reader, taken }, after)
    }

    /// The mailbox did what the message asks for.
    pub open spec fn handled(self, m: Message<T>, after: Self) -> bool {
        match m {
            Message::Push(message) => self.pushed(message, after),
            Message::Pop(reader) => self.popped(reader, after),
        }
    }
}

impl<T> Mailbox<T> {
    /// A mailbox in which nothing waits.
    pub fn new() -> (mbox: Self)
        ensures
            mbox@ == MailboxState::<T>::empty(),
    {
        let mbox = Mailbox {
            message_queue: VecDeque::new(),
            pending_readers: VecDeque::new(),
            next: 0,
        };
        assert(mbox@ =~= MailboxState::<T>::empty());
        mbox
    }

    /// Offers a message to the waiting readers, the one that has waited longest
    /// first, until one takes it. Gives it back where none does.
    fn offer_to_readers(&mut self, delivery: Delivery<T>) -> (back: Option<Delivery<T>>)
        ensures
            final(self)@.messages == old(self)@.messages,
            final(self)@.next == old(self)@.next,
            exists|gone: int|
                {
                    &&& #[trigger] old(self)@.offered(delivery, gone)
                    &&& if gone < old(self)@.readers.len() {
                        back is None && final(self)@.readers == old(self)@.readers.skip(gone + 1)
                    } else {
                        back == Some(delivery) && final(self)@.readers.len() == 0
                    }
                },
    {
        let mut current = delivery;
        let ghost mut gone: int = 0;
        loop
            invariant
                current == delivery,
                0 <= gone <= old(self)@.readers.len(),
                self.pending_readers@ == old(self)@.readers.skip(gone),
                self.message_queue@ == old(self)@.messages,
                self.next == old(self)@.next,
                forall|i: int|
                    0 <= i < gone ==> refused(#[trigger] old(self)@.readers[i], delivery),
            decreases self.pending_readers@.len(),
        {
            match self.pending_readers.pop_front() {
                Some(tx) => {
                    assert(tx == old(self)@.readers[gone]);
                    match offer(tx, current) {
                        None => {
                            assert(self.pending_readers@ =~= old(self)@.readers.skip(gone + 1));
                            assert(old(self)@.offered(delivery, gone));
                            return None;
                        },
                        Some(back) => {
                            current = back;
                            proof {
                                gone = gone + 1;
                            }
                            assert(self.pending_readers@ =~= old(self)@.readers.skip(gone));
                        },
                    }
                },
                None => {
                    assert(old(self)@.offered(delivery, gone));
                    return Some(current);
                },
            }
        }
    }

    /// Gives a message to the reader that has waited longest and is still there,
    /// or queues it.
    pub fn push(&mut self, t: T)
        ensures
            old(self)@.pushed(t, final(self)@),
            old(self)@.wf() ==> final(self)@.wf(),
    {
        let number: u64 = self.next;
        let back = self.offer_to_readers(Delivery { number, message: t });
        let ghost gone = choose|gone: int|
            {
                &&& #[trigger] old(self)@.offered(old(self)@.numbered(t), gone)
                &&& if gone < old(self)@.readers.len() {
                    back is None && self@.readers == old(self)@.readers.skip(gone + 1)
                } else {
                    back == Some(old(self)@.numbered(t)) && self@.readers.len() == 0
                }
            };
        if let Some(delivery) = back {
            self.message_queue.push_back(delivery);
        }
        self.next = number.saturating_add(1);
        assert(self@ =~= old(self)@.after_push(t, gone));
        assert(old(self)@.stepped(MailboxStep::Push { message: t, gone }, self@));
    }

    /// Gives the oldest message to a reader, or keeps it where the reader is
    /// gone. Without a message the reader waits.
    pub fn pop(&mut self, tx: oneshot::Sender<Delivery<T>>)
        ensures
            old(self)@.popped(tx, final(self)@),
            old(self)@.wf() ==> final(self)@.wf(),
    {
        match self.message_queue.pop_front() {
            Some(t) => match offer(tx, t) {
                None => {
                    assert(old(self)@.served(tx, true));
                    assert(self@ =~= old(self)@.after_pop(tx, true));
                    assert(old(self)@.stepped(MailboxStep::Pop { reader: tx, taken: true }, self@));
                },
                Some(t) => {
                    self.message_queue.push_front(t);
                    assert(self.message_queue@ =~= old(self)@.messages);
                    assert(old(self)@.served(tx, false));
                    assert(self@ =~= old(self)@.after_pop(tx, false));
                    assert(old(self)@.stepped(MailboxStep::Pop { reader: tx, taken: false }, self@));
                },
            },
            None => {
                self.pending_readers.push_back(tx);
                assert(old(self)@.served(tx, true));
                assert(self@ =~= old(self)@.after_pop(tx, true));
                    assert(old(self)@.stepped(MailboxStep::Pop { reader: tx, taken: true }, self@));
            },
        }
    }

    /// Takes a message back from a reader that vanished with it: gives it to the
    /// reader that has waited longest and is still there, or queues it where it
    /// belongs in the order of arrival.
    pub fn give_back(&mut self, delivery: Delivery<T>)
        ensures
            exists|gone: int| #[trigger]
                old(self)@.stepped(MailboxStep::Return { delivery, gone }, final(self)@),
            old(self)@.wf() ==> final(self)@.wf(),
    {
        let back = self.offer_to_readers(delivery);
        let ghost gone = choose|gone: int|
            {
                &&& #[trigger] old(self)@.offered(delivery, gone)
                &&& if gone < old(self)@.readers.len() {
                    back is None && self@.readers == old(self)@.readers.skip(gone + 1)
                } else {
                    back == Some(delivery) && self@.readers.len() == 0
                }
            };
        if let Some(delivery) = back {
            let mut place: usize = self.message_queue.len();
            assert(self.message_queue@.take(place as int) =~= self.message_queue@);
            while place > 0 && self.message_queue[place - 1].number > delivery.number
                invariant
                    place <= self.message_queue@.len(),
                    place_of(self.message_queue@, delivery.number) == place_of(
                        self.message_queue@.take(place as int),
                        delivery.number,
                    ),
                decreases place,
            {
                assert(self.message_queue@.take(place as int).drop_last()
                    =~= self.message_queue@.take(place - 1));
                place = place - 1;
            }
            assert(place_of(self.message_queue@.take(place as int), delivery.number) == place);
            self.message_queue.insert(place, delivery);
        }
        assert(self@ =~= old(self)@.after_return(delivery, gone));
        assert(old(self)@.stepped(MailboxStep::Return { delivery, gone }, self@));
    }

    /// Takes back what was given back in the meantime and then does what one
    /// message asks for.
    pub fn handle(&mut self, returned: Vec<Delivery<T>>, m: Message<T>)
        ensures
            exists|gone: Seq<int>|
                {
                    &&& #[trigger] old(self)@.all_offered(returned@, gone)
                    &&& old(self)@.after_returns(returned@, gone).handled(m, final(self)@)
                },
            old(self)@.wf() ==> final(self)@.wf(),
    {
        let ghost before = self@;
        let ghost all = returned@;
        let ghost mut gone: Seq<int> = Seq::empty();
        assert(all.take(0) =~= Seq::empty());
        for delivery in it: returned
            invariant
                it.seq() == all,
                before.all_offered(all.take(it.index() as int), gone),
                self@ == before.after_returns(all.take(it.index() as int), gone),
                before.wf() ==> self@.wf(),
        {
            let ghost i = it.index() as int;
            let ghost here = self@;
            assert(delivery == all[i]);
            self.give_back(delivery);
            proof {
                let g = choose|g: int| #[trigger]
                    here.stepped(MailboxStep::Return { delivery, gone: g }, self@);
                let more = gone.push(g);
                assert(all.take(i + 1).drop_last() =~= all.take(i));
                assert(more.drop_last() =~= gone);
                gone = more;
            }
        }
        assert(all.take(all.len() as int) =~= all);
        match m {
            Message::Push(t) => self.push(t),
            Message::Pop(tx) => self.pop(tx),
        }
        assert(before.all_offered(all, gone));
    }
}

/// The channel to a mailbox.
#[derive(Debug)]
#[verifier::reject_recursive_types(T)]
pub struct MailboxChannel<T>(pub mpsc::Sender<Message<T>>);

impl<T> Deref for MailboxChannel<T> {
    type Target = mpsc::Sender<Message<T>>;

    fn deref(&self) -> (tx: &mpsc::Sender<Message<T>>)
        ensures
            *tx == self.0,
    {
        &self.0
    }
}

impl<T> Clone for MailboxChannel<T> {
    fn clone(&self) -> (other: Self)
        ensures
            cloned(self.0, other.0),
    {
        MailboxChannel(self.0.clone())
    }
}

impl<T> MailboxChannel<T> {
    /// What to send to the mailbox in order to take a message, and where the
    /// message will then arrive.
    pub fn pop(&self) -> (request: (Message<T>, oneshot::Receiver<Delivery<T>>))
        ensures
            request.0 matches Message::Pop(tx) && call_ensures(
                oneshot::channel::<Delivery<T>>,
                (),
                (tx, request.1),
            ),
    {
        let (tx, rx) = oneshot::channel();
        (Message::Pop(tx), rx)
    }

    /// What to send to the mailbox in order to leave a message there.
    pub fn push(&self, t: T) -> (request: Message<T>)
        ensures
            request == Message::Push(t),
    {
        Message::Push(t)
    }
}

/// Used to send messages to the mailbox.
#[derive(Debug)]
#[verifier::reject_recursive_types(T)]
pub struct MailboxSender<T>(pub MailboxChannel<T>);

impl<T> Clone for MailboxSender<T> {
    fn clone(&self) -> (other: Self)
        ensures
            cloned(self.0.0, other.0.0),
    {
        MailboxSender(self.0.clone())
    }
}

impl<T> MailboxSender<T> {
    /// The channel inside.
    pub fn into_raw(self) -> (tx: mpsc::Sender<Message<T>>)
        ensures
            tx == self.0.0,
    {
        self.0.0
    }

    /// A sender over a channel to a mailbox.
    pub fn from_raw(tx: mpsc::Sender<Message<T>>) -> (sender: Self)
        ensures
            sender.0.0 == tx,
    {
        MailboxSender(MailboxChannel(tx))
    }

    /// What to send to the mailbox in order to leave a message for a receiver.
    pub fn send(&self, message: T) -> (request: Message<T>)
        ensures
            request == Message::Push(message),
    {
        self.0.push(message)
    }
}

/// Where the message of one receive arrives, and the way back for a message that
/// arrived and was not read. Whoever stops waiting calls `give_back`.
#[derive(Debug)]
#[verifier::reject_recursive_types(T)]
pub struct Receipt<T> {
    pub rx: oneshot::Receiver<Delivery<T>>,
    pub way_back: mpsc::UnboundedSender<Delivery<T>>,
}

/// The message was put on its way back to the mailbox.
pub open spec fn returned<T>(
    way_back: mpsc::UnboundedSender<Delivery<T>>,
    delivery: Delivery<T>,
) -> bool {
    exists|res: Result<(), mpsc::error::SendError<Delivery<T>>>|
        call_ensures(mpsc::UnboundedSender::<Delivery<T>>::send, (&way_back, delivery), res)
}

impl<T> Receipt<T> {
    /// Stops waiting: keeps a message from arriving, and sends one that has
    /// arrived and was not read back to the mailbox.
    pub fn give_back(&mut self)
        ensures
            final(self).way_back == old(self).way_back,
            exists|
                closing: &mut oneshot::Receiver<Delivery<T>>,
                reading: &mut oneshot::Receiver<Delivery<T>>,
                res: Result<Delivery<T>, oneshot::error::TryRecvError>,
            |
                {
                    &&& #[trigger] call_ensures(
                        oneshot::Receiver::<Delivery<T>>::close,
                        (closing,),
                        (),
                    )
                    &&& #[trigger] call_ensures(
                        oneshot::Receiver::<Delivery<T>>::try_recv,
                        (reading,),
                        res,
                    )
                    &&& *closing == old(self).rx
                    &&& *reading == *final(closing)
                    &&& *final(reading) == final(self).rx
                    &&& res matches Ok(delivery) ==> returned(old(self).way_back, delivery)
                },
    {
        self.rx.close();
        let res = self.rx.try_recv();
        match res {
            Ok(delivery) => {
                let _ = self.way_back.send(delivery);
            },
            Err(_) => {},
        }
    }
}

/// Used to receive messages from the mailbox.
#[derive(Debug)]
#[verifier::reject_recursive_types(T)]
pub struct MailboxReceiver<T>(
    pub MailboxChannel<T>,
    pub mpsc::UnboundedSender<Delivery<T>>,
);

impl<T> Clone for MailboxReceiver<T> {
    fn clone(&self) -> (other: Self)
        ensures
            cloned(self.0.0, other.0.0),
            cloned(self.1, other.1),
    {
        MailboxReceiver(self.0.clone(), self.1.clone())
    }
}

impl<T> MailboxReceiver<T> {
    /// What to send to the mailbox in order to receive a message, and where the
    /// message will then arrive.
    pub fn recv(&self) -> (request: (Message<T>, Receipt<T>))
        ensures
            request.0 matches Message::Pop(tx) && call_ensures(
                oneshot::channel::<Delivery<T>>,
                (),
                (tx, request.1.rx),
            ),
            cloned(self.1, request.1.way_back),
    {
        let (message, rx) = self.0.pop();
        (message, Receipt { rx, way_back: self.1.clone() })
    }
}

/// What the task of a mailbox works with: the requests that arrive, the messages
/// that are given back, and the mailbox.
#[verifier::reject_recursive_types(T)]
pub struct MailboxTask<T> {
    pub requests: mpsc::Receiver<Message<T>>,
    pub way_back: mpsc::UnboundedReceiver<Delivery<T>>,
    pub mbox: Mailbox<T>,
}

/// The two ends lead to an empty mailbox that buffers `capacity` requests and was
/// started by `run` as a worker.
pub open spec fn lead_to_mailbox<T, R>(
    ends: (MailboxSender<T>, MailboxReceiver<T>),
    capacity: usize,
    run: R,
) -> bool where R: FnOnce(MailboxTask<T>, TaskKind) -> Pid<()> {
    &&& cloned(ends.1.0.0, ends.0.0.0)
    &&& exists|task: MailboxTask<T>, pid: Pid<()>|
        {
            &&& call_ensures(
                mpsc::channel::<Message<T>>,
                (capacity,),
                (ends.1.0.0, task.requests),
            )
            &&& call_ensures(
                mpsc::unbounded_channel::<Delivery<T>>,
                (),
                (ends.1.1, task.way_back),
            )
            &&& task.mbox@ == MailboxState::<T>::empty()
            &&& #[trigger] call_ensures(run, (task, TaskKind::Worker), pid)
        }
}

/// Makes a mailbox that buffers `capacity` requests and starts it with `run`, as a
/// task of the kind that `run` is told. `run` is to hand every request that arrives
/// to `Mailbox::handle`, together with what was given back before it, and to
/// `Mailbox::give_back` what is given back while no request comes.
pub fn mailbox<T, R>(capacity: usize, run: R) -> (ends: (
    MailboxSender<T>,
    MailboxReceiver<T>,
)) where R: FnOnce(MailboxTask<T>, TaskKind) -> Pid<()>
    requires
        0 < capacity <= usize::MAX / 8,
        forall|task: MailboxTask<T>|
            task.mbox@ == MailboxState::<T>::empty() ==> #[trigger] call_requires(
                run,
                (task, TaskKind::Worker),
            ),
    ensures
        lead_to_mailbox(ends, capacity, run),
{
    let (tx, requests) = mpsc::channel(capacity);
    let (back, way_back) = mpsc::unbounded_channel();
    let channel = MailboxChannel(tx);
    let task = MailboxTask { requests, way_back, mbox: Mailbox::new() };
    let pid = run(task, TaskKind::Worker);
    let sender = MailboxSender(channel.clone());
    let ends = (sender, MailboxReceiver(channel, back));
    assert(call_ensures(run, (task, TaskKind::Worker), pid));
    ends
}

} // verus!
