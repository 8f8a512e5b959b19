//! What holds of a mailbox and its readers over time.
use crate::mailbox;
use crate::mailbox::{Delivery, MailboxState, MailboxStep, Message};
use tokio::sync::oneshot;
use vstd::multiset::Multiset;
use vstd::prelude::*;

verus! {

/// A mailbox together with the messages that are in the hands of readers, and
/// those that receives have returned, in that order.
#[verifier::reject_recursive_types(T)]
pub struct Post<T> {
    pub mailbox: MailboxState<T>,
    pub held: Seq<Delivery<T>>,
    pub received: Seq<Delivery<T>>,
}

/// Something that happens to a mailbox and its readers.
#[verifier::reject_recursive_types(T)]
pub enum PostEvent<T> {
    /// A message arrives.
    Push { message: T, gone: int },
    /// A reader asks for a message.
    Pop { reader: oneshot::Sender<Delivery<T>>, taken: bool },
    /// A receive is dropped that has a message in its hands, which it gives back.
    Return { ix: int, gone: int },
    /// A receive returns the message that it has in its hands.
    Receive { ix: int },
}

impl<T> Post<T> {
    /// A mailbox to which nothing has happened.
    pub open spec fn fresh() -> Self {
        Post { mailbox: MailboxState::empty(), held: Seq::empty(), received: Seq::empty() }
    }

    /// The step that the mailbox takes at an event, if it takes one.
    pub open spec fn step(self, event: PostEvent<T>) -> Option<MailboxStep<T>> {
        match event {
            PostEvent::Push { message, gone } => Some(MailboxStep::Push { message, gone }),
            PostEvent::Pop { reader, taken } => Some(MailboxStep::Pop { reader, taken }),
            PostEvent::Return { ix, gone } => Some(
                MailboxStep::Return { delivery: self.held[ix], gone },
            ),
            PostEvent::Receive { ix } => None,
        }
    }

    /// What is in the hands of the readers that keep what they hold at an event.
    pub open spec fn kept(self, event: PostEvent<T>) -> Seq<Delivery<T>> {
        match event {
            PostEvent::Return { ix, gone } => self.held.remove(ix),
            PostEvent::Receive { ix } => self.held.remove(ix),
            _ => self.held,
        }
    }

    /// The event can happen here.
    pub open spec fn allows(self, event: PostEvent<T>) -> bool {
        &&& event matches PostEvent::Return { ix, gone } ==> 0 <= ix < self.held.len()
        &&& event matches PostEvent::Receive { ix } ==> 0 <= ix < self.held.len()
        &&& self.step(event) matches Some(step) ==> self.mailbox.allows(step)
    }

    /// What there is after an event.
    pub open spec fn after(self, event: PostEvent<T>) -> Self {
        match self.step(event) {
            Some(step) => Post {
                mailbox: self.mailbox.after(step),
                held: self.kept(event) + self.mailbox.handed(step),
                received: self.received,
            },
            None => Post {
                mailbox: self.mailbox,
                held: self.kept(event),
                received: self.received.push(self.held[event->Receive_ix]),
            },
        }
    }

    /// What there is after a run of events.
    pub open spec fn after_run(self, events: Seq<PostEvent<T>>) -> Self
        decreases events.len(),
    {
        if events.len() == 0 {
            self
        } else {
            self.after_run(events.drop_last()).after(events.last())
        }
    }

    /// Every event of the run can happen where it happens.
    pub open spec fn allows_run(self, events: Seq<PostEvent<T>>) -> bool
        decreases events.len(),
    {
        events.len() > 0 ==> {
            &&& self.allows_run(events.drop_last())
            &&& self.after_run(events.drop_last()).allows(events.last())
        }
    }

    /// The messages that were received, are in the hands of readers or wait.
    pub open spec fn all(self) -> Multiset<Delivery<T>> {
        self.received.to_multiset().add(self.held.to_multiset()).add(
            self.mailbox.messages.to_multiset(),
        )
    }

    /// The message in the hands of a reader is the oldest of those that were not
    /// received.
    pub open spec fn oldest(self, ix: int) -> bool {
        &&& forall|i: int|
            0 <= i < self.held.len() ==> self.held[ix].number <= (#[trigger] self.held[i]).number
        &&& forall|i: int|
            0 <= i < self.mailbox.messages.len() ==> self.held[ix].number <= (
            #[trigger] self.mailbox.messages[i]).number
    }

    /// At every receive of the run the message is the oldest of those that were not
    /// received.
    pub open spec fn oldest_first(self, events: Seq<PostEvent<T>>) -> bool
        decreases events.len(),
    {
        events.len() > 0 ==> {
            &&& self.oldest_first(events.drop_last())
            &&& events.last() matches PostEvent::Receive { ix } ==> self.after_run(
                events.drop_last(),
            ).oldest(ix)
        }
    }

    /// Never during the run do two readers have a message in their hands that they
    /// have neither received nor given back.
    pub open spec fn one_at_a_time(self, events: Seq<PostEvent<T>>) -> bool
        decreases events.len(),
    {
        &&& self.after_run(events).held.len() <= 1
        &&& events.len() > 0 ==> self.one_at_a_time(events.drop_last())
    }
}

/// The messages that arrive during a run, in that order.
pub open spec fn pushed_in_run<T>(events: Seq<PostEvent<T>>) -> Seq<T>
    decreases events.len(),
{
    if events.len() == 0 {
        Seq::empty()
    } else {
        let before = pushed_in_run(events.drop_last());
        match events.last() {
            PostEvent::Push { message, gone } => before.push(message),
            _ => before,
        }
    }
}

/// Each message that arrived is there once, under its number, and nothing else is.
pub open spec fn complete<T>(all: Multiset<Delivery<T>>, arrived: Seq<T>) -> bool {
    forall|d: Delivery<T>| #[trigger]
        all.count(d) == if d.number < arrived.len() && arrived[d.number as int] == d.message {
            1nat
        } else {
            0nat
        }
}

/// One event neither loses nor repeats a message, and adds the one that arrives.
proof fn lemma_event_keeps_messages<T>(post: Post<T>, event: PostEvent<T>)
    requires
        post.allows(event),
    ensures
        post.after(event).all() == match event {
            PostEvent::Push { message, gone } => post.all().insert(
                post.mailbox.numbered(message),
            ),
            _ => post.all(),
        },
{
    broadcast use vstd::seq_lib::group_to_multiset_ensures;

    let after = post.after(event);
    match event {
        PostEvent::Receive { ix } => {
            assert(after.all() =~= post.all());
        },
        PostEvent::Push { message, gone } => {
            let d = post.mailbox.numbered(message);
            if gone < post.mailbox.readers.len() {
                assert(after.held =~= post.held.push(d));
            } else {
                assert(after.held =~= post.held);
            }
            assert(after.all() =~= post.all().insert(d));
        },
        PostEvent::Pop { reader, taken } => {
            if post.mailbox.messages.len() > 0 && taken {
                let d = post.mailbox.messages[0];
                assert(after.held =~= post.held.push(d));
                assert(after.mailbox.messages =~= post.mailbox.messages.remove(0));
            } else {
                assert(after.held =~= post.held);
            }
            assert(after.all() =~= post.all());
        },
        PostEvent::Return { ix, gone } => {
            let d = post.held[ix];
            let kept = post.held.remove(ix);
            if gone < post.mailbox.readers.len() {
                assert(after.held =~= kept.push(d));
            } else {
                let place = mailbox::place_of(post.mailbox.messages, d.number);
                lemma_place_is_within(post.mailbox.messages, d.number);
                vstd::seq_lib::to_multiset_insert(post.mailbox.messages, place, d);
                assert(after.held =~= kept);
            }
            assert(after.all() =~= post.all());
        },
    }
}

proof fn lemma_place_is_within<T>(messages: Seq<Delivery<T>>, number: u64)
    ensures
        0 <= mailbox::place_of(messages, number) <= messages.len(),
    decreases messages.len(),
{
    if messages.len() > 0 {
        lemma_place_is_within(messages.drop_last(), number);
    }
}

/// A mailbox loses no message, repeats none and invents none, however many receives
/// are dropped: after any run each message that arrived was received, or is in the
/// hands of a reader, or waits, and it is so once.
pub proof fn law_mailbox_keeps_every_message<T>(events: Seq<PostEvent<T>>)
    requires
        Post::fresh().allows_run(events),
        pushed_in_run(events).len() <= u64::MAX,
    ensures
        complete(Post::fresh().after_run(events).all(), pushed_in_run(events)),
        Post::fresh().after_run(events).mailbox.next == pushed_in_run(events).len(),
        Post::fresh().after_run(events).mailbox.wf(),
    decreases events.len(),
{
    broadcast use vstd::seq_lib::group_to_multiset_ensures;

    if events.len() == 0 {
        let none = Post::<T>::fresh();
        assert forall|d: Delivery<T>| #[trigger] none.all().count(d) == 0 by {
            assert(!none.received.contains(d));
        }
    } else {
        let earlier = events.drop_last();
        law_mailbox_keeps_every_message(earlier);
        let here = Post::fresh().after_run(earlier);
        lemma_event_keeps_messages(here, events.last());
        let arrived = pushed_in_run(earlier);
        if let PostEvent::Push { message, gone } = events.last() {
            let d = here.mailbox.numbered(message);
            assert(pushed_in_run(events) == arrived.push(message));
            assert forall|e: Delivery<T>| #[trigger]
                here.all().insert(d).count(e) == if e.number < arrived.push(message).len()
                    && arrived.push(message)[e.number as int] == e.message {
                    1nat
                } else {
                    0nat
                } by {
                if e == d {
                    assert(here.all().count(e) == 0);
                } else {
                    assert(here.all().insert(d).count(e) == here.all().count(e));
                }
            }
        }
    }
}

/// Receives return the messages in the order in which they arrived, none left out
/// and none twice, however many other receives are dropped, as long as no receive
/// returns a message while an older one is still in the hands of another reader or
/// waits.
pub proof fn law_messages_are_received_in_order<T>(events: Seq<PostEvent<T>>)
    requires
        Post::fresh().allows_run(events),
        Post::fresh().oldest_first(events),
        pushed_in_run(events).len() <= u64::MAX,
    ensures
        ({
            let received = Post::fresh().after_run(events).received;
            let arrived = pushed_in_run(events);
            &&& received.len() <= arrived.len()
            &&& forall|i: int|
                0 <= i < received.len() ==> (#[trigger] received[i]).number == i
                    && received[i].message == arrived[i]
        }),
    decreases events.len(),
{
    broadcast use vstd::seq_lib::group_to_multiset_ensures;

    if events.len() > 0 {
        let earlier = events.drop_last();
        law_messages_are_received_in_order(earlier);
        law_mailbox_keeps_every_message(earlier);
        let here = Post::fresh().after_run(earlier);
        let arrived = pushed_in_run(earlier);
        let received = here.received;
        if let PostEvent::Receive { ix } = events.last() {
            let d = here.held[ix];
            let k = received.len() as int;
            assert(here.held.contains(d));
            assert(here.held.to_multiset().count(d) > 0);
            assert(here.all().count(d) > 0);
            assert(d.number < arrived.len() && arrived[d.number as int] == d.message);
            if d.number < k {
                assert(received[d.number as int] == d);
                assert(received.contains(d));
                assert(received.to_multiset().count(d) > 0);
                assert(here.all().count(d) >= 2);
                assert(false);
            }
            let e = Delivery { number: k as u64, message: arrived[k] };
            assert(here.all().count(e) == 1);
            assert(!received.contains(e)) by {
                assert forall|i: int| 0 <= i < received.len() implies received[i] != e by {
                    assert(received[i].number == i);
                }
            }
            assert(received.to_multiset().count(e) == 0);
            if here.held.contains(e) {
                let i = choose|i: int| 0 <= i < here.held.len() && here.held[i] == e;
                assert(d.number <= here.held[i].number);
            } else {
                assert(here.held.to_multiset().count(e) == 0);
                assert(here.mailbox.messages.contains(e));
                let i = choose|i: int|
                    0 <= i < here.mailbox.messages.len() && here.mailbox.messages[i] == e;
                assert(d.number <= here.mailbox.messages[i].number);
            }
            assert(d.number == k);
        }
    }
}

/// The messages in the hands of readers and those that wait are in the order of
/// arrival.
spec fn in_order<T>(post: Post<T>) -> bool {
    let rest = post.held + post.mailbox.messages;
    &&& forall|i: int, j: int|
        0 <= i < j < rest.len() ==> (#[trigger] rest[i]).number < (#[trigger] rest[j]).number
    &&& forall|i: int| 0 <= i < rest.len() ==> (#[trigger] rest[i]).number < post.mailbox.next
}

proof fn lemma_oldest_goes_first<T>(messages: Seq<Delivery<T>>, number: u64)
    requires
        forall|i: int| 0 <= i < messages.len() ==> number < (#[trigger] messages[i]).number,
    ensures
        mailbox::place_of(messages, number) == 0,
    decreases messages.len(),
{
    if messages.len() > 0 {
        let shorter = messages.drop_last();
        assert forall|i: int| 0 <= i < shorter.len() implies number < (
        #[trigger] shorter[i]).number by {
            assert(shorter[i] == messages[i]);
        }
        lemma_oldest_goes_first(shorter, number);
    }
}

proof fn lemma_one_at_a_time_keeps_order<T>(events: Seq<PostEvent<T>>)
    requires
        Post::fresh().allows_run(events),
        Post::fresh().one_at_a_time(events),
        pushed_in_run(events).len() <= u64::MAX,
    ensures
        in_order(Post::fresh().after_run(events)),
        Post::fresh().oldest_first(events),
    decreases events.len(),
{
    if events.len() > 0 {
        let earlier = events.drop_last();
        lemma_one_at_a_time_keeps_order(earlier);
        law_mailbox_keeps_every_message(earlier);
        let here = Post::fresh().after_run(earlier);
        let event = events.last();
        let after = here.after(event);
        let rest = here.held + here.mailbox.messages;
        let left = after.held + after.mailbox.messages;
        assert(here.allows(event));
        assert(Post::fresh().one_at_a_time(earlier));
        assert(here.held.len() <= 1);
        match event {
            PostEvent::Receive { ix } => {
                assert(left =~= rest.skip(1));
                assert(here.oldest(ix)) by {
                    assert(rest[0] == here.held[0]);
                    assert forall|i: int| 0 <= i < here.mailbox.messages.len() implies
                        here.held[ix].number <= (#[trigger] here.mailbox.messages[i]).number by {
                        assert(rest[i + 1] == here.mailbox.messages[i]);
                    }
                }
            },
            PostEvent::Push { message, gone } => {
                assert(left =~= rest.push(here.mailbox.numbered(message)));
            },
            PostEvent::Pop { reader, taken } => {
                assert(left =~= rest);
            },
            PostEvent::Return { ix, gone } => {
                let d = here.held[0];
                assert(rest[0] == d);
                assert forall|i: int| 0 <= i < here.mailbox.messages.len() implies d.number < (
                #[trigger] here.mailbox.messages[i]).number by {
                    assert(rest[i + 1] == here.mailbox.messages[i]);
                }
                lemma_oldest_goes_first(here.mailbox.messages, d.number);
                assert(left =~= rest);
            },
        }
    }
}

/// Where readers receive one at a time, that is, no message is put into the hands
/// of a reader while another reader has one that it has neither received nor given
/// back, receives return the messages in the order in which they arrived, none left
/// out and none twice, however many receives are dropped.
pub proof fn law_readers_in_turn_receive_in_order<T>(events: Seq<PostEvent<T>>)
    requires
        Post::fresh().allows_run(events),
        Post::fresh().one_at_a_time(events),
        pushed_in_run(events).len() <= u64::MAX,
    ensures
        ({
            let received = Post::fresh().after_run(events).received;
            let arrived = pushed_in_run(events);
            &&& received.len() <= arrived.len()
            &&& forall|i: int|
                0 <= i < received.len() ==> (#[trigger] received[i]).number == i
                    && received[i].message == arrived[i]
        }),
{
    lemma_one_at_a_time_keeps_order(events);
    law_messages_are_received_in_order(events);
}

/// A message that comes where no reader waits, or where every reader that waits is
/// gone, is kept behind those that wait, however many they are.
pub proof fn law_message_without_readers_waits_last<T>(
    before: MailboxState<T>,
    message: T,
    gone: int,
    after: MailboxState<T>,
)
    requires
        before.stepped(MailboxStep::Push { message, gone }, after),
        gone == before.readers.len(),
    ensures
        after.messages == before.messages.push(before.numbered(message)),
        after.readers.len() == 0,
{
}

/// The readers that ask for a message during a run, in that order.
pub open spec fn asked_in_run<T>(events: Seq<PostEvent<T>>) -> Seq<oneshot::Sender<Delivery<T>>>
    decreases events.len(),
{
    if events.len() == 0 {
        Seq::empty()
    } else {
        let before = asked_in_run(events.drop_last());
        match events.last() {
            PostEvent::Pop { reader, taken } => before.push(reader),
            _ => before,
        }
    }
}

/// No reader is gone during the run: each takes what it is offered, and none gives a
/// message back.
pub open spec fn nobody_gone<T>(events: Seq<PostEvent<T>>) -> bool {
    forall|i: int|
        0 <= i < events.len() ==> match #[trigger] events[i] {
            PostEvent::Push { message, gone } => gone == 0,
            PostEvent::Pop { reader, taken } => taken,
            PostEvent::Return { ix, gone } => false,
            PostEvent::Receive { ix } => true,
        }
}

/// The messages that arrived, with their numbers.
pub open spec fn numbered<T>(arrived: Seq<T>) -> Seq<Delivery<T>> {
    Seq::new(arrived.len(), |i: int| Delivery { number: i as u64, message: arrived[i] })
}

/// Where no reader is gone, readers are served in the order in which they asked: the
/// first has the first message, the second the second, and so on.
pub proof fn law_readers_are_served_in_order<T>(events: Seq<PostEvent<T>>)
    requires
        Post::fresh().allows_run(events),
        nobody_gone(events),
        pushed_in_run(events).len() <= u64::MAX,
    ensures
        ({
            let asked = asked_in_run(events);
            let arrived = numbered(pushed_in_run(events));
            let mbox = Post::fresh().after_run(events).mailbox;
            &&& forall|i: int|
                0 <= i < asked.len() && i < arrived.len() ==> mailbox::took(
                    #[trigger] asked[i],
                    arrived[i],
                )
            &&& asked.len() <= arrived.len() ==> mbox.readers.len() == 0 && mbox.messages
                == arrived.skip(asked.len() as int)
            &&& asked.len() > arrived.len() ==> mbox.messages.len() == 0 && mbox.readers
                == asked.skip(arrived.len() as int)
        }),
    decreases events.len(),
{
    let asked = asked_in_run(events);
    let arrived = numbered(pushed_in_run(events));
    if events.len() == 0 {
        assert(arrived.skip(0) =~= Seq::empty());
    } else {
        let earlier = events.drop_last();
        assert forall|i: int| 0 <= i < earlier.len() implies match #[trigger] earlier[i] {
            PostEvent::Push { message, gone } => gone == 0,
            PostEvent::Pop { reader, taken } => taken,
            PostEvent::Return { ix, gone } => false,
            PostEvent::Receive { ix } => true,
        } by {
            assert(earlier[i] == events[i]);
        }
        law_readers_are_served_in_order(earlier);
        law_mailbox_keeps_every_message(earlier);
        let here = Post::fresh().after_run(earlier).mailbox;
        let after = Post::fresh().after_run(events).mailbox;
        let asked0 = asked_in_run(earlier);
        let arrived0 = numbered(pushed_in_run(earlier));
        assert(events.last() == events[events.len() - 1]);
        match events.last() {
            PostEvent::Push { message, gone } => {
                assert(arrived =~= arrived0.push(here.numbered(message)));
                if asked0.len() > arrived0.len() {
                    assert(here.readers[0] == asked0[arrived0.len() as int]);
                    assert(after.readers =~= asked.skip(arrived.len() as int));
                    if asked.len() == arrived.len() {
                        assert(arrived.skip(asked.len() as int) =~= Seq::empty());
                    }
                } else {
                    assert(after.messages =~= arrived.skip(asked.len() as int));
                }
            },
            PostEvent::Pop { reader, taken } => {
                assert(asked == asked0.push(reader));
                if asked0.len() < arrived0.len() {
                    assert(here.messages[0] == arrived0[asked0.len() as int]);
                    assert(after.messages =~= arrived.skip(asked.len() as int));
                } else {
                    assert(after.readers =~= asked.skip(arrived.len() as int));
                }
            },
            _ => {},
        }
    }
}

/// The reader was offered the message, whether it took it or was gone.
pub open spec fn was_offered<T>(reader: oneshot::Sender<Delivery<T>>, d: Delivery<T>) -> bool {
    mailbox::took(reader, d) || mailbox::refused(reader, d)
}

/// The message is one of those that arrived, under its number.
pub open spec fn is_among<T>(d: Delivery<T>, arrived: Seq<T>) -> bool {
    d.number < arrived.len() && arrived[d.number as int] == d.message
}

/// The reader was offered one of the messages that arrived.
pub open spec fn was_served<T>(reader: oneshot::Sender<Delivery<T>>, arrived: Seq<T>) -> bool {
    exists|d: Delivery<T>| #[trigger] was_offered(reader, d) && is_among(d, arrived)
}

/// What there is after a run is made of messages that arrived.
proof fn lemma_messages_are_among_arrived<T>(events: Seq<PostEvent<T>>)
    requires
        Post::fresh().allows_run(events),
        pushed_in_run(events).len() <= u64::MAX,
    ensures
        ({
            let post = Post::fresh().after_run(events);
            let arrived = pushed_in_run(events);
            &&& forall|i: int|
                0 <= i < post.mailbox.messages.len() ==> is_among(
                    #[trigger] post.mailbox.messages[i],
                    arrived,
                )
            &&& forall|i: int|
                0 <= i < post.held.len() ==> is_among(#[trigger] post.held[i], arrived)
        }),
{
    broadcast use vstd::seq_lib::group_to_multiset_ensures;

    law_mailbox_keeps_every_message(events);
    let post = Post::fresh().after_run(events);
    let arrived = pushed_in_run(events);
    assert forall|i: int| 0 <= i < post.mailbox.messages.len() implies is_among(
        #[trigger] post.mailbox.messages[i],
        arrived,
    ) by {
        let d = post.mailbox.messages[i];
        assert(post.mailbox.messages.contains(d));
        assert(post.all().count(d) > 0);
    }
    assert forall|i: int| 0 <= i < post.held.len() implies is_among(
        #[trigger] post.held[i],
        arrived,
    ) by {
        let d = post.held[i];
        assert(post.held.contains(d));
        assert(post.all().count(d) > 0);
    }
}

/// A reader stops waiting only by being offered a message, which it takes or is found
/// to be gone: after any run, however many readers are gone, the readers that asked
/// first were each offered a message that arrived, and all those that asked after them
/// still wait, in the order in which they asked.
pub proof fn law_readers_wait_until_they_are_offered_a_message<T>(events: Seq<PostEvent<T>>)
    requires
        Post::fresh().allows_run(events),
        pushed_in_run(events).len() <= u64::MAX,
    ensures
        exists|k: int|
            {
                &&& 0 <= k <= asked_in_run(events).len()
                &&& Post::fresh().after_run(events).mailbox.readers
                    == #[trigger] asked_in_run(events).skip(k)
                &&& forall|i: int|
                    0 <= i < k ==> was_served(
                        #[trigger] asked_in_run(events)[i],
                        pushed_in_run(events),
                    )
            },
    decreases events.len(),
{
    let asked = asked_in_run(events);
    let arrived = pushed_in_run(events);
    let mbox = Post::fresh().after_run(events).mailbox;
    if events.len() == 0 {
        assert(mbox.readers =~= asked.skip(0));
    } else {
        let earlier = events.drop_last();
        law_readers_wait_until_they_are_offered_a_message(earlier);
        law_mailbox_keeps_every_message(earlier);
        lemma_messages_are_among_arrived(earlier);
        let here = Post::fresh().after_run(earlier);
        let asked0 = asked_in_run(earlier);
        let arrived0 = pushed_in_run(earlier);
        let k0 = choose|k: int|
            {
                &&& 0 <= k <= asked0.len()
                &&& here.mailbox.readers == #[trigger] asked0.skip(k)
                &&& forall|i: int| 0 <= i < k ==> was_served(#[trigger] asked0[i], arrived0)
            };
        assert forall|i: int| 0 <= i < k0 implies was_served(#[trigger] asked0[i], arrived) by {
            let d = choose|d: Delivery<T>| #[trigger]
                was_offered(asked0[i], d) && is_among(d, arrived0);
            assert(is_among(d, arrived));
        }
        match events.last() {
            PostEvent::Push { message, gone } => {
                lemma_offers_serve_the_first(
                    here.mailbox,
                    here.mailbox.numbered(message),
                    gone,
                    mbox.readers,
                    asked,
                    k0,
                    arrived,
                );
            },
            PostEvent::Return { ix, gone } => {
                lemma_offers_serve_the_first(
                    here.mailbox,
                    here.held[ix],
                    gone,
                    mbox.readers,
                    asked,
                    k0,
                    arrived,
                );
            },
            PostEvent::Pop { reader, taken } => {
                if here.mailbox.messages.len() == 0 {
                    assert(mbox.readers =~= asked.skip(k0));
                } else {
                    let d = here.mailbox.messages[0];
                    assert(was_offered(reader, d) && is_among(d, arrived));
                    assert(here.mailbox.readers.len() == 0);
                    assert(k0 == asked0.len());
                    assert(mbox.readers =~= asked.skip(k0 + 1));
                    assert forall|i: int| 0 <= i < k0 + 1 implies was_served(
                        #[trigger] asked[i],
                        arrived,
                    ) by {
                        if i < k0 {
                            assert(asked[i] == asked0[i]);
                        }
                    }
                }
            },
            PostEvent::Receive { ix } => {
                assert(mbox.readers == asked.skip(k0));
            },
        }
    }
}

/// Where a message was offered to the readers that wait, those that wait no longer are
/// the ones that were offered it.
proof fn lemma_offers_serve_the_first<T>(
    before: MailboxState<T>,
    d: Delivery<T>,
    gone: int,
    readers: Seq<oneshot::Sender<Delivery<T>>>,
    asked: Seq<oneshot::Sender<Delivery<T>>>,
    k: int,
    arrived: Seq<T>,
)
    requires
        0 <= k <= asked.len(),
        before.readers == asked.skip(k),
        forall|i: int| 0 <= i < k ==> was_served(#[trigger] asked[i], arrived),
        before.offered(d, gone),
        is_among(d, arrived),
        readers == if gone < before.readers.len() {
            before.readers.skip(gone + 1)
        } else {
            Seq::empty()
        },
    ensures
        exists|m: int|
            {
                &&& 0 <= m <= asked.len()
                &&& readers == #[trigger] asked.skip(m)
                &&& forall|i: int| 0 <= i < m ==> was_served(#[trigger] asked[i], arrived)
            },
{
    let m = if gone < before.readers.len() {
        k + gone + 1
    } else {
        k + gone
    };
    assert(readers =~= asked.skip(m));
    assert forall|i: int| 0 <= i < m implies was_served(#[trigger] asked[i], arrived) by {
        if i >= k {
            assert(asked[i] == before.readers[i - k]);
            assert(was_offered(asked[i], d));
        }
    }
}

/// A message that comes goes to the first of the waiting readers that is there. Those
/// before it were offered the message and were gone, those behind it wait on as they
/// did, and the message waits only where every reader was gone.
pub proof fn law_message_goes_to_the_first_reader_there<T>(
    before: MailboxState<T>,
    message: T,
    after: MailboxState<T>,
)
    requires
        before.pushed(message, after),
    ensures
        exists|left: int|
            {
                &&& 0 <= left <= before.readers.len()
                &&& after.readers == #[trigger] before.readers.skip(left)
                &&& forall|i: int|
                    0 <= i < left - 1 ==> mailbox::refused(
                        #[trigger] before.readers[i],
                        before.numbered(message),
                    )
                &&& if after.messages == before.messages {
                    &&& left > 0
                    &&& mailbox::took(before.readers[left - 1], before.numbered(message))
                } else {
                    &&& after.messages == before.messages.push(before.numbered(message))
                    &&& left == before.readers.len()
                    &&& left > 0 ==> mailbox::refused(
                        before.readers[left - 1],
                        before.numbered(message),
                    )
                }
            },
        before.next < u64::MAX ==> after.next == before.next + 1,
{
    let gone = choose|gone: int| #[trigger]
        before.stepped(MailboxStep::Push { message, gone }, after);
    let d = before.numbered(message);
    let left = if gone < before.readers.len() {
        gone + 1
    } else {
        gone
    };
    assert(after.readers =~= before.readers.skip(left));
    assert(before.messages.push(d).len() != before.messages.len());
    if left > 0 && gone == before.readers.len() {
        assert(mailbox::refused(before.readers[left - 1], d));
    }
}

/// A message that is given back goes to the first of the waiting readers that is there
/// in the same way. Where it waits again, it waits before every message that arrived
/// after it and behind those that arrived before it, and the others wait as they did.
pub proof fn law_returned_message_goes_to_the_first_reader_there<T>(
    before: MailboxState<T>,
    delivery: Delivery<T>,
    gone: int,
    after: MailboxState<T>,
)
    requires
        before.stepped(MailboxStep::Return { delivery, gone }, after),
        forall|i: int, j: int|
            0 <= i < j < before.messages.len() ==> (#[trigger] before.messages[i]).number < (
            #[trigger] before.messages[j]).number,
    ensures
        exists|left: int|
            {
                &&& 0 <= left <= before.readers.len()
                &&& after.readers == #[trigger] before.readers.skip(left)
                &&& forall|i: int|
                    0 <= i < left - 1 ==> mailbox::refused(#[trigger] before.readers[i], delivery)
                &&& if after.messages == before.messages {
                    &&& left > 0
                    &&& mailbox::took(before.readers[left - 1], delivery)
                } else {
                    &&& left == before.readers.len()
                    &&& left > 0 ==> mailbox::refused(before.readers[left - 1], delivery)
                    &&& exists|place: int|
                        {
                            &&& 0 <= place <= before.messages.len()
                            &&& after.messages == #[trigger] before.messages.insert(
                                place,
                                delivery,
                            )
                            &&& forall|i: int|
                                0 <= i < place ==> (#[trigger] before.messages[i]).number
                                    <= delivery.number
                            &&& forall|i: int|
                                place <= i < before.messages.len() ==> (
                                #[trigger] before.messages[i]).number > delivery.number
                        }
                }
            },
        after.next == before.next,
{
    let left = if gone < before.readers.len() {
        gone + 1
    } else {
        gone
    };
    assert(after.readers =~= before.readers.skip(left));
    lemma_place_is_in_order(before.messages, delivery.number);
    let place = mailbox::place_of(before.messages, delivery.number);
    assert(before.messages.insert(place, delivery).len() != before.messages.len());
    if left > 0 && gone == before.readers.len() {
        assert(mailbox::refused(before.readers[left - 1], delivery));
    }
}

proof fn lemma_place_is_in_order<T>(messages: Seq<Delivery<T>>, number: u64)
    requires
        forall|i: int, j: int|
            0 <= i < j < messages.len() ==> (#[trigger] messages[i]).number < (
            #[trigger] messages[j]).number,
    ensures
        ({
            let place = mailbox::place_of(messages, number);
            &&& 0 <= place <= messages.len()
            &&& forall|i: int| 0 <= i < place ==> (#[trigger] messages[i]).number <= number
            &&& forall|i: int|
                place <= i < messages.len() ==> (#[trigger] messages[i]).number > number
        }),
    decreases messages.len(),
{
    if messages.len() > 0 && messages.last().number > number {
        let shorter = messages.drop_last();
        assert forall|i: int, j: int| 0 <= i < j < shorter.len() implies (
        #[trigger] shorter[i]).number < (#[trigger] shorter[j]).number by {
            assert(shorter[i] == messages[i] && shorter[j] == messages[j]);
        }
        lemma_place_is_in_order(shorter, number);
        let place = mailbox::place_of(shorter, number);
        assert(place == mailbox::place_of(messages, number));
        assert forall|i: int| 0 <= i < place implies (#[trigger] messages[i]).number <= number by {
            assert(shorter[i] == messages[i]);
        }
        assert forall|i: int| place <= i < messages.len() implies (#[trigger] messages[i]).number
            > number by {
            if i < shorter.len() {
                assert(shorter[i] == messages[i]);
            }
        }
    } else if messages.len() > 0 {
        let last = messages.len() - 1;
        assert forall|i: int| 0 <= i < messages.len() implies (#[trigger] messages[i]).number
            <= number by {
            if i < last {
                assert(messages[i].number < messages[last].number);
            }
        }
    }
}

/// A reader that asks while messages wait is offered the oldest, and only where it
/// takes it does the message leave. One that asks while none waits is the last to wait.
pub proof fn law_reader_that_asks_is_offered_the_oldest<T>(
    before: MailboxState<T>,
    reader: oneshot::Sender<Delivery<T>>,
    after: MailboxState<T>,
)
    requires
        before.popped(reader, after),
    ensures
        before.messages.len() == 0 ==> after.messages == before.messages && after.readers
            == before.readers.push(reader),
        before.messages.len() > 0 ==> {
            &&& after.readers == before.readers
            &&& if after.messages == before.messages {
                mailbox::refused(reader, before.messages[0])
            } else {
                &&& mailbox::took(reader, before.messages[0])
                &&& seq![before.messages[0]] + after.messages == before.messages
            }
        },
        after.next == before.next,
{
    let taken = choose|taken: bool| #[trigger]
        before.stepped(MailboxStep::Pop { reader, taken }, after);
    if before.messages.len() > 0 {
        assert(before.messages.skip(1).len() != before.messages.len());
        assert(seq![before.messages[0]] + before.messages.skip(1) =~= before.messages);
    }
}

/// One of these readers took the message.
pub open spec fn taken_by_one<T>(
    asked: Seq<oneshot::Sender<Delivery<T>>>,
    d: Delivery<T>,
) -> bool {
    exists|i: int| 0 <= i < asked.len() && mailbox::took(#[trigger] asked[i], d)
}

/// A message that is in the hands of a reader, or was received, was taken by a reader
/// that asked for one.
pub proof fn law_messages_in_hand_were_taken<T>(events: Seq<PostEvent<T>>)
    requires
        Post::fresh().allows_run(events),
        pushed_in_run(events).len() <= u64::MAX,
    ensures
        ({
            let post = Post::fresh().after_run(events);
            let asked = asked_in_run(events);
            let out = post.received + post.held;
            forall|j: int| 0 <= j < out.len() ==> taken_by_one(asked, #[trigger] out[j])
        }),
    decreases events.len(),
{
    if events.len() > 0 {
        let earlier = events.drop_last();
        law_messages_in_hand_were_taken(earlier);
        law_readers_wait_until_they_are_offered_a_message(earlier);
        let here = Post::fresh().after_run(earlier);
        let asked0 = asked_in_run(earlier);
        let asked = asked_in_run(events);
        let out0 = here.received + here.held;
        let post = Post::fresh().after_run(events);
        let out = post.received + post.held;
        let k = choose|k: int|
            0 <= k <= asked0.len() && here.mailbox.readers == #[trigger] asked0.skip(k);
        assert forall|j: int| 0 <= j < out.len() implies taken_by_one(
            asked,
            #[trigger] out[j],
        ) by {
            let d = out[j];
            if out0.contains(d) {
                let h = choose|h: int| 0 <= h < out0.len() && out0[h] == d;
                assert(taken_by_one(asked0, out0[h]));
                let i = choose|i: int|
                    0 <= i < asked0.len() && mailbox::took(#[trigger] asked0[i], d);
                assert(asked[i] == asked0[i]);
            } else {
                lemma_still_out(here, events.last(), j);
                match events.last() {
                    PostEvent::Receive { ix } => {},
                    PostEvent::Return { ix, gone } => {},
                    PostEvent::Push { message, gone } => {
                        assert(here.mailbox.readers[gone] == asked0[k + gone]);
                        assert(mailbox::took(asked[k + gone], out[j]));
                    },
                    PostEvent::Pop { reader, taken } => {
                        assert(asked[asked.len() - 1] == reader);
                        assert(mailbox::took(asked[asked.len() - 1], out[j]));
                    },
                }
            }
        }
    }
}

/// What is in the hands of readers, or was received, after an event was so before, or
/// is what the event puts into the hands of a reader.
proof fn lemma_still_out<T>(here: Post<T>, event: PostEvent<T>, j: int)
    requires
        here.allows(event),
        0 <= j < (here.after(event).received + here.after(event).held).len(),
    ensures
        ({
            let d = (here.after(event).received + here.after(event).held)[j];
            ||| (here.received + here.held).contains(d)
            ||| here.step(event) is Some && here.mailbox.handed(here.step(event)->0).len() == 1
                && here.mailbox.handed(here.step(event)->0)[0] == d && !(event is Return)
        }),
{
    let after = here.after(event);
    let out0 = here.received + here.held;
    let d = (after.received + after.held)[j];
    let n = here.received.len() as int;
    if j < n {
        assert(out0[j] == d);
    } else {
        match event {
            PostEvent::Receive { ix } => {
                assert(out0[n + ix] == here.held[ix]);
                if j > n {
                    let h = j - n - 1;
                    assert(d == here.held.remove(ix)[h]);
                    assert(out0[n + if h < ix { h } else { h + 1 }] == d);
                }
            },
            PostEvent::Return { ix, gone } => {
                let h = j - n;
                assert(out0[n + ix] == here.held[ix]);
                if h < here.held.len() - 1 {
                    assert(d == here.held.remove(ix)[h]);
                    assert(out0[n + if h < ix { h } else { h + 1 }] == d);
                }
            },
            _ => {
                let h = j - n;
                if h < here.held.len() {
                    assert(out0[n + h] == d);
                }
            },
        }
    }
}

/// Each of the messages was taken by one of the readers.
pub open spec fn all_taken<T>(
    readers: Seq<oneshot::Sender<Delivery<T>>>,
    taken: Seq<Delivery<T>>,
) -> bool {
    forall|i: int| 0 <= i < taken.len() ==> taken_by_one(readers, #[trigger] taken[i])
}

/// To take messages back loses none and repeats none: each waits again or was taken by a
/// reader that waited. The readers that still wait are the last of those that did.
pub proof fn law_returned_messages_are_kept<T>(
    before: MailboxState<T>,
    returned: Seq<Delivery<T>>,
    gone: Seq<int>,
)
    requires
        before.all_offered(returned, gone),
    ensures
        ({
            let after = before.after_returns(returned, gone);
            &&& after.next == before.next
            &&& exists|taken: Seq<Delivery<T>>|
                {
                    &&& #[trigger] all_taken(before.readers, taken)
                    &&& before.messages.to_multiset().add(returned.to_multiset())
                        == after.messages.to_multiset().add(taken.to_multiset())
                }
            &&& exists|left: int|
                {
                    &&& 0 <= left <= before.readers.len()
                    &&& after.readers == #[trigger] before.readers.skip(left)
                }
        }),
    decreases returned.len(),
{
    broadcast use vstd::seq_lib::group_to_multiset_ensures;

    let after = before.after_returns(returned, gone);
    if returned.len() == 0 {
        let none = Seq::<Delivery<T>>::empty();
        assert(all_taken(before.readers, none));
        assert(returned =~= none);
        assert(before.messages.to_multiset().add(returned.to_multiset())
            =~= after.messages.to_multiset().add(none.to_multiset()));
        assert(after.readers =~= before.readers.skip(0));
    } else {
        let earlier = returned.drop_last();
        let d = returned.last();
        let g = gone.last();
        law_returned_messages_are_kept(before, earlier, gone.drop_last());
        let here = before.after_returns(earlier, gone.drop_last());
        let taken = choose|taken: Seq<Delivery<T>>|
            {
                &&& #[trigger] all_taken(before.readers, taken)
                &&& before.messages.to_multiset().add(earlier.to_multiset())
                    == here.messages.to_multiset().add(taken.to_multiset())
            };
        let left = choose|left: int|
            0 <= left <= before.readers.len() && here.readers == #[trigger] before.readers.skip(
                left,
            );
        assert(returned =~= earlier.push(d));
        let waited = before.messages.to_multiset();
        let waiting = here.messages.to_multiset();
        assert(returned.to_multiset() == earlier.to_multiset().insert(d));
        assert(waited.add(earlier.to_multiset().insert(d)) =~= waited.add(
            earlier.to_multiset(),
        ).insert(d));
        assert(waiting.add(taken.to_multiset().insert(d)) =~= waiting.add(
            taken.to_multiset(),
        ).insert(d));
        assert(waiting.insert(d).add(taken.to_multiset()) =~= waiting.add(
            taken.to_multiset(),
        ).insert(d));
        if g < here.readers.len() {
            let more = taken.push(d);
            assert(here.readers[g] == before.readers[left + g]);
            assert(taken_by_one(before.readers, d));
            assert forall|i: int| 0 <= i < more.len() implies taken_by_one(
                before.readers,
                #[trigger] more[i],
            ) by {
                if i < taken.len() {
                    assert(more[i] == taken[i]);
                }
            }
            assert(all_taken(before.readers, more));
            assert(more.to_multiset() == taken.to_multiset().insert(d));
            assert(after.readers =~= before.readers.skip(left + g + 1));
        } else {
            let place = mailbox::place_of(here.messages, d.number);
            lemma_place_is_within(here.messages, d.number);
            vstd::seq_lib::to_multiset_insert(here.messages, place, d);
            assert(after.messages.to_multiset() == waiting.insert(d));
            assert(after.readers =~= before.readers.skip(before.readers.len() as int));
        }
    }
}

/// The message that a request brings, if it brings one, with its number.
pub open spec fn brought<T>(before: MailboxState<T>, m: Message<T>) -> Seq<Delivery<T>> {
    match m {
        Message::Push(message) => seq![before.numbered(message)],
        Message::Pop(reader) => Seq::empty(),
    }
}

/// The reader that a request brings, if it brings one.
pub open spec fn asking<T>(m: Message<T>) -> Seq<oneshot::Sender<Delivery<T>>> {
    match m {
        Message::Push(message) => Seq::empty(),
        Message::Pop(reader) => seq![reader],
    }
}

/// To see to a request, with what was given back before it, loses no message and repeats
/// none: each message that waited, was given back or came with the request waits or was
/// taken by a reader that waited or came with the request.
pub proof fn law_request_keeps_every_message<T>(
    before: MailboxState<T>,
    returned: Seq<Delivery<T>>,
    gone: Seq<int>,
    m: Message<T>,
    after: MailboxState<T>,
)
    requires
        before.all_offered(returned, gone),
        before.after_returns(returned, gone).handled(m, after),
    ensures
        exists|taken: Seq<Delivery<T>>|
            {
                &&& #[trigger] all_taken(before.readers + asking(m), taken)
                &&& before.messages.to_multiset().add(returned.to_multiset()).add(
                    brought(before, m).to_multiset(),
                ) == after.messages.to_multiset().add(taken.to_multiset())
            },
{
    broadcast use vstd::seq_lib::group_to_multiset_ensures;

    law_returned_messages_are_kept(before, returned, gone);
    let here = before.after_returns(returned, gone);
    let taken = choose|taken: Seq<Delivery<T>>|
        {
            &&& #[trigger] all_taken(before.readers, taken)
            &&& before.messages.to_multiset().add(returned.to_multiset())
                == here.messages.to_multiset().add(taken.to_multiset())
        };
    let left = choose|left: int|
        0 <= left <= before.readers.len() && here.readers == #[trigger] before.readers.skip(left);
    let readers = before.readers + asking(m);
    assert forall|i: int| 0 <= i < taken.len() implies taken_by_one(
        readers,
        #[trigger] taken[i],
    ) by {
        assert(taken_by_one(before.readers, taken[i]));
        let k = choose|k: int|
            0 <= k < before.readers.len() && mailbox::took(#[trigger] before.readers[k], taken[i]);
        assert(readers[k] == before.readers[k]);
    }
    let new = brought(before, m);
    match m {
        Message::Push(message) => {
            let d = before.numbered(message);
            assert(new =~= Seq::empty().push(d));
            let g = choose|g: int| #[trigger]
                here.stepped(MailboxStep::Push { message, gone: g }, after);
            if g < here.readers.len() {
                let more = taken.push(d);
                assert(here.readers[g] == before.readers[left + g]);
                assert(readers[left + g] == before.readers[left + g]);
                assert(taken_by_one(readers, d));
                assert(all_taken(readers, more)) by {
                    assert forall|i: int| 0 <= i < more.len() implies taken_by_one(
                        readers,
                        #[trigger] more[i],
                    ) by {
                        if i < taken.len() {
                            assert(more[i] == taken[i]);
                        }
                    }
                }
                lemma_nothing_more(here, taken, d);
                assert(here.messages.to_multiset().add(taken.to_multiset()).add(new.to_multiset())
                    =~= after.messages.to_multiset().add(more.to_multiset()));
            } else {
                lemma_nothing_more(here, taken, d);
                assert(all_taken(readers, taken));
                assert(here.messages.to_multiset().add(taken.to_multiset()).add(new.to_multiset())
                    =~= after.messages.to_multiset().add(taken.to_multiset()));
            }
        },
        Message::Pop(reader) => {
            assert(new =~= Seq::empty());
            let t = choose|t: bool| #[trigger]
                here.stepped(MailboxStep::Pop { reader, taken: t }, after);
            if here.messages.len() > 0 && t {
                let d = here.messages[0];
                let more = taken.push(d);
                assert(readers[before.readers.len() as int] == reader);
                assert(taken_by_one(readers, d));
                assert(all_taken(readers, more)) by {
                    assert forall|i: int| 0 <= i < more.len() implies taken_by_one(
                        readers,
                        #[trigger] more[i],
                    ) by {
                        if i < taken.len() {
                            assert(more[i] == taken[i]);
                        }
                    }
                }
                assert(after.messages =~= here.messages.remove(0));
                lemma_nothing_more(here, taken, d);
                assert(here.messages.to_multiset().add(taken.to_multiset()).add(new.to_multiset())
                    =~= after.messages.to_multiset().add(more.to_multiset()));
            } else {
                assert(all_taken(readers, taken));
                assert(after.messages =~= here.messages);
                assert(new.to_multiset() =~= Multiset::empty()) by {
                    assert forall|d: Delivery<T>| new.to_multiset().count(d) == 0 by {
                        assert(!new.contains(d));
                    }
                }
                assert(here.messages.to_multiset().add(taken.to_multiset()).add(new.to_multiset())
                    =~= after.messages.to_multiset().add(taken.to_multiset()));
            }
        },
    }
}

/// Of one message on its own there is that message.
proof fn lemma_nothing_more<T>(here: MailboxState<T>, taken: Seq<Delivery<T>>, d: Delivery<T>)
    ensures
        Seq::<Delivery<T>>::empty().to_multiset() == Multiset::<Delivery<T>>::empty(),
        Seq::<Delivery<T>>::empty().push(d).to_multiset()
            == Multiset::<Delivery<T>>::empty().insert(d),
        taken.push(d).to_multiset() == taken.to_multiset().insert(d),
        here.messages.push(d).to_multiset() == here.messages.to_multiset().insert(d),
{
    broadcast use vstd::seq_lib::group_to_multiset_ensures;

    let none = Seq::<Delivery<T>>::empty();
    assert(none.to_multiset() =~= Multiset::empty()) by {
        assert forall|e: Delivery<T>| none.to_multiset().count(e) == 0 by {
            assert(!none.contains(e));
        }
    }
}

} // verus!
