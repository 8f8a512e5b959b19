//! Supervisors of groups: what happens to the children of a supervisor when one
//! of them stops.
use crate::group::{Group, GroupRef, Inner, RestartPolicy, SupervisorConfig};
use crate::mailbox::{mailbox, MailboxReceiver, MailboxSender, MailboxState, MailboxTask};
use crate::simple_supervisor;
use crate::simple_supervisor::{
    Next, Resume, SignalWait, SimpleSupervisorImpl, SimpleSupervisorMessage, SupvervisorState,
};
use crate::task::{Pid, TaskIdRepr, TaskKind};
use crate::task_handle;
use crate::task_handle::Handle;
use crate::trusted;
use crate::trusted::running_new;
use crate::ward;
use crate::ward::Ward;
use futures::stream::FuturesUnordered;
use std::ops::{ControlFlow, Deref};
use std::sync::Arc;
use std::time::Duration;
use tokio::sync::{oneshot, Notify};
use vstd::prelude::*;

verus! {

broadcast use ward::lemma_after_signal;

/// Names a child towards its supervisor.
#[derive(Debug, Clone, Copy, PartialEq, Eq, PartialOrd, Ord, Structural)]
pub struct ChildRef(pub TaskIdRepr);

/// How a supervisor restarts its children.
#[derive(Debug, Clone, Copy, PartialEq, Eq, Structural)]
pub enum SupervisorStrategy {
    /// Only the child that stopped is restarted.
    OneForOne,
    /// All children are stopped, and then all are restarted.
    OneForAll,
    /// The children after the one that stopped are stopped. Then that one and
    /// the children after it are restarted.
    RestForAll,
}

/// A running supervisor. Whoever holds it controls the supervisor, through a
/// mailbox of messages of type `M`.
#[derive(Debug)]
#[verifier::reject_recursive_types(M)]
pub struct Supervisor<M> {
    pub sv_tx: MailboxSender<M>,
    pub sv_group: Group,
}

/// What a supervisor supervises.
#[derive(Debug)]
#[verifier::reject_recursive_types(M)]
pub enum Child<M> {
    Worker(Group),
    Super(Supervisor<M>),
}

impl<M> Child<M> {
    /// The group behind a child.
    pub open spec fn group(self) -> Group {
        match self {
            Child::Worker(group) => group,
            Child::Super(supervisor) => supervisor.sv_group,
        }
    }

    /// The handle of the task behind a child.
    pub fn into_handle(self) -> (handle: Handle)
        ensures
            handle == self.group().inner.sv_handle,
        opens_invariants none
        no_unwind
    {
        match self {
            Child::Worker(group) => group.inner.sv_handle,
            Child::Super(supervisor) => supervisor.sv_group.inner.sv_handle,
        }
    }

    /// The task behind a child.
    pub fn into_pid(self) -> (pid: Pid<()>)
        ensures
            pid == self.group().inner.sv_handle.pid(),
        opens_invariants none
        no_unwind
    {
        self.into_handle().into_pid()
    }
}

impl<M> Deref for Child<M> {
    type Target = Group;

    fn deref(&self) -> (group: &Group)
        ensures
            *group == self.group(),
    {
        match self {
            Child::Worker(group) => group,
            Child::Super(supervisor) => &supervisor.sv_group,
        }
    }
}

impl<M> From<Group> for Child<M> {
    fn from(value: Group) -> (child: Self) {
        Child::Worker(value)
    }
}

impl<M> vstd::std_specs::convert::FromSpecImpl<Group> for Child<M> {
    open spec fn obeys_from_spec() -> bool {
        true
    }

    open spec fn from_spec(value: Group) -> Self {
        Child::Worker(value)
    }
}

impl<M> From<Supervisor<M>> for Child<M> {
    fn from(value: Supervisor<M>) -> (child: Self) {
        Child::Super(value)
    }
}

impl<M> vstd::std_specs::convert::FromSpecImpl<Supervisor<M>> for Child<M> {
    open spec fn obeys_from_spec() -> bool {
        true
    }

    open spec fn from_spec(value: Supervisor<M>) -> Self {
        Child::Super(value)
    }
}

/// What a supervisor can be told.
#[derive(Debug)]
#[verifier::reject_recursive_types(M)]
pub enum SupervisorMessage<M> {
    AddChild(Child<M>, oneshot::Sender<ChildRef>),
    TerminateChild(ChildRef, oneshot::Sender<Result<(), ()>>),
}

/// The place of a child: it holds the child until the child is gone for good.
#[verifier::reject_recursive_types(M)]
pub enum ChildState<M> {
    Deleted,
    Active(Ward<M>),
}

impl<M> Default for ChildState<M> {
    fn default() -> (slot: Self)
        ensures
            slot == ChildState::<M>::Deleted,
    {
        ChildState::Deleted
    }
}

/// A child that was added at some time, under the id it had then.
#[verifier::reject_recursive_types(M)]
pub struct SupervisedChild<M> {
    pub task_id: TaskIdRepr,
    pub slot: ChildState<M>,
}

impl<M> SupervisedChild<M> {
    /// The same place without the child.
    pub open spec fn deleted(self) -> Self {
        SupervisedChild { task_id: self.task_id, slot: ChildState::Deleted }
    }

    /// The place after its child was sent this signal, once: the child is given up
    /// where the signal did not reach it.
    pub open spec fn settled(self, state: SupvervisorState, ok: bool) -> Self {
        match self.slot {
            ChildState::Active(ward) if ok => SupervisedChild {
                task_id: self.task_id,
                slot: ChildState::Active(ward.after_signal(state, ok)),
            },
            _ => self.deleted(),
        }
    }
}

/// A signal that a child was sent, and whether it was received.
#[derive(Debug, Clone, Copy, PartialEq, Eq, Structural)]
pub struct Signal {
    pub task_id: TaskIdRepr,
    pub state: SupvervisorState,
    pub received: bool,
}

/// The children after each of those from `from` up to `to` was sent this signal, once,
/// which reached it or not as `ok` says. The others were sent nothing.
pub open spec fn settle<M>(
    children: Seq<SupervisedChild<M>>,
    state: SupvervisorState,
    ok: Seq<bool>,
    from: int,
    to: int,
) -> Seq<SupervisedChild<M>> {
    Seq::new(
        children.len(),
        |i: int|
            if from <= i < to {
                children[i].settled(state, ok[i])
            } else {
                children[i]
            },
    )
}

/// Each child from `from` up to `to` was sent the signal, and received it or not
/// as `ok` says.
pub open spec fn all_signalled<M>(
    children: Seq<SupervisedChild<M>>,
    state: SupvervisorState,
    ok: Seq<bool>,
    from: int,
    to: int,
) -> bool {
    forall|i: int|
        from <= i < to ==> ((#[trigger] children[i]).slot matches ChildState::Active(ward)
            ==> ward.child().group().signalled(state, ok[i]))
}

/// The signal that goes to one place: none where its child is gone.
pub open spec fn signal_to<M>(
    place: SupervisedChild<M>,
    state: SupvervisorState,
    ok: bool,
) -> Seq<Signal> {
    if place.slot is Active {
        seq![Signal { task_id: place.task_id, state, received: ok }]
    } else {
        Seq::empty()
    }
}

/// The signals that suspend the children from `from` up to `to`, the last child
/// first.
pub open spec fn suspend_signals<M>(
    children: Seq<SupervisedChild<M>>,
    ok: Seq<bool>,
    from: int,
    to: int,
) -> Seq<Signal>
    decreases to - from,
{
    if to <= from {
        Seq::empty()
    } else {
        suspend_signals(children, ok, from + 1, to) + signal_to(
            children[from],
            SupvervisorState::Suspend,
            ok[from],
        )
    }
}

/// The signals that resume the children from `from` up to `to`, the first child
/// first.
pub open spec fn resume_signals<M>(
    children: Seq<SupervisedChild<M>>,
    ok: Seq<bool>,
    from: int,
    to: int,
) -> Seq<Signal>
    decreases to - from,
{
    if to <= from {
        Seq::empty()
    } else {
        resume_signals(children, ok, from, to - 1) + signal_to(
            children[to - 1],
            SupvervisorState::Active,
            ok[to - 1],
        )
    }
}

/// The children that are not gone, in their order.
pub open spec fn active<M>(children: Seq<SupervisedChild<M>>) -> Seq<Child<M>>
    decreases children.len(),
{
    if children.len() == 0 {
        Seq::empty()
    } else {
        let before = active(children.drop_last());
        match children.last().slot {
            ChildState::Active(ward) => before.push(ward.child()),
            ChildState::Deleted => before,
        }
    }
}

/// There is one handle for each of the children, in their order.
pub open spec fn watching<M>(refs: Seq<GroupRef>, children: Seq<Child<M>>) -> bool {
    &&& refs.len() == children.len()
    &&& forall|i: int|
        0 <= i < refs.len() ==> (#[trigger] refs[i]).observes(children[i].group())
}

/// What changes in the set of children that a supervisor waits for, and the
/// signals that were sent, oldest first.
#[derive(Debug)]
pub struct Rewatch {
    /// Forget every child that is waited for.
    pub clear: bool,
    /// Wait for each of these to run, as `GroupRef::watch_now` says, and then to be
    /// suspended.
    pub watch: Vec<GroupRef>,
    /// The signals that were sent.
    pub signals: Vec<Signal>,
}

/// Children that were suspended in order to be restarted, and the signals that
/// were sent, oldest first.
#[derive(Debug)]
pub struct Restart {
    /// Wait for each of these to have stopped, as `GroupRef::wait_until_stopped`
    /// says, and then call `SupervisorImpl::resume_children`.
    pub stopping: Vec<GroupRef>,
    /// The first child that is then resumed.
    pub start: usize,
    /// The signals that were sent.
    pub signals: Vec<Signal>,
}

/// What is left to do once a supervisor has seen to the end of a child.
#[derive(Debug)]
pub enum ExitAction {
    /// Nothing.
    Done,
    /// Wait for other children from now on.
    Rewatch(Rewatch),
    /// Wait for children to stop and resume them.
    Restart(Restart),
}

/// The child at `ix` is the first one under this id.
pub open spec fn first_at<M>(
    children: Seq<SupervisedChild<M>>,
    task_id: TaskIdRepr,
    ix: int,
) -> bool {
    &&& 0 <= ix < children.len()
    &&& children[ix].task_id == task_id
    &&& forall|i: int| 0 <= i < ix ==> (#[trigger] children[i]).task_id != task_id
}

/// No child was added under this id.
pub open spec fn unknown<M>(children: Seq<SupervisedChild<M>>, task_id: TaskIdRepr) -> bool {
    forall|i: int| 0 <= i < children.len() ==> (#[trigger] children[i]).task_id != task_id
}

/// The children from `stop` on were suspended, the last one first, each child that
/// the signal did not reach was given up, and those that are left are waited for
/// until they stop.
pub open spec fn stopped_from<M>(
    before: Seq<SupervisedChild<M>>,
    after: Seq<SupervisedChild<M>>,
    restart: Restart,
    stop: int,
    ok: Seq<bool>,
) -> bool {
    let n = before.len() as int;
    &&& ok.len() == n
    &&& all_signalled(before, SupvervisorState::Suspend, ok, stop, n)
    &&& after == settle(before, SupvervisorState::Suspend, ok, stop, n)
    &&& restart.signals@ == suspend_signals(before, ok, stop, n)
    &&& watching(restart.stopping@, active(after.skip(stop)))
}

/// The children from `start` on were resumed, the first one first, each child that
/// the signal did not reach was given up, and every child that is left is waited
/// for.
pub open spec fn resumed_from<M>(
    before: Seq<SupervisedChild<M>>,
    after: Seq<SupervisedChild<M>>,
    report: Rewatch,
    start: int,
    ok: Seq<bool>,
) -> bool {
    let n = before.len() as int;
    &&& ok.len() == n
    &&& all_signalled(before, SupvervisorState::Active, ok, start, n)
    &&& after == settle(before, SupvervisorState::Active, ok, start, n)
    &&& report.clear
    &&& report.signals@ == resume_signals(before, ok, start, n)
    &&& watching(report.watch@, active(after))
}

/// The child at `ix` was resumed. It is waited for again where the signal reached
/// it, and given up otherwise.
pub open spec fn resumed_one<M>(
    before: Seq<SupervisedChild<M>>,
    after: Seq<SupervisedChild<M>>,
    report: Rewatch,
    ix: int,
    ok: bool,
) -> bool {
    &&& before[ix].slot matches ChildState::Active(ward)
    &&& ward.child().group().signalled(SupvervisorState::Active, ok)
    &&& after == before.update(ix, before[ix].settled(SupvervisorState::Active, ok))
    &&& !report.clear
    &&& report.signals@ == signal_to(before[ix], SupvervisorState::Active, ok)
    &&& watching(
        report.watch@,
        if ok {
            seq![ward.child()]
        } else {
            Seq::empty()
        },
    )
}

/// What a supervisor does once the active child at `ix` has stopped. Under
/// one-for-one it resumes the child. Otherwise it suspends the children that are to
/// be restarted with it, which are resumed later.
pub open spec fn restarts<M>(
    strategy: SupervisorStrategy,
    before: Seq<SupervisedChild<M>>,
    after: Seq<SupervisedChild<M>>,
    action: ExitAction,
    ix: int,
) -> bool {
    match strategy {
        SupervisorStrategy::OneForOne => {
            &&& action matches ExitAction::Rewatch(report)
            &&& exists|ok: bool| #[trigger] resumed_one(before, after, report, ix, ok)
        },
        SupervisorStrategy::OneForAll => {
            &&& action matches ExitAction::Restart(restart)
            &&& restart.start == 0
            &&& exists|ok: Seq<bool>| #[trigger] stopped_from(before, after, restart, 0, ok)
        },
        SupervisorStrategy::RestForAll => {
            &&& action matches ExitAction::Restart(restart)
            &&& restart.start == ix
            &&& exists|ok: Seq<bool>| #[trigger] stopped_from(before, after, restart, ix + 1, ok)
        },
    }
}

/// Sends a signal to the child at `ix`, gives the child up where the signal does
/// not reach it, and notes the signal.
fn signal_child<M>(
    children: &mut Vec<SupervisedChild<M>>,
    ix: usize,
    state: SupvervisorState,
    signals: &mut Vec<Signal>,
) -> (ok: bool)
    requires
        ix < old(children)@.len(),
    ensures
        old(children)@[ix as int].slot matches ChildState::Active(ward)
            ==> ward.child().group().signalled(state, ok),
        final(children)@ == old(children)@.update(
            ix as int,
            old(children)@[ix as int].settled(state, ok),
        ),
        final(signals)@ == old(signals)@ + signal_to(old(children)@[ix as int], state, ok),
{
    let task_id: TaskIdRepr = children[ix].task_id;
    match take_slot(children, ix) {
        ChildState::Active(ward) => {
            let mut ward = ward;
            let received = ward.signal(state);
            if received {
                children.set(ix, SupervisedChild { task_id, slot: ChildState::Active(ward) });
            }
            signals.push(Signal { task_id, state, received });
            assert(signals@ =~= old(signals)@ + signal_to(
                old(children)@[ix as int],
                state,
                received,
            ));
            assert(children@ =~= old(children)@.update(
                ix as int,
                old(children)@[ix as int].settled(state, received),
            ));
            received
        },
        ChildState::Deleted => {
            assert(signals@ =~= old(signals)@ + Seq::empty());
            true
        },
    }
}

/// Suspends the children from `from` on, the last one first.
fn suspend_each<M>(
    children: &mut Vec<SupervisedChild<M>>,
    from: usize,
    signals: &mut Vec<Signal>,
) -> (ok: Ghost<Seq<bool>>)
    requires
        from <= old(children)@.len(),
    ensures
        ok@.len() == old(children)@.len(),
        all_signalled(
            old(children)@,
            SupvervisorState::Suspend,
            ok@,
            from as int,
            old(children)@.len() as int,
        ),
        final(children)@ == settle(
            old(children)@,
            SupvervisorState::Suspend,
            ok@,
            from as int,
            old(children)@.len() as int,
        ),
        final(signals)@ == old(signals)@ + suspend_signals(
            old(children)@,
            ok@,
            from as int,
            old(children)@.len() as int,
        ),
{
    let n: usize = children.len();
    let ghost mut ok: Seq<bool> = Seq::new(n as nat, |i: int| true);
    let mut i: usize = n;
    assert(children@ =~= settle(old(children)@, SupvervisorState::Suspend, ok, i as int, n as int));
    assert(signals@ =~= old(signals)@ + suspend_signals(old(children)@, ok, i as int, n as int));
    while i > from
        invariant
            from <= i <= n,
            n == old(children)@.len(),
            ok.len() == n,
            children@ == settle(old(children)@, SupvervisorState::Suspend, ok, i as int, n as int),
            all_signalled(
                old(children)@,
                SupvervisorState::Suspend,
                ok,
                i as int,
                n as int,
            ),
            signals@ == old(signals)@ + suspend_signals(old(children)@, ok, i as int, n as int),
        decreases i,
    {
        i = i - 1;
        let received = signal_child(children, i, SupvervisorState::Suspend, signals);
        proof {
            let more = ok.update(i as int, received);
            lemma_suspend_signals_agree(old(children)@, ok, more, i + 1, n as int);
            assert(children@ =~= settle(
                old(children)@,
                SupvervisorState::Suspend,
                more,
                i as int,
                n as int,
            ));
            assert(signals@ =~= old(signals)@ + suspend_signals(
                old(children)@,
                more,
                i as int,
                n as int,
            ));
            ok = more;
        }
    }
    Ghost(ok)
}

/// Resumes the children from `from` on, the first one first.
fn resume_each<M>(
    children: &mut Vec<SupervisedChild<M>>,
    from: usize,
    signals: &mut Vec<Signal>,
) -> (ok: Ghost<Seq<bool>>)
    ensures
        ok@.len() == old(children)@.len(),
        all_signalled(
            old(children)@,
            SupvervisorState::Active,
            ok@,
            from as int,
            old(children)@.len() as int,
        ),
        final(children)@ == settle(
            old(children)@,
            SupvervisorState::Active,
            ok@,
            from as int,
            old(children)@.len() as int,
        ),
        final(signals)@ == old(signals)@ + resume_signals(
            old(children)@,
            ok@,
            from as int,
            old(children)@.len() as int,
        ),
{
    let n: usize = children.len();
    let ghost mut ok: Seq<bool> = Seq::new(n as nat, |i: int| true);
    let mut i: usize = from;
    assert(children@ =~= settle(
        old(children)@,
        SupvervisorState::Active,
        ok,
        from as int,
        i as int,
    ));
    assert(signals@ =~= old(signals)@ + resume_signals(old(children)@, ok, from as int, i as int));
    while i < n
        invariant
            from <= i,
            i <= n || i == from,
            n == old(children)@.len(),
            ok.len() == n,
            children@ == settle(
                old(children)@,
                SupvervisorState::Active,
                ok,
                from as int,
                i as int,
            ),
            all_signalled(
                old(children)@,
                SupvervisorState::Active,
                ok,
                from as int,
                i as int,
            ),
            signals@ == old(signals)@ + resume_signals(
                old(children)@,
                ok,
                from as int,
                i as int,
            ),
        decreases n - i,
    {
        let received = signal_child(children, i, SupvervisorState::Active, signals);
        proof {
            let more = ok.update(i as int, received);
            lemma_resume_signals_agree(old(children)@, ok, more, from as int, i as int);
            assert(children@ =~= settle(
                old(children)@,
                SupvervisorState::Active,
                more,
                from as int,
                i + 1,
            ));
            assert(signals@ =~= old(signals)@ + resume_signals(
                old(children)@,
                more,
                from as int,
                i + 1,
            ));
            ok = more;
        }
        i = i + 1;
    }
    assert(children@ =~= settle(
        old(children)@,
        SupvervisorState::Active,
        ok,
        from as int,
        n as int,
    ));
    Ghost(ok)
}

proof fn lemma_suspend_signals_agree<M>(
    children: Seq<SupervisedChild<M>>,
    a: Seq<bool>,
    b: Seq<bool>,
    from: int,
    to: int,
)
    requires
        forall|i: int| from <= i < to ==> a[i] == b[i],
    ensures
        suspend_signals(children, a, from, to) == suspend_signals(children, b, from, to),
    decreases to - from,
{
    if from < to {
        lemma_suspend_signals_agree(children, a, b, from + 1, to);
    }
}

proof fn lemma_resume_signals_agree<M>(
    children: Seq<SupervisedChild<M>>,
    a: Seq<bool>,
    b: Seq<bool>,
    from: int,
    to: int,
)
    requires
        forall|i: int| from <= i < to ==> a[i] == b[i],
    ensures
        resume_signals(children, a, from, to) == resume_signals(children, b, from, to),
    decreases to - from,
{
    if from < to {
        lemma_resume_signals_agree(children, a, b, from, to - 1);
    }
}

/// Handles for the children from `from` on that are not gone.
fn active_refs<M>(children: &Vec<SupervisedChild<M>>, from: usize) -> (refs: Vec<GroupRef>)
    requires
        from <= children@.len(),
    ensures
        watching(refs@, active(children@.skip(from as int))),
{
    let ghost rest = children@.skip(from as int);
    let mut refs: Vec<GroupRef> = Vec::new();
    let mut i: usize = from;
    assert(rest.take(0) =~= Seq::empty());
    while i < children.len()
        invariant
            from <= i <= children.len(),
            rest == children@.skip(from as int),
            watching(refs@, active(rest.take(i - from))),
        decreases children.len() - i,
    {
        assert(rest.take(i - from + 1).drop_last() =~= rest.take(i - from));
        if let ChildState::Active(ward) = &children[i].slot {
            refs.push(ward.group_ref());
        }
        i = i + 1;
    }
    assert(rest.take(i - from) =~= rest);
    refs
}

/// Suspends the children from `stop` on, so that those from `start` on are resumed
/// later.
fn stop_children<M>(children: &mut Vec<SupervisedChild<M>>, stop: usize, start: usize) -> (res: (
    Restart,
    Ghost<Seq<bool>>,
))
    requires
        stop <= old(children)@.len(),
    ensures
        res.0.start == start,
        stopped_from(old(children)@, final(children)@, res.0, stop as int, res.1@),
{
    let mut signals: Vec<Signal> = Vec::new();
    let Ghost(ok) = suspend_each(children, stop, &mut signals);
    let stopping = active_refs(children, stop);
    let restart = Restart { stopping, start, signals };
    proof {
        let n = old(children)@.len() as int;
        assert(restart.signals@ =~= suspend_signals(old(children)@, ok, stop as int, n));
    }
    (restart, Ghost(ok))
}

/// Resumes the child at `ix`, which has stopped.
fn resume_child<M>(children: &mut Vec<SupervisedChild<M>>, ix: usize) -> (res: (
    Rewatch,
    Ghost<bool>,
))
    requires
        ix < old(children)@.len(),
        old(children)@[ix as int].slot is Active,
    ensures
        resumed_one(old(children)@, final(children)@, res.0, ix as int, res.1@),
{
    let mut signals: Vec<Signal> = Vec::new();
    let ok = signal_child(children, ix, SupvervisorState::Active, &mut signals);
    let mut watch: Vec<GroupRef> = Vec::new();
    if let ChildState::Active(ward) = &children[ix].slot {
        watch.push(ward.group_ref());
    }
    let report = Rewatch { clear: false, watch, signals };
    proof {
        assert(report.signals@ =~= signal_to(
            old(children)@[ix as int],
            SupvervisorState::Active,
            ok,
        ));
    }
    (report, Ghost(ok))
}

/// The place of the first child under an id.
fn position<M>(children: &Vec<SupervisedChild<M>>, task_id: TaskIdRepr) -> (found: Option<usize>)
    ensures
        match found {
            Some(ix) => first_at(children@, task_id, ix as int),
            None => unknown(children@, task_id),
        },
    no_unwind
{
    let mut i: usize = 0;
    while i < children.len()
        invariant
            i <= children.len(),
            forall|j: int| 0 <= j < i ==> (#[trigger] children@[j]).task_id != task_id,
        decreases children.len() - i,
    {
        if children[i].task_id == task_id {
            return Some(i);
        }
        i = i + 1;
    }
    None
}

/// How long a child that is terminated is given to exit: one second.
pub struct ExitTime {
    timeout: Duration,
}

impl ExitTime {
    #[verifier::type_invariant]
    spec fn is_one_second(self) -> bool {
        self.timeout == trusted::duration_from_secs(1)
    }

    pub fn new() -> (time: Self) {
        ExitTime { timeout: Duration::from_secs(1) }
    }

    /// The time as a duration.
    pub fn timeout(&self) -> (timeout: Duration)
        ensures
            timeout == trusted::duration_from_secs(1),
        no_unwind
    {
        proof {
            use_type_invariant(self);
        }
        self.timeout
    }
}

/// A supervisor and its children.
#[verifier::reject_recursive_types(M)]
#[verifier::reject_recursive_types(F)]
#[verifier::reject_recursive_types(S)]
pub struct SupervisorImpl<M, F, S> {
    pub inner: SimpleSupervisorImpl<F, S>,
    pub children: Vec<SupervisedChild<M>>,
    pub strategy: SupervisorStrategy,
    pub rx: MailboxReceiver<M>,
    pub exit_time: ExitTime,
}

impl<M, F, S> SupervisorImpl<M, F, S> {
    /// Only the children differ.
    pub open spec fn same_but_children(self, other: Self) -> bool {
        &&& self.inner == other.inner
        &&& self.strategy == other.strategy
        &&& self.rx == other.rx
        &&& self.exit_time == other.exit_time
    }

    /// A supervisor without children.
    pub fn new(
        inner: SimpleSupervisorImpl<F, S>,
        rx: MailboxReceiver<M>,
        strategy: SupervisorStrategy,
    ) -> (sv: Self)
        ensures
            sv.inner == inner,
            sv.rx == rx,
            sv.strategy == strategy,
            sv.children@ == Seq::<SupervisedChild<M>>::empty(),
    {
        SupervisorImpl { inner, children: Vec::new(), strategy, rx, exit_time: ExitTime::new() }
    }

    /// Begins to restart children after the one with this id has stopped. A child
    /// that is unknown or gone for good changes nothing.
    pub fn handle_task_exit(&mut self, task_id: TaskIdRepr) -> (action: ExitAction)
        ensures
            final(self).same_but_children(*old(self)),
            exit_handled(
                old(self).strategy,
                old(self).children@,
                task_id,
                final(self).children@,
                action,
            ),
        no_unwind when unknown(old(self).children@, task_id)
    {
        let ix: usize = match position(&self.children, task_id) {
            Some(ix) => ix,
            None => return ExitAction::Done,
        };
        assert(ix < self.children.len());
        if let ChildState::Deleted = &self.children[ix].slot {
            return ExitAction::Done;
        }
        let ghost before = self.children@;
        let action = match self.strategy {
            SupervisorStrategy::OneForOne => {
                let (report, Ghost(ok)) = resume_child(&mut self.children, ix);
                let action = ExitAction::Rewatch(report);
                assert(resumed_one(before, self.children@, action->Rewatch_0, ix as int, ok));
                action
            },
            SupervisorStrategy::OneForAll => {
                let (restart, Ghost(ok)) = stop_children(&mut self.children, 0, 0);
                let action = ExitAction::Restart(restart);
                assert(stopped_from(before, self.children@, action->Restart_0, 0, ok));
                action
            },
            SupervisorStrategy::RestForAll => {
                let (restart, Ghost(ok)) = stop_children(&mut self.children, ix + 1, ix);
                let action = ExitAction::Restart(restart);
                assert(stopped_from(before, self.children@, action->Restart_0, ix + 1, ok));
                action
            },
        };
        proof {
            assert(restarts(self.strategy, before, self.children@, action, ix as int));
            assert forall|other: int| #[trigger] first_at(before, task_id, other) implies other
                == ix by {
                if other < ix {
                    assert(before[other].task_id != task_id);
                } else if ix < other {
                    assert(before[ix as int].task_id != task_id);
                }
            }
        }
        action
    }

    /// Resumes the children from `start` on, once those that were suspended have
    /// stopped.
    pub fn resume_children(&mut self, start: usize) -> (report: Rewatch)
        ensures
            final(self).same_but_children(*old(self)),
            exists|ok: Seq<bool>| #[trigger]
                resumed_from(
                    old(self).children@,
                    final(self).children@,
                    report,
                    start as int,
                    ok,
                ),
    {
        let mut signals: Vec<Signal> = Vec::new();
        let Ghost(ok) = resume_each(&mut self.children, start, &mut signals);
        let watch = active_refs(&self.children, 0);
        let report = Rewatch { clear: true, watch, signals };
        proof {
            let n = old(self).children@.len() as int;
            assert(self.children@.skip(0) =~= self.children@);
            assert(report.signals@ =~= resume_signals(old(self).children@, ok, start as int, n));
            assert(resumed_from(
                old(self).children@,
                self.children@,
                report,
                start as int,
                ok,
            ));
        }
        report
    }

    /// Does what a message asks for, as far as it can be done at once. A child that is
    /// handed out is neither sent a signal nor cancelled on the way: nothing is called
    /// then of which it is not known that it cannot unwind.
    pub fn handle_supervisor_message(&mut self, message: SupervisorMessage<M>) -> (action:
        MessageAction<M>)
        ensures
            final(self).same_but_children(*old(self)),
            message_handled(old(self).children@, message, final(self).children@, action),
        no_unwind when hands_out(old(self).children@, message)
    {
        match message {
            SupervisorMessage::TerminateChild(child_ref, tx) => {
                match position(&self.children, child_ref.0) {
                    None => {
                        let _ = tx.send(Err(()));
                        MessageAction::Done
                    },
                    Some(ix) => {
                        let slot = take_slot(&mut self.children, ix);
                        match slot {
                            ChildState::Deleted => {
                                let _ = tx.send(Ok(()));
                                MessageAction::Done
                            },
                            ChildState::Active(ward) => MessageAction::ExitChild {
                                child: ward.into_child(),
                                timeout: self.exit_time.timeout(),
                                reply: tx,
                            },
                        }
                    },
                }
            },
            SupervisorMessage::AddChild(child, tx) => {
                let ward = Ward::new(child);
                let task_id: TaskIdRepr = ward.task_id();
                let group_ref = ward.group_ref();
                assert(takes_in(child, ward));
                self.children.push(SupervisedChild { task_id, slot: ChildState::Active(ward) });
                let _ = tx.send(ChildRef(task_id));
                MessageAction::Watch(group_ref)
            },
        }
    }

    /// Looks whether the supervisor, while it is suspended, goes on, and publishes
    /// where it does that it runs again.
    pub fn resume(&mut self, wait: SignalWait) -> (resume: Resume)
        ensures
            old(self).inner.resumed_idle(wait, final(self).inner, resume),
            final(self).children == old(self).children,
            final(self).strategy == old(self).strategy,
            final(self).rx == old(self).rx,
            final(self).exit_time == old(self).exit_time,
    {
        self.inner.resume_idle(wait)
    }

    /// Gives up all children and hands out those that were not gone, in their
    /// order, so that each is told to exit.
    pub fn shutdown_children(&mut self) -> (children: Vec<Child<M>>)
        ensures
            final(self).same_but_children(*old(self)),
            children@ == active(old(self).children@),
            final(self).children@ == all_deleted(old(self).children@),
    {
        let mut children: Vec<Child<M>> = Vec::new();
        let ghost before = self.children@;
        let n: usize = self.children.len();
        let mut i: usize = 0;
        assert(before.take(0) =~= Seq::empty());
        while i < n
            invariant
                i <= n,
                n == before.len(),
                before == old(self).children@,
                self.same_but_children(*old(self)),
                self.children@.len() == n,
                children@ == active(before.take(i as int)),
                forall|j: int|
                    0 <= j < n ==> #[trigger] self.children@[j] == if j < i {
                        before[j].deleted()
                    } else {
                        before[j]
                    },
            decreases n - i,
        {
            assert(before.take(i + 1).drop_last() =~= before.take(i as int));
            match take_slot(&mut self.children, i) {
                ChildState::Deleted => {},
                ChildState::Active(ward) => {
                    children.push(ward.into_child());
                },
            }
            i = i + 1;
        }
        assert(before.take(n as int) =~= before);
        assert(self.children@ =~= all_deleted(before));
        children
    }
}

/// What is left to do once a supervisor has seen to a message.
#[derive(Debug)]
#[verifier::reject_recursive_types(M)]
pub enum MessageAction<M> {
    /// Nothing.
    Done,
    /// Wait for this child to be suspended.
    Watch(GroupRef),
    /// Tell the child to exit within `timeout`, and then call `acknowledge`,
    /// whether or not the child could be told.
    ExitChild { child: Child<M>, timeout: Duration, reply: oneshot::Sender<Result<(), ()>> },
}

/// The answer was sent.
pub open spec fn answered<T>(reply: oneshot::Sender<T>, answer: T) -> bool {
    exists|res: Result<(), T>| call_ensures(oneshot::Sender::<T>::send, (reply, answer), res)
}

/// The message asks for a child to be terminated that is not gone.
pub open spec fn hands_out<M>(
    children: Seq<SupervisedChild<M>>,
    message: SupervisorMessage<M>,
) -> bool {
    &&& message matches SupervisorMessage::TerminateChild(child_ref, tx)
    &&& exists|ix: int| #[trigger]
        first_at(children, child_ref.0, ix) && children[ix].slot is Active
}

/// The child was taken into care, and was sent nothing there yet.
pub open spec fn takes_in<M>(child: Child<M>, ward: Ward<M>) -> bool {
    ward.child() == child && ward.sent().len() == 0
}

/// What a supervisor does with a message.
pub open spec fn message_handled<M>(
    before: Seq<SupervisedChild<M>>,
    message: SupervisorMessage<M>,
    after: Seq<SupervisedChild<M>>,
    action: MessageAction<M>,
) -> bool {
    match message {
        SupervisorMessage::TerminateChild(child_ref, tx) => {
            &&& unknown(before, child_ref.0) ==> {
                &&& after == before
                &&& action == MessageAction::<M>::Done
                &&& answered(tx, Err::<(), ()>(()))
            }
            &&& forall|ix: int| #[trigger]
                first_at(before, child_ref.0, ix) ==> {
                    &&& after == before.update(ix, before[ix].deleted())
                    &&& match before[ix].slot {
                        ChildState::Deleted => {
                            &&& action == MessageAction::<M>::Done
                            &&& answered(tx, Ok::<(), ()>(()))
                        },
                        ChildState::Active(ward) => action == (MessageAction::ExitChild {
                            child: ward.child(),
                            timeout: trusted::duration_from_secs(1),
                            reply: tx,
                        }),
                    }
                }
        },
        SupervisorMessage::AddChild(child, tx) => {
            &&& exists|ward: Ward<M>|
                {
                    &&& #[trigger] takes_in(child, ward)
                    &&& after == before.push(
                        SupervisedChild {
                            task_id: child.group().id(),
                            slot: ChildState::Active(ward),
                        },
                    )
                }
            &&& action matches MessageAction::Watch(group_ref)
            &&& group_ref.observes(child.group())
            &&& answered(tx, ChildRef(child.group().id()))
        },
    }
}

/// Tells whoever asked for a child to be terminated that it was.
pub fn acknowledge(reply: oneshot::Sender<Result<(), ()>>)
    ensures
        answered(reply, Ok::<(), ()>(())),
{
    let _ = reply.send(Ok(()));
}

/// The places of the children without the children.
pub open spec fn all_deleted<M>(children: Seq<SupervisedChild<M>>) -> Seq<SupervisedChild<M>> {
    Seq::new(children.len(), |i: int| children[i].deleted())
}

/// Takes a child out of its place.
fn take_slot<M>(children: &mut Vec<SupervisedChild<M>>, ix: usize) -> (slot: ChildState<M>)
    requires
        ix < old(children)@.len(),
    ensures
        slot == old(children)@[ix as int].slot,
        final(children)@ == old(children)@.update(ix as int, old(children)@[ix as int].deleted()),
    no_unwind
{
    let mut slot = ChildState::Deleted;
    std::mem::swap(&mut children[ix].slot, &mut slot);
    slot
}

/// What a supervisor woke up for.
#[derive(Debug)]
#[verifier::reject_recursive_types(M)]
pub enum Select<M> {
    TaskExit(Option<TaskIdRepr>),
    Message(SupervisorMessage<M>),
    Inner(simple_supervisor::Select),
}

/// What is left to do once a supervisor has seen to an event.
#[derive(Debug)]
#[verifier::reject_recursive_types(M)]
pub enum SelectAction<M> {
    /// Nothing.
    Continue,
    /// What the supervisor does as a group itself.
    Inner(Next),
    /// What the end of a child asks for.
    TaskExit(ExitAction),
    /// What a message asks for.
    Message(MessageAction<M>),
    /// Tell each child to exit within `timeout`, pass each to `collect_told`, wait
    /// for them as long as `shutdown_grace` says, and leave the event loop.
    Shutdown { children: Vec<Child<M>>, timeout: Duration },
}

impl<M> SelectAction<M> {
    /// Whether the event loop goes on after this.
    pub fn flow(&self) -> (flow: ControlFlow<()>)
        ensures
            flow == if self is Shutdown {
                ControlFlow::<()>::Break(())
            } else {
                ControlFlow::<()>::Continue(())
            },
    {
        match self {
            SelectAction::Shutdown { .. } => ControlFlow::Break(()),
            _ => ControlFlow::Continue(()),
        }
    }
}

/// What a supervisor does with the end of a child.
pub open spec fn exit_handled<M>(
    strategy: SupervisorStrategy,
    before: Seq<SupervisedChild<M>>,
    task_id: TaskIdRepr,
    after: Seq<SupervisedChild<M>>,
    action: ExitAction,
) -> bool {
    &&& forall|ix: int| #[trigger]
        first_at(before, task_id, ix) && before[ix].slot is Active ==> restarts(
            strategy,
            before,
            after,
            action,
            ix,
        )
    &&& (unknown(before, task_id) || exists|ix: int| #[trigger]
        first_at(before, task_id, ix) && before[ix].slot is Deleted) ==> {
        &&& after == before
        &&& action == ExitAction::Done
    }
}

impl<M, F, Fut, S> SupervisorImpl<M, F, S> where
    F: Fn() -> Fut,
    S: Fn(Arc<Notify>, Fut, TaskKind) -> Pid<()>,
 {
    /// What a supervisor does with an event, and what is left to do.
    pub open spec fn after_event(self, sel: Select<M>, after: Self, action: SelectAction<M>) -> bool {
        match sel {
            Select::Inner(
                simple_supervisor::Select::Message(SimpleSupervisorMessage::Exit { timeout }),
            ) => {
                &&& action matches SelectAction::Shutdown { children, timeout: t }
                &&& t == timeout
                &&& children@ == active(self.children@)
                &&& after.children@ == all_deleted(self.children@)
                &&& after.same_but_children(self)
            },
            Select::Inner(inner_sel) => {
                &&& action matches SelectAction::Inner(next)
                &&& self.inner.after_event(inner_sel, after.inner, next)
                &&& after.children == self.children
                &&& after.strategy == self.strategy
                &&& after.rx == self.rx
                &&& after.exit_time == self.exit_time
            },
            Select::TaskExit(None) => {
                &&& action == SelectAction::<M>::Continue
                &&& after == self
            },
            Select::TaskExit(Some(task_id)) => {
                &&& action matches SelectAction::TaskExit(left)
                &&& exit_handled(
                    self.strategy,
                    self.children@,
                    task_id,
                    after.children@,
                    left,
                )
                &&& after.same_but_children(self)
            },
            Select::Message(message) => {
                &&& action matches SelectAction::Message(left)
                &&& message_handled(self.children@, message, after.children@, left)
                &&& after.same_but_children(self)
            },
        }
    }

    /// Sees to one event.
    pub fn handle_select(&mut self, sel: Select<M>) -> (action: SelectAction<M>)
        requires
            old(self).inner.can_spawn(),
        ensures
            old(self).after_event(sel, *final(self), action),
    {
        match sel {
            Select::Inner(
                simple_supervisor::Select::Message(SimpleSupervisorMessage::Exit { timeout }),
            ) => {
                let children = self.shutdown_children();
                SelectAction::Shutdown { children, timeout }
            },
            Select::Inner(inner_sel) => SelectAction::Inner(self.inner.poll(inner_sel)),
            Select::TaskExit(None) => SelectAction::Continue,
            Select::TaskExit(Some(task_id)) => SelectAction::TaskExit(
                self.handle_task_exit(task_id),
            ),
            Select::Message(message) => SelectAction::Message(
                self.handle_supervisor_message(message),
            ),
        }
    }
}

/// Notes a child that was told to exit, so that its end is waited for. A child
/// that could not be told is dropped.
pub fn collect_told<M>(futs: &mut FuturesUnordered<Pid<()>>, child: Child<M>, told: bool)
    ensures
        if told {
            &&& task_handle::joined(*old(futs), child.group().inner.sv_handle, *final(futs))
            &&& trusted::running_ids(*final(futs)) == trusted::running_ids(*old(futs)).insert(
                child.group().id(),
            )
        } else {
            *final(futs) == *old(futs)
        },
    opens_invariants none
{
    if told {
        let mut set = running_new();
        std::mem::swap(futs, &mut set);
        *futs = child.into_handle().join(set);
    }
}

/// How long a supervisor waits, in milliseconds, for children that were given
/// `millis` to stop: a tenth of a second longer. There is no answer where the sum
/// is out of range.
pub fn grace_millis(millis: u128) -> (grace: Option<u64>)
    ensures
        grace == if millis % 0x1_0000_0000_0000_0000 + 100 <= u64::MAX {
            Some((millis % 0x1_0000_0000_0000_0000 + 100) as u64)
        } else {
            None
        },
{
    let low: u64 = (millis % 0x1_0000_0000_0000_0000) as u64;
    low.checked_add(100)
}

/// How long a supervisor waits for children that were given `timeout` to stop.
pub fn shutdown_grace(timeout: Duration) -> (grace: Option<Duration>)
    ensures
        ({
            let low = trusted::duration_as_millis(timeout) % 0x1_0000_0000_0000_0000;
            grace == if low + 100 <= u64::MAX {
                Some(trusted::duration_from_millis((low + 100) as u64))
            } else {
                None
            }
        }),
{
    match grace_millis(timeout.as_millis()) {
        Some(millis) => Some(Duration::from_millis(millis)),
        None => None,
    }
}

impl<M> Supervisor<M> {
    /// What to send to the supervisor so that it takes in a child, and where the
    /// name of the child will then arrive.
    pub fn add_child(&self, child: Child<M>) -> (request: (
        SupervisorMessage<M>,
        oneshot::Receiver<ChildRef>,
    ))
        ensures
            request.0 matches SupervisorMessage::AddChild(c, tx) && c == child && call_ensures(
                oneshot::channel::<ChildRef>,
                (),
                (tx, request.1),
            ),
        opens_invariants none
    {
        let (tx, rx) = oneshot::channel();
        (SupervisorMessage::AddChild(child, tx), rx)
    }

    /// What to send to the supervisor so that it terminates a child, and where the
    /// answer will then arrive.
    pub fn terminate_child(&self, child_ref: ChildRef) -> (request: (
        SupervisorMessage<M>,
        oneshot::Receiver<Result<(), ()>>,
    ))
        ensures
            request.0 matches SupervisorMessage::TerminateChild(r, tx) && r == child_ref
                && call_ensures(oneshot::channel::<Result<(), ()>>, (), (tx, request.1)),
        opens_invariants none
    {
        let (tx, rx) = oneshot::channel();
        (SupervisorMessage::TerminateChild(child_ref, tx), rx)
    }

    /// The group that the supervisor is itself, and what to send to it so that the
    /// supervisor tells its children to exit within `timeout` and ends.
    pub fn exit(self, timeout: Duration) -> (request: (Group, SimpleSupervisorMessage))
        ensures
            request == (self.sv_group, SimpleSupervisorMessage::Exit { timeout }),
        opens_invariants none
        no_unwind
    {
        let message = self.sv_group.exit(timeout);
        (self.sv_group, message)
    }
}

/// How a supervisor runs as a group itself.
pub open spec fn supervisor_config() -> SupervisorConfig {
    SupervisorConfig {
        spawn_at_least: 1,
        task_kind: TaskKind::Super,
        restart_policy: RestartPolicy::OnPanic,
        ..crate::default_config()
    }
}

impl<M> Supervisor<M> {
    /// The handle is the other end of a fresh supervisor with this strategy.
    pub open spec fn controls<F, S, R>(
        self,
        sv: SupervisorImpl<M, F, S>,
        strategy: SupervisorStrategy,
        make_fut: F,
        start: S,
        run_mailbox: R,
    ) -> bool where R: FnOnce(MailboxTask<M>, TaskKind) -> Pid<()> {
        &&& sv.strategy == strategy
        &&& sv.children@ == Seq::<SupervisedChild<M>>::empty()
        &&& self.sv_group.inner.channels().lead_to(
            sv.inner,
            supervisor_config(),
            make_fut,
            start,
        )
        &&& crate::mailbox::lead_to_mailbox((self.sv_tx, sv.rx), 1, run_mailbox)
    }
}

/// Makes a supervisor and starts it. `run_mailbox` starts its mailbox, as in
/// `mailbox`, and `run` starts the supervisor, as a task of the kind that it is
/// told, and is to hand every event to `SupervisorImpl::handle_select`.
pub fn supervisor<M, F, S, R, G>(
    strategy: SupervisorStrategy,
    make_fut: F,
    start: S,
    run_mailbox: R,
    run: G,
) -> (supervisor: Supervisor<M>) where
    R: FnOnce(MailboxTask<M>, TaskKind) -> Pid<()>,
    G: FnOnce(SupervisorImpl<M, F, S>, TaskKind) -> Pid<()>,

    requires
        forall|task: MailboxTask<M>|
            task.mbox@ == MailboxState::<M>::empty() ==> #[trigger] call_requires(
                run_mailbox,
                (task, TaskKind::Worker),
            ),
        forall|sv: SupervisorImpl<M, F, S>|
            sv.strategy == strategy && sv.children@ == Seq::<SupervisedChild<M>>::empty()
                ==> #[trigger] call_requires(run, (sv, TaskKind::Super)),
    ensures
        exists|sv: SupervisorImpl<M, F, S>|
            {
                &&& #[trigger] supervisor.controls(sv, strategy, make_fut, start, run_mailbox)
                &&& call_ensures(
                    run,
                    (sv, TaskKind::Super),
                    supervisor.sv_group.inner.sv_handle.pid(),
                )
            },
{
    let (sv_tx, rx) = mailbox(1, run_mailbox);
    let builder = crate::group().spawn_at_least(1).task_kind(TaskKind::Super).restart_policy(
        RestartPolicy::OnPanic,
    );
    let (inner, chans) = builder.assemble(make_fut, start);
    let sv = SupervisorImpl::new(inner, rx, strategy);
    let sv_handle = run(sv, TaskKind::Super);
    let group_inner = Inner::new(chans.sv_tx, chans.sv_stat, sv_handle, chans.sv_suspend);
    let supervisor = Supervisor { sv_tx, sv_group: Group { inner: group_inner } };
    assert(supervisor.sv_group.inner.channels() == chans);
    assert(supervisor.controls(sv, strategy, make_fut, start, run_mailbox));
    assert(call_ensures(run, (sv, TaskKind::Super), supervisor.sv_group.inner.sv_handle.pid()));
    supervisor
}

} // verus!
