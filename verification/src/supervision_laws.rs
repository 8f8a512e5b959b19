//! What holds of a supervisor over time.
use crate::group::GroupRef;
use crate::simple_supervisor;
use crate::simple_supervisor::{SimpleSupervisorMessage, SupvervisorState};
use crate::supervisor;
use crate::supervisor::{
    ChildRef, ChildState, ExitAction, MessageAction, Rewatch, Select, SelectAction,
    SupervisedChild, SupervisorImpl, SupervisorMessage, SupervisorStrategy,
};
use crate::task::{Pid, TaskIdRepr, TaskKind};
use crate::ward;
use std::sync::Arc;
use std::time::Duration;
use tokio::sync::{oneshot, Notify};
use vstd::multiset::Multiset;
use vstd::prelude::*;

verus! {

broadcast use ward::lemma_after_signal;

/// The place holds none any more, or the child that it held, which was sent what it had
/// been sent, and maybe more.
pub open spec fn holds_on<M>(before: ChildState<M>, after: ChildState<M>) -> bool {
    match (before, after) {
        (_, ChildState::Deleted) => true,
        (ChildState::Active(w), ChildState::Active(v)) => {
            &&& v.child() == w.child()
            &&& w.sent().is_prefix_of(v.sent())
        },
        _ => false,
    }
}

/// Every place is kept under its id, and holds the child that it held or none.
pub open spec fn evolves<M>(
    before: Seq<SupervisedChild<M>>,
    after: Seq<SupervisedChild<M>>,
) -> bool {
    &&& before.len() <= after.len()
    &&& forall|i: int|
        0 <= i < before.len() ==> {
            &&& (#[trigger] after[i]).task_id == before[i].task_id
            &&& holds_on(before[i].slot, after[i].slot)
        }
}

/// Any id either has a first place or none.
proof fn lemma_first_or_unknown<M>(children: Seq<SupervisedChild<M>>, task_id: TaskIdRepr)
    ensures
        supervisor::unknown(children, task_id) || exists|ix: int|
            supervisor::first_at(children, task_id, ix),
    decreases children.len(),
{
    if children.len() > 0 {
        let shorter = children.drop_last();
        lemma_first_or_unknown(shorter, task_id);
        if supervisor::unknown(shorter, task_id) {
            assert forall|i: int| 0 <= i < shorter.len() implies (
            #[trigger] children[i]).task_id != task_id by {
                assert(shorter[i].task_id != task_id);
            }
            if children.last().task_id == task_id {
                assert(supervisor::first_at(children, task_id, children.len() - 1));
            }
        } else {
            let ix = choose|ix: int| supervisor::first_at(shorter, task_id, ix);
            assert forall|i: int| 0 <= i < ix implies (
            #[trigger] children[i]).task_id != task_id by {
                assert(shorter[i].task_id != task_id);
            }
            assert(supervisor::first_at(children, task_id, ix));
        }
    }
}

/// The end of a child moves no place and brings no child back.
pub proof fn law_exit_keeps_places<M>(
    strategy: SupervisorStrategy,
    before: Seq<SupervisedChild<M>>,
    task_id: TaskIdRepr,
    after: Seq<SupervisedChild<M>>,
    action: ExitAction,
)
    requires
        supervisor::exit_handled(strategy, before, task_id, after, action),
    ensures
        evolves(before, after),
        after.len() == before.len(),
{
    lemma_first_or_unknown(before, task_id);
}

/// To resume children moves no place and brings no child back.
pub proof fn law_resume_keeps_places<M>(
    before: Seq<SupervisedChild<M>>,
    after: Seq<SupervisedChild<M>>,
    report: Rewatch,
    start: int,
    ok: Seq<bool>,
)
    requires
        supervisor::resumed_from(before, after, report, start, ok),
    ensures
        evolves(before, after),
        after.len() == before.len(),
{
}

/// A message moves no place and brings no child back.
pub proof fn law_message_keeps_places<M>(
    before: Seq<SupervisedChild<M>>,
    message: SupervisorMessage<M>,
    after: Seq<SupervisedChild<M>>,
    action: MessageAction<M>,
)
    requires
        supervisor::message_handled(before, message, after, action),
    ensures
        evolves(before, after),
{
    if let SupervisorMessage::TerminateChild(child_ref, tx) = message {
        lemma_first_or_unknown(before, child_ref.0);
    }
}

/// No event moves a place or brings a child back.
pub proof fn law_event_keeps_places<M, F, Fut, S>(
    before: SupervisorImpl<M, F, S>,
    sel: Select<M>,
    after: SupervisorImpl<M, F, S>,
    action: SelectAction<M>,
) where F: Fn() -> Fut, S: Fn(Arc<Notify>, Fut, TaskKind) -> Pid<()>
    requires
        before.after_event(sel, after, action),
    ensures
        evolves(before.children@, after.children@),
        after.strategy == before.strategy,
{
    match sel {
        Select::TaskExit(Some(task_id)) => {
            law_exit_keeps_places(
                before.strategy,
                before.children@,
                task_id,
                after.children@,
                action->TaskExit_0,
            );
        },
        Select::Message(message) => {
            law_message_keeps_places(
                before.children@,
                message,
                after.children@,
                action->Message_0,
            );
        },
        _ => {},
    }
}

/// However many events come in between, a child that is gone stays gone, and a
/// place that still holds a child holds the one it was made for.
pub proof fn law_deleted_children_stay_deleted<M>(history: Seq<Seq<SupervisedChild<M>>>)
    requires
        history.len() > 0,
        forall|i: int|
            0 <= i < history.len() - 1 ==> evolves(#[trigger] history[i], history[i + 1]),
    ensures
        evolves(history.first(), history.last()),
    decreases history.len(),
{
    if history.len() > 1 {
        let earlier = history.drop_last();
        assert forall|i: int| 0 <= i < earlier.len() - 1 implies evolves(
            #[trigger] earlier[i],
            earlier[i + 1],
        ) by {
            assert(evolves(history[i], history[i + 1]));
        }
        law_deleted_children_stay_deleted(earlier);
        let a = history.first();
        let b = earlier.last();
        let c = history.last();
        assert(evolves(history[history.len() - 2], history[history.len() - 1]));
        assert forall|i: int| 0 <= i < a.len() implies {
            &&& (#[trigger] c[i]).task_id == a[i].task_id
            &&& holds_on(a[i].slot, c[i].slot)
        } by {
            assert(b[i].task_id == a[i].task_id);
        }
    }
}

/// Under one-for-one the other children stay as they are: none of them is sent a
/// signal, none is cancelled, and no signal to one of them is reported.
pub proof fn law_one_for_one_leaves_the_others<M>(
    before: Seq<SupervisedChild<M>>,
    after: Seq<SupervisedChild<M>>,
    action: ExitAction,
    ix: int,
    other: int,
)
    requires
        0 <= ix < before.len(),
        0 <= other < before.len(),
        other != ix,
        distinct(before),
        supervisor::restarts(SupervisorStrategy::OneForOne, before, after, action, ix),
    ensures
        after[other] == before[other],
        action matches ExitAction::Rewatch(report) && !signals_reach(
            report.signals@,
            before[other].task_id,
        ),
{
    let signals = action->Rewatch_0.signals@;
    assert(before[ix].task_id != before[other].task_id);
    assert forall|i: int| 0 <= i < signals.len() implies (#[trigger] signals[i]).task_id
        != before[other].task_id by {
        assert(signals[i].task_id == before[ix].task_id);
    }
}

/// Under one-for-one the child that stopped is sent one signal, to resume, and nothing
/// else. It is kept, and waited for, where the signal reaches it.
pub proof fn law_one_for_one_resumes_the_stopped<M>(
    before: Seq<SupervisedChild<M>>,
    after: Seq<SupervisedChild<M>>,
    action: ExitAction,
    ix: int,
)
    requires
        0 <= ix < before.len(),
        before[ix].slot is Active,
        supervisor::restarts(SupervisorStrategy::OneForOne, before, after, action, ix),
    ensures
        action matches ExitAction::Rewatch(report) && report.signals@.len() == 1
            && report.signals@[0].task_id == before[ix].task_id && report.signals@[0].state
            == SupvervisorState::Active && {
            let w = before[ix].slot->Active_0;
            &&& w.child().group().signalled(SupvervisorState::Active, report.signals@[0].received)
            &&& if report.signals@[0].received {
                &&& after[ix].slot matches ChildState::Active(v)
                &&& v.child() == w.child()
                &&& v.sent() == w.sent().push((SupvervisorState::Active, true))
                &&& report.watch@.len() == 1
                &&& report.watch@[0].observes(w.child().group())
            } else {
                &&& after[ix].slot is Deleted
                &&& report.watch@.len() == 0
            }
        },
{
    let report = action->Rewatch_0;
    let ok = choose|ok: bool| #[trigger] supervisor::resumed_one(before, after, report, ix, ok);
    assert(supervisor::resumed_one(before, after, report, ix, ok));
}

/// The end of a task that belongs to no child, or to one that is gone, does nothing to
/// the children.
pub proof fn law_unknown_exit_does_nothing<M>(
    strategy: SupervisorStrategy,
    before: Seq<SupervisedChild<M>>,
    task_id: TaskIdRepr,
    after: Seq<SupervisedChild<M>>,
    action: ExitAction,
)
    requires
        supervisor::exit_handled(strategy, before, task_id, after, action),
        forall|i: int|
            0 <= i < before.len() && (#[trigger] before[i]).task_id == task_id
                ==> before[i].slot is Deleted,
    ensures
        after == before,
        action == ExitAction::Done,
{
    lemma_first_or_unknown(before, task_id);
}

/// The end of a child that is not gone is seen to, whatever the strategy: by resuming the
/// child, or by suspending children that are then resumed together with it.
pub proof fn law_exit_of_a_child_is_seen_to<M>(
    strategy: SupervisorStrategy,
    before: Seq<SupervisedChild<M>>,
    task_id: TaskIdRepr,
    after: Seq<SupervisedChild<M>>,
    action: ExitAction,
    ix: int,
)
    requires
        supervisor::exit_handled(strategy, before, task_id, after, action),
        supervisor::first_at(before, task_id, ix),
        before[ix].slot is Active,
    ensures
        action != ExitAction::Done,
        action is Rewatch <==> strategy == SupervisorStrategy::OneForOne,
        action matches ExitAction::Restart(restart) ==> restart.start <= ix,
{
}

/// Under one-for-one the end of a child does to the children exactly this: the first
/// under its id is sent one signal, to resume, and all others are left alone.
pub proof fn law_one_for_one_touches_one_child<M>(
    before: Seq<SupervisedChild<M>>,
    task_id: TaskIdRepr,
    after: Seq<SupervisedChild<M>>,
    action: ExitAction,
    each: int,
)
    requires
        supervisor::exit_handled(
            SupervisorStrategy::OneForOne,
            before,
            task_id,
            after,
            action,
        ),
        0 <= each < before.len(),
    ensures
        after.len() == before.len(),
        after[each] != before[each] ==> {
            &&& before[each].task_id == task_id
            &&& before[each].slot matches ChildState::Active(w)
            &&& after[each].slot matches ChildState::Active(v) ==> {
                &&& v.child() == w.child()
                &&& v.sent() == w.sent().push((SupvervisorState::Active, true))
            }
        },
{
    lemma_first_or_unknown(before, task_id);
    if exists|ix: int|
        #[trigger] supervisor::first_at(before, task_id, ix) && before[ix].slot is Active {
        let ix = choose|ix: int| #[trigger]
            supervisor::first_at(before, task_id, ix) && before[ix].slot is Active;
        law_one_for_one_resumes_the_stopped(before, after, action, ix);
        let ok = choose|ok: bool| #[trigger]
            supervisor::resumed_one(before, after, action->Rewatch_0, ix, ok);
        assert(supervisor::resumed_one(before, after, action->Rewatch_0, ix, ok));
    }
}

/// A message sends no child a signal and cancels none. All it does to the children is
/// to add one, which was sent nothing yet, or to hand one out as it is, able to hear
/// what it is told.
pub proof fn law_message_signals_nobody<M>(
    before: Seq<SupervisedChild<M>>,
    message: SupervisorMessage<M>,
    after: Seq<SupervisedChild<M>>,
    action: MessageAction<M>,
    each: int,
)
    requires
        supervisor::message_handled(before, message, after, action),
        0 <= each < after.len(),
    ensures
        before.len() <= after.len() <= before.len() + 1,
        each < before.len() && after[each] != before[each] ==> {
            &&& before[each].slot matches ChildState::Active(w)
            &&& after[each] == before[each].deleted()
            &&& action matches MessageAction::ExitChild { child, .. }
            &&& child == w.child()
        },
        each >= before.len() ==> {
            &&& message matches SupervisorMessage::AddChild(child, tx)
            &&& after[each].slot matches ChildState::Active(v)
            &&& v.child() == child
            &&& v.sent().len() == 0
            &&& after[each].task_id == child.group().id()
        },
{
    if let SupervisorMessage::TerminateChild(child_ref, tx) = message {
        lemma_first_or_unknown(before, child_ref.0);
    }
}

/// Only the end of a child makes a supervisor send signals to its children. At any
/// other event every child stays as it is or is handed out as it is.
pub proof fn law_only_an_exit_signals_children<M, F, Fut, S>(
    before: SupervisorImpl<M, F, S>,
    sel: Select<M>,
    after: SupervisorImpl<M, F, S>,
    action: SelectAction<M>,
    each: int,
) where F: Fn() -> Fut, S: Fn(Arc<Notify>, Fut, TaskKind) -> Pid<()>
    requires
        before.after_event(sel, after, action),
        !(sel matches Select::TaskExit(Some(task_id))),
        0 <= each < before.children@.len(),
    ensures
        after.children@[each] == before.children@[each] || after.children@[each]
            == before.children@[each].deleted(),
{
    if let Select::Message(message) = sel {
        law_message_keeps_places(before.children@, message, after.children@, action->Message_0);
        law_message_signals_nobody(
            before.children@,
            message,
            after.children@,
            action->Message_0,
            each,
        );
    }
}

/// What happens to its children leaves a supervisor as it is as a group: it publishes
/// nothing, tells nobody to stop and starts nothing. An event of its own it publishes
/// once, and leaves the children as they are, unless it is told to exit.
pub proof fn law_children_leave_the_supervisor_alone<M, F, Fut, S>(
    before: SupervisorImpl<M, F, S>,
    sel: Select<M>,
    after: SupervisorImpl<M, F, S>,
    action: SelectAction<M>,
) where F: Fn() -> Fut, S: Fn(Arc<Notify>, Fut, TaskKind) -> Pid<()>
    requires
        before.after_event(sel, after, action),
    ensures
        sel !is Inner ==> after.inner == before.inner,
        action is Shutdown ==> after.inner == before.inner,
        action is Inner ==> {
            &&& after.children == before.children
            &&& after.inner.stat.log() == before.inner.stat.log().push(after.inner.current)
        },
        action is Shutdown <==> exists|timeout: Duration|
            sel == Select::<M>::Inner(
                simple_supervisor::Select::Message(SimpleSupervisorMessage::Exit { timeout }),
            ),
{
    if let Select::Inner(
        simple_supervisor::Select::Message(SimpleSupervisorMessage::Exit { timeout }),
    ) = sel {
        assert(sel == Select::<M>::Inner(
            simple_supervisor::Select::Message(SimpleSupervisorMessage::Exit { timeout }),
        ));
    }
}

/// A supervisor that is told to exit hands out every child that is not gone, as it is,
/// and none is left in its place.
pub proof fn law_shutdown_hands_out_every_child<M, F, Fut, S>(
    before: SupervisorImpl<M, F, S>,
    timeout: Duration,
    after: SupervisorImpl<M, F, S>,
    action: SelectAction<M>,
    each: int,
) where F: Fn() -> Fut, S: Fn(Arc<Notify>, Fut, TaskKind) -> Pid<()>
    requires
        before.after_event(
            Select::Inner(
                simple_supervisor::Select::Message(SimpleSupervisorMessage::Exit { timeout }),
            ),
            after,
            action,
        ),
        0 <= each < before.children@.len(),
    ensures
        action matches SelectAction::Shutdown { children, timeout: t } && t == timeout && (
        before.children@[each].slot matches ChildState::Active(w) ==> exists|j: int|
            0 <= j < children@.len() && #[trigger] children@[j] == w.child()),
        after.children@.len() == before.children@.len(),
        after.children@[each].slot is Deleted,
{
    if before.children@[each].slot is Active {
        let j = lemma_active_contains(before.children@, each);
        assert(supervisor::active(before.children@)[j]
            == before.children@[each].slot->Active_0.child());
    }
}

/// Under rest-for-all the children before the one that stopped stay as they are: none
/// of them is sent a signal, none is cancelled, and no signal to one of them is
/// reported, neither when the rest is suspended nor when it is resumed.
pub proof fn law_rest_for_all_leaves_the_earlier<M>(
    before: Seq<SupervisedChild<M>>,
    between: Seq<SupervisedChild<M>>,
    action: ExitAction,
    after: Seq<SupervisedChild<M>>,
    report: Rewatch,
    resumed: Seq<bool>,
    ix: int,
    earlier: int,
)
    requires
        0 <= earlier < ix < before.len(),
        distinct(before),
        supervisor::restarts(SupervisorStrategy::RestForAll, before, between, action, ix),
        supervisor::resumed_from(
            between,
            after,
            report,
            action->Restart_0.start as int,
            resumed,
        ),
    ensures
        after[earlier] == before[earlier],
        !signals_reach(action->Restart_0.signals@, before[earlier].task_id),
        !signals_reach(report.signals@, before[earlier].task_id),
{
    let restart = action->Restart_0;
    let n = before.len() as int;
    let id = before[earlier].task_id;
    let stopped = choose|ok: Seq<bool>| #[trigger]
        supervisor::stopped_from(before, between, restart, ix + 1, ok);
    assert forall|i: int| ix <= i < n implies (#[trigger] before[i]).task_id != id by {}
    assert forall|i: int| ix <= i < n implies (#[trigger] between[i]).task_id != id by {
        assert(before[i].task_id != id);
    }
    lemma_suspend_signals_reach_theirs(before, stopped, ix + 1, n, id);
    lemma_resume_signals_reach_theirs(between, resumed, ix, n, id);
}

/// A signal to the child with this id is among those reported.
pub open spec fn signals_reach(signals: Seq<supervisor::Signal>, task_id: TaskIdRepr) -> bool {
    exists|i: int| 0 <= i < signals.len() && (#[trigger] signals[i]).task_id == task_id
}

proof fn lemma_suspend_signals_reach_theirs<M>(
    children: Seq<SupervisedChild<M>>,
    ok: Seq<bool>,
    from: int,
    to: int,
    task_id: TaskIdRepr,
)
    requires
        forall|i: int| from <= i < to ==> (#[trigger] children[i]).task_id != task_id,
    ensures
        !signals_reach(supervisor::suspend_signals(children, ok, from, to), task_id),
    decreases to - from,
{
    if from < to {
        lemma_suspend_signals_reach_theirs(children, ok, from + 1, to, task_id);
        let later = supervisor::suspend_signals(children, ok, from + 1, to);
        let signals = supervisor::suspend_signals(children, ok, from, to);
        assert forall|i: int| 0 <= i < signals.len() implies (#[trigger] signals[i]).task_id
            != task_id by {
            if i < later.len() {
                assert(signals[i] == later[i]);
            } else {
                assert(signals[i].task_id == children[from].task_id);
            }
        }
    }
}

proof fn lemma_resume_signals_reach_theirs<M>(
    children: Seq<SupervisedChild<M>>,
    ok: Seq<bool>,
    from: int,
    to: int,
    task_id: TaskIdRepr,
)
    requires
        forall|i: int| from <= i < to ==> (#[trigger] children[i]).task_id != task_id,
    ensures
        !signals_reach(supervisor::resume_signals(children, ok, from, to), task_id),
    decreases to - from,
{
    if from < to {
        lemma_resume_signals_reach_theirs(children, ok, from, to - 1, task_id);
        let earlier = supervisor::resume_signals(children, ok, from, to - 1);
        let signals = supervisor::resume_signals(children, ok, from, to);
        assert forall|i: int| 0 <= i < signals.len() implies (#[trigger] signals[i]).task_id
            != task_id by {
            if i < earlier.len() {
                assert(signals[i] == earlier[i]);
            } else {
                assert(signals[i].task_id == children[to - 1].task_id);
            }
        }
    }
}

/// Under one-for-all every child that is left in the end was first suspended and
/// then resumed, and was sent nothing else.
pub proof fn law_one_for_all_restarts_every_child<M>(
    before: Seq<SupervisedChild<M>>,
    between: Seq<SupervisedChild<M>>,
    action: ExitAction,
    after: Seq<SupervisedChild<M>>,
    report: Rewatch,
    resumed: Seq<bool>,
    ix: int,
    each: int,
)
    requires
        0 <= ix < before.len(),
        0 <= each < before.len(),
        supervisor::restarts(SupervisorStrategy::OneForAll, before, between, action, ix),
        supervisor::resumed_from(
            between,
            after,
            report,
            action->Restart_0.start as int,
            resumed,
        ),
    ensures
        after[each].slot matches ChildState::Active(v) ==> {
            &&& before[each].slot matches ChildState::Active(w)
            &&& v.child() == w.child()
            &&& v.sent() == w.sent() + seq![
                (SupvervisorState::Suspend, true),
                (SupvervisorState::Active, true),
            ]
            &&& w.child().group().signalled(SupvervisorState::Suspend, true)
            &&& w.child().group().signalled(SupvervisorState::Active, true)
        },
{
    let restart = action->Restart_0;
    let stopped = choose|ok: Seq<bool>| #[trigger]
        supervisor::stopped_from(before, between, restart, 0, ok);
    assert(between[each] == before[each].settled(SupvervisorState::Suspend, stopped[each]));
    assert(after[each] == between[each].settled(SupvervisorState::Active, resumed[each]));
    if after[each].slot is Active {
        let w = before[each].slot->Active_0;
        assert(w.sent() + seq![
            (SupvervisorState::Suspend, true),
            (SupvervisorState::Active, true),
        ] =~= w.sent().push((SupvervisorState::Suspend, true)).push(
            (SupvervisorState::Active, true),
        ));
    }
}

/// Under rest-for-all every child after the one that stopped, if it is left in the
/// end, was first suspended and then resumed, and that one, if it is left, was
/// resumed. They were sent nothing else.
pub proof fn law_rest_for_all_restarts_the_rest<M>(
    before: Seq<SupervisedChild<M>>,
    between: Seq<SupervisedChild<M>>,
    action: ExitAction,
    after: Seq<SupervisedChild<M>>,
    report: Rewatch,
    resumed: Seq<bool>,
    ix: int,
    each: int,
)
    requires
        0 <= ix <= each < before.len(),
        supervisor::restarts(SupervisorStrategy::RestForAll, before, between, action, ix),
        supervisor::resumed_from(
            between,
            after,
            report,
            action->Restart_0.start as int,
            resumed,
        ),
    ensures
        after[each].slot matches ChildState::Active(v) ==> {
            &&& before[each].slot matches ChildState::Active(w)
            &&& v.child() == w.child()
            &&& v.sent() == if ix < each {
                w.sent() + seq![(SupvervisorState::Suspend, true), (SupvervisorState::Active, true)]
            } else {
                w.sent() + seq![(SupvervisorState::Active, true)]
            }
            &&& ix < each ==> w.child().group().signalled(SupvervisorState::Suspend, true)
            &&& w.child().group().signalled(SupvervisorState::Active, true)
        },
{
    let restart = action->Restart_0;
    let stopped = choose|ok: Seq<bool>| #[trigger]
        supervisor::stopped_from(before, between, restart, ix + 1, ok);
    assert(after[each] == between[each].settled(SupvervisorState::Active, resumed[each]));
    if after[each].slot is Active {
        let w = before[each].slot->Active_0;
        if ix < each {
            assert(w.sent() + seq![
                (SupvervisorState::Suspend, true),
                (SupvervisorState::Active, true),
            ] =~= w.sent().push((SupvervisorState::Suspend, true)).push(
                (SupvervisorState::Active, true),
            ));
        } else {
            assert(between[each] == before[each]);
            assert(w.sent() + seq![(SupvervisorState::Active, true)] =~= w.sent().push(
                (SupvervisorState::Active, true),
            ));
        }
    }
}

/// Every child that was suspended and could be told so is waited for until it has
/// stopped, before any child is resumed.
pub proof fn law_suspended_children_are_awaited<M>(
    before: Seq<SupervisedChild<M>>,
    between: Seq<SupervisedChild<M>>,
    restart: supervisor::Restart,
    stop: int,
    ok: Seq<bool>,
    each: int,
)
    requires
        0 <= stop <= each < before.len(),
        supervisor::stopped_from(before, between, restart, stop, ok),
        between[each].slot is Active,
    ensures
        exists|j: int|
            0 <= j < restart.stopping@.len() && (#[trigger] restart.stopping@[j]).observes(
                between[each].slot->Active_0.child().group(),
            ),
{
    let rest = between.skip(stop);
    assert(rest[each - stop] == between[each]);
    let j = lemma_active_contains(rest, each - stop);
    assert(restart.stopping@[j].observes(supervisor::active(rest)[j].group()));
}

/// The child at this place, unless it is gone, was sent this signal, once. It is given up
/// where the signal did not reach it, and kept otherwise.
pub open spec fn sent_once<M>(
    before: Seq<SupervisedChild<M>>,
    after: Seq<SupervisedChild<M>>,
    state: SupvervisorState,
    ok: Seq<bool>,
    each: int,
) -> bool {
    match before[each].slot {
        ChildState::Deleted => after[each].slot is Deleted,
        ChildState::Active(w) => {
            &&& w.child().group().signalled(state, ok[each])
            &&& match after[each].slot {
                ChildState::Active(v) => ok[each] && v.child() == w.child() && v.sent()
                    == w.sent().push((state, true)),
                ChildState::Deleted => !ok[each],
            }
        },
    }
}

/// When children are suspended, a child is given up only where the signal does not
/// reach it. Any other is kept and was sent that one signal. Those before them are
/// left alone.
pub proof fn law_suspended_children_are_kept<M>(
    before: Seq<SupervisedChild<M>>,
    after: Seq<SupervisedChild<M>>,
    restart: supervisor::Restart,
    stop: int,
    ok: Seq<bool>,
    each: int,
)
    requires
        supervisor::stopped_from(before, after, restart, stop, ok),
        0 <= each < before.len(),
    ensures
        after.len() == before.len(),
        each < stop ==> after[each] == before[each],
        stop <= each ==> sent_once(before, after, SupvervisorState::Suspend, ok, each),
{
}

/// When children are resumed, a child is given up only where the signal does not reach
/// it. Any other is kept and was sent that one signal. Those before them are left
/// alone.
pub proof fn law_resumed_children_are_kept<M>(
    before: Seq<SupervisedChild<M>>,
    after: Seq<SupervisedChild<M>>,
    report: Rewatch,
    start: int,
    ok: Seq<bool>,
    each: int,
)
    requires
        supervisor::resumed_from(before, after, report, start, ok),
        0 <= each < before.len(),
    ensures
        after.len() == before.len(),
        each < start ==> after[each] == before[each],
        start <= each ==> sent_once(before, after, SupvervisorState::Active, ok, each),
{
}

/// Each of the signals went to the child in the place that is given for it.
pub open spec fn went_to<M>(
    signals: Seq<supervisor::Signal>,
    children: Seq<SupervisedChild<M>>,
    state: SupvervisorState,
    places: Seq<int>,
) -> bool {
    &&& places.len() == signals.len()
    &&& forall|k: int|
        0 <= k < places.len() ==> {
            &&& 0 <= #[trigger] places[k] < children.len()
            &&& children[places[k]].slot is Active
            &&& signals[k].task_id == children[places[k]].task_id
            &&& signals[k].state == state
        }
}

/// Children are suspended the last one first: one signal goes to each child that is
/// to stop and is not gone, and each signal to a child after those that follow.
pub proof fn law_children_are_suspended_last_first<M>(
    before: Seq<SupervisedChild<M>>,
    after: Seq<SupervisedChild<M>>,
    restart: supervisor::Restart,
    stop: int,
    ok: Seq<bool>,
)
    requires
        0 <= stop <= before.len(),
        supervisor::stopped_from(before, after, restart, stop, ok),
    ensures
        exists|places: Seq<int>|
            {
                &&& #[trigger] went_to(
                    restart.signals@,
                    before,
                    SupvervisorState::Suspend,
                    places,
                )
                &&& forall|k: int, l: int|
                    0 <= k < l < places.len() ==> #[trigger] places[k] > #[trigger] places[l]
                &&& forall|i: int| #[trigger]
                    places.contains(i) <==> stop <= i < before.len() && before[i].slot is Active
            },
{
    let places = lemma_suspend_places(before, ok, stop, before.len() as int);
    assert(went_to(restart.signals@, before, SupvervisorState::Suspend, places));
}

proof fn lemma_suspend_places<M>(
    children: Seq<SupervisedChild<M>>,
    ok: Seq<bool>,
    from: int,
    to: int,
) -> (places: Seq<int>)
    requires
        0 <= from <= to <= children.len(),
    ensures
        went_to(
            supervisor::suspend_signals(children, ok, from, to),
            children,
            SupvervisorState::Suspend,
            places,
        ),
        forall|k: int, l: int|
            0 <= k < l < places.len() ==> #[trigger] places[k] > #[trigger] places[l],
        forall|i: int| #[trigger]
            places.contains(i) <==> from <= i < to && children[i].slot is Active,
    decreases to - from,
{
    if from == to {
        Seq::empty()
    } else {
        let later = lemma_suspend_places(children, ok, from + 1, to);
        if children[from].slot is Active {
            let places = later.push(from);
            assert forall|k: int, l: int| 0 <= k < l < places.len() implies #[trigger] places[k]
                > #[trigger] places[l] by {
                assert(later.contains(places[k]));
            }
            assert forall|i: int| #[trigger]
                places.contains(i) <==> from <= i < to && children[i].slot is Active by {
                if places.contains(i) && i != from {
                    let k = choose|k: int| 0 <= k < places.len() && places[k] == i;
                    assert(later[k] == i);
                    assert(later.contains(i));
                }
                if i == from {
                    assert(places[later.len() as int] == i);
                } else if later.contains(i) {
                    let k = choose|k: int| 0 <= k < later.len() && later[k] == i;
                    assert(places[k] == i);
                }
            }
            places
        } else {
            assert(supervisor::suspend_signals(children, ok, from, to)
                =~= supervisor::suspend_signals(children, ok, from + 1, to));
            assert forall|i: int| #[trigger]
                later.contains(i) <==> from <= i < to && children[i].slot is Active by {}
            later
        }
    }
}

/// Children are resumed the first one first: one signal goes to each child that is
/// to go on and is not gone, and each signal to a child before those that follow.
pub proof fn law_children_are_resumed_first_first<M>(
    before: Seq<SupervisedChild<M>>,
    after: Seq<SupervisedChild<M>>,
    report: Rewatch,
    start: int,
    ok: Seq<bool>,
)
    requires
        0 <= start <= before.len(),
        supervisor::resumed_from(before, after, report, start, ok),
    ensures
        exists|places: Seq<int>|
            {
                &&& #[trigger] went_to(report.signals@, before, SupvervisorState::Active, places)
                &&& forall|k: int, l: int|
                    0 <= k < l < places.len() ==> #[trigger] places[k] < #[trigger] places[l]
                &&& forall|i: int| #[trigger]
                    places.contains(i) <==> start <= i < before.len() && before[i].slot is Active
            },
{
    let places = lemma_resume_places(before, ok, start, before.len() as int);
    assert(went_to(report.signals@, before, SupvervisorState::Active, places));
}

proof fn lemma_resume_places<M>(
    children: Seq<SupervisedChild<M>>,
    ok: Seq<bool>,
    from: int,
    to: int,
) -> (places: Seq<int>)
    requires
        0 <= from <= to <= children.len(),
    ensures
        went_to(
            supervisor::resume_signals(children, ok, from, to),
            children,
            SupvervisorState::Active,
            places,
        ),
        forall|k: int, l: int|
            0 <= k < l < places.len() ==> #[trigger] places[k] < #[trigger] places[l],
        forall|i: int| #[trigger]
            places.contains(i) <==> from <= i < to && children[i].slot is Active,
    decreases to - from,
{
    if from == to {
        Seq::empty()
    } else {
        let earlier = lemma_resume_places(children, ok, from, to - 1);
        if children[to - 1].slot is Active {
            let places = earlier.push(to - 1);
            assert forall|k: int, l: int| 0 <= k < l < places.len() implies #[trigger] places[k]
                < #[trigger] places[l] by {
                assert(earlier.contains(places[k]));
            }
            assert forall|i: int| #[trigger]
                places.contains(i) <==> from <= i < to && children[i].slot is Active by {
                if places.contains(i) && i != to - 1 {
                    let k = choose|k: int| 0 <= k < places.len() && places[k] == i;
                    assert(earlier[k] == i);
                    assert(earlier.contains(i));
                }
                if i == to - 1 {
                    assert(places[earlier.len() as int] == i);
                } else if earlier.contains(i) {
                    let k = choose|k: int| 0 <= k < earlier.len() && earlier[k] == i;
                    assert(places[k] == i);
                }
            }
            places
        } else {
            assert(supervisor::resume_signals(children, ok, from, to)
                =~= supervisor::resume_signals(children, ok, from, to - 1));
            assert forall|i: int| #[trigger]
                earlier.contains(i) <==> from <= i < to && children[i].slot is Active by {}
            earlier
        }
    }
}

/// Each child is kept under the id of its group.
pub open spec fn tagged<M>(children: Seq<SupervisedChild<M>>) -> bool {
    forall|i: int|
        0 <= i < children.len() ==> ((#[trigger] children[i]).slot matches ChildState::Active(ward)
            ==> ward.child().group().id() == children[i].task_id)
}

/// No two places have one id.
pub open spec fn distinct<M>(children: Seq<SupervisedChild<M>>) -> bool {
    forall|i: int, j: int|
        0 <= i < j < children.len() ==> (#[trigger] children[i]).task_id != (
        #[trigger] children[j]).task_id
}

/// Every child that is not gone is waited for once, and nothing is waited for that
/// was not added.
pub open spec fn covered<M>(
    children: Seq<SupervisedChild<M>>,
    waited: Multiset<TaskIdRepr>,
) -> bool {
    &&& forall|i: int|
        0 <= i < children.len() && (#[trigger] children[i]).slot is Active ==> waited.count(
            children[i].task_id,
        ) == 1
    &&& forall|id: TaskIdRepr|
        supervisor::unknown(children, id) ==> #[trigger] waited.count(id) == 0
}

/// The ids of the groups that handles observe.
pub open spec fn ref_ids(refs: Seq<GroupRef>) -> Seq<TaskIdRepr> {
    Seq::new(refs.len(), |i: int| refs[i].sv_task_id)
}

/// The ids that are waited for after the changes that a report asks for.
pub open spec fn waited_after(
    waited: Multiset<TaskIdRepr>,
    report: Rewatch,
) -> Multiset<TaskIdRepr> {
    let kept = if report.clear {
        Multiset::empty()
    } else {
        waited
    };
    kept.add(ref_ids(report.watch@).to_multiset())
}

proof fn lemma_active_contains<M>(children: Seq<SupervisedChild<M>>, i: int) -> (j: int)
    requires
        0 <= i < children.len(),
        children[i].slot is Active,
    ensures
        0 <= j < supervisor::active(children).len(),
        supervisor::active(children)[j] == children[i].slot->Active_0.child(),
    decreases children.len(),
{
    if i == children.len() - 1 {
        supervisor::active(children.drop_last()).len() as int
    } else {
        lemma_active_contains(children.drop_last(), i)
    }
}

/// The ids of the children that are not gone: each is the id of a place, and none
/// occurs twice.
proof fn lemma_active_ids<M>(children: Seq<SupervisedChild<M>>)
    requires
        tagged(children),
        distinct(children),
    ensures
        child_ids(supervisor::active(children)).no_duplicates(),
        forall|j: int|
            0 <= j < supervisor::active(children).len() ==> !supervisor::unknown(
                children,
                #[trigger] child_ids(supervisor::active(children))[j],
            ),
    decreases children.len(),
{
    if children.len() > 0 {
        let shorter = children.drop_last();
        let before = supervisor::active(shorter);
        let all = supervisor::active(children);
        assert(tagged(shorter)) by {
            assert forall|i: int| 0 <= i < shorter.len() implies ((#[trigger] shorter[i]).slot matches
                ChildState::Active(ward) ==> ward.child().group().id() == shorter[i].task_id) by {
                assert(shorter[i] == children[i]);
            }
        }
        assert(distinct(shorter)) by {
            assert forall|i: int, j: int| 0 <= i < j < shorter.len() implies (
            #[trigger] shorter[i]).task_id != (#[trigger] shorter[j]).task_id by {
                assert(children[i].task_id != children[j].task_id);
            }
        }
        lemma_active_ids(shorter);
        assert forall|j: int| 0 <= j < before.len() implies {
            &&& !supervisor::unknown(children, #[trigger] child_ids(before)[j])
            &&& child_ids(before)[j] != children.last().task_id
        } by {
            assert(!supervisor::unknown(shorter, child_ids(before)[j]));
            let i = choose|i: int|
                0 <= i < shorter.len() && (#[trigger] shorter[i]).task_id == child_ids(before)[j];
            assert(children[i].task_id == child_ids(before)[j]);
            assert(children[i].task_id != children[children.len() - 1].task_id);
        }
        match children.last().slot {
            ChildState::Active(ward) => {
                assert(ward.child().group().id() == children[children.len() - 1].task_id);
                assert(child_ids(all) =~= child_ids(before).push(ward.child().group().id()));
            },
            ChildState::Deleted => {},
        }
    }
}

/// The ids of the groups of children.
spec fn child_ids<M>(children: Seq<supervisor::Child<M>>) -> Seq<TaskIdRepr> {
    Seq::new(children.len(), |i: int| children[i].group().id())
}

/// Handles for all children that are not gone cover them.
proof fn lemma_watching_covers<M>(children: Seq<SupervisedChild<M>>, refs: Seq<GroupRef>)
    requires
        tagged(children),
        distinct(children),
        supervisor::watching(refs, supervisor::active(children)),
    ensures
        covered(children, ref_ids(refs).to_multiset()),
{
    broadcast use vstd::seq_lib::group_to_multiset_ensures;

    let ids = ref_ids(refs);
    assert(ids =~= child_ids(supervisor::active(children))) by {
        assert forall|j: int| 0 <= j < refs.len() implies (#[trigger] refs[j]).sv_task_id
            == supervisor::active(children)[j].group().id() by {}
    }
    lemma_active_ids(children);
    ids.lemma_multiset_has_no_duplicates();
    assert forall|i: int| 0 <= i < children.len() && (#[trigger] children[i]).slot is Active implies
        ids.to_multiset().count(children[i].task_id) == 1 by {
        let j = lemma_active_contains(children, i);
        assert(ids[j] == children[i].task_id);
        assert(ids.contains(children[i].task_id));
        assert(ids.to_multiset().contains(children[i].task_id));
    }
    assert forall|id: TaskIdRepr| supervisor::unknown(children, id) implies
        #[trigger] ids.to_multiset().count(id) == 0 by {
        if ids.contains(id) {
            let j = choose|j: int| 0 <= j < ids.len() && ids[j] == id;
            assert(!supervisor::unknown(children, child_ids(supervisor::active(children))[j]));
        }
    }
}

/// A supervisor that waits once for every child it has, and for nothing that was not
/// added, still does so after a child has stopped, unless it has suspended children
/// that it is yet to resume: the wait that ended is replaced wherever the child is
/// kept.
pub proof fn law_exit_keeps_children_waited_for<M>(
    strategy: SupervisorStrategy,
    before: Seq<SupervisedChild<M>>,
    waited: Multiset<TaskIdRepr>,
    task_id: TaskIdRepr,
    after: Seq<SupervisedChild<M>>,
    action: ExitAction,
)
    requires
        tagged(before),
        distinct(before),
        covered(before, waited),
        supervisor::exit_handled(strategy, before, task_id, after, action),
    ensures
        tagged(after),
        distinct(after),
        match action {
            ExitAction::Done => covered(after, waited.remove(task_id)),
            ExitAction::Rewatch(report) => covered(
                after,
                waited_after(waited.remove(task_id), report),
            ),
            ExitAction::Restart(_) => true,
        },
{
    broadcast use vstd::seq_lib::group_to_multiset_ensures;

    law_exit_keeps_places(strategy, before, task_id, after, action);
    lemma_first_or_unknown(before, task_id);
    lemma_evolves_keeps_ids(before, after);
    let now = match action {
        ExitAction::Rewatch(report) => waited_after(waited.remove(task_id), report),
        _ => waited.remove(task_id),
    };
    if action !is Restart {
        assert forall|i: int| 0 <= i < after.len() && (#[trigger] after[i]).slot is Active implies
            now.count(after[i].task_id) == 1 by {
            assert(before[i].task_id == after[i].task_id);
            assert(before[i].slot is Active);
            assert(waited.count(before[i].task_id) == 1);
            lemma_rewatch_counts(strategy, before, task_id, after, action, before[i].task_id);
            if before[i].task_id == task_id {
                lemma_only_place(before, task_id, i);
                let report = action->Rewatch_0;
                let ok = choose|ok: bool| #[trigger]
                    supervisor::resumed_one(before, after, report, i, ok);
                assert(ok);
                assert(ref_ids(report.watch@)[0] == task_id) by {
                    assert(report.watch@[0].observes(before[i].slot->Active_0.child().group()));
                }
                assert(ref_ids(report.watch@).contains(task_id));
                assert(ref_ids(report.watch@).to_multiset().count(task_id) == 1);
            }
        }
        assert forall|id: TaskIdRepr| supervisor::unknown(after, id) implies
            #[trigger] now.count(id) == 0 by {
            assert(supervisor::unknown(before, id)) by {
                assert forall|i: int| 0 <= i < before.len() implies (
                #[trigger] before[i]).task_id != id by {
                    assert(after[i].task_id != id);
                }
            }
            assert(waited.count(id) == 0);
            lemma_rewatch_counts(strategy, before, task_id, after, action, id);
        }
    }
}

/// The only place under an id is the first one.
proof fn lemma_only_place<M>(children: Seq<SupervisedChild<M>>, task_id: TaskIdRepr, ix: int)
    requires
        distinct(children),
        0 <= ix < children.len(),
        children[ix].task_id == task_id,
    ensures
        supervisor::first_at(children, task_id, ix),
{
    assert forall|k: int| 0 <= k < ix implies (#[trigger] children[k]).task_id != task_id by {}
}

/// A report after the end of one child watches nothing but that child, and at most
/// once.
proof fn lemma_rewatch_counts<M>(
    strategy: SupervisorStrategy,
    before: Seq<SupervisedChild<M>>,
    task_id: TaskIdRepr,
    after: Seq<SupervisedChild<M>>,
    action: ExitAction,
    id: TaskIdRepr,
)
    requires
        tagged(before),
        supervisor::exit_handled(strategy, before, task_id, after, action),
    ensures
        action matches ExitAction::Rewatch(report) ==> {
            &&& !report.clear
            &&& !supervisor::unknown(before, task_id)
            &&& ref_ids(report.watch@).to_multiset().count(id) <= 1
            &&& id != task_id ==> ref_ids(report.watch@).to_multiset().count(id) == 0
        },
{
    broadcast use vstd::seq_lib::group_to_multiset_ensures;

    lemma_first_or_unknown(before, task_id);
    if let ExitAction::Rewatch(report) = action {
        let ix = choose|ix: int| supervisor::first_at(before, task_id, ix);
        assert(supervisor::first_at(before, task_id, ix));
        let ok = choose|ok: bool| #[trigger]
            supervisor::resumed_one(before, after, report, ix, ok);
        let ids = ref_ids(report.watch@);
        if ok {
            assert(report.watch@[0].observes(before[ix].slot->Active_0.child().group()));
            assert(ids =~= Seq::empty().push(task_id));
            assert(Seq::<TaskIdRepr>::empty().to_multiset().count(id) == 0) by {
                assert(!Seq::<TaskIdRepr>::empty().contains(id));
            }
        } else {
            assert(!ids.contains(id));
        }
    }
}

/// After children were resumed the supervisor waits once for every child it has, and
/// for nothing else, whatever it waited for before.
pub proof fn law_resume_keeps_children_waited_for<M>(
    before: Seq<SupervisedChild<M>>,
    waited: Multiset<TaskIdRepr>,
    after: Seq<SupervisedChild<M>>,
    report: Rewatch,
    start: int,
    ok: Seq<bool>,
)
    requires
        tagged(before),
        distinct(before),
        supervisor::resumed_from(before, after, report, start, ok),
    ensures
        tagged(after),
        distinct(after),
        covered(after, waited_after(waited, report)),
{
    lemma_evolves_keeps_ids(before, after);
    lemma_watching_covers(after, report.watch@);
    assert(waited_after(waited, report) =~= ref_ids(report.watch@).to_multiset());
}

proof fn lemma_evolves_keeps_ids<M>(
    before: Seq<SupervisedChild<M>>,
    after: Seq<SupervisedChild<M>>,
)
    requires
        tagged(before),
        distinct(before),
        evolves(before, after),
        after.len() == before.len(),
    ensures
        tagged(after),
        distinct(after),
{
    assert forall|i: int| 0 <= i < after.len() implies ((#[trigger] after[i]).slot matches
        ChildState::Active(ward) ==> ward.child().group().id() == after[i].task_id) by {
        assert(before[i].task_id == after[i].task_id);
    }
    assert forall|i: int, j: int| 0 <= i < j < after.len() implies (
    #[trigger] after[i]).task_id != (#[trigger] after[j]).task_id by {
        assert(before[i].task_id != before[j].task_id);
    }
}

/// A supervisor that waits once for every child it has, and for nothing that was not
/// added, still does so after a message, once it waits for the child that the message
/// brought, if it brought one. A child is brought under an id of its own.
pub proof fn law_message_keeps_children_waited_for<M>(
    before: Seq<SupervisedChild<M>>,
    waited: Multiset<TaskIdRepr>,
    message: SupervisorMessage<M>,
    after: Seq<SupervisedChild<M>>,
    action: MessageAction<M>,
)
    requires
        tagged(before),
        distinct(before),
        covered(before, waited),
        message matches SupervisorMessage::AddChild(child, tx) ==> supervisor::unknown(
            before,
            child.group().id(),
        ),
        supervisor::message_handled(before, message, after, action),
    ensures
        tagged(after),
        distinct(after),
        covered(
            after,
            match action {
                MessageAction::Watch(group_ref) => waited.insert(group_ref.sv_task_id),
                _ => waited,
            },
        ),
{
    law_message_keeps_places(before, message, after, action);
    match message {
        SupervisorMessage::TerminateChild(child_ref, tx) => {
            lemma_first_or_unknown(before, child_ref.0);
            lemma_evolves_keeps_ids(before, after);
            assert forall|i: int|
                0 <= i < after.len() && (#[trigger] after[i]).slot is Active implies waited.count(
                after[i].task_id,
            ) == 1 by {
                assert(before[i].slot is Active);
            }
            assert forall|id: TaskIdRepr| supervisor::unknown(after, id) implies
                #[trigger] waited.count(id) == 0 by {
                assert forall|i: int| 0 <= i < before.len() implies (
                #[trigger] before[i]).task_id != id by {
                    assert(after[i].task_id != id);
                }
            }
        },
        SupervisorMessage::AddChild(child, tx) => {
            let id = child.group().id();
            let now = waited.insert(id);
            assert(waited.count(id) == 0);
            assert forall|i: int|
                0 <= i < after.len() && (#[trigger] after[i]).slot is Active implies now.count(
                after[i].task_id,
            ) == 1 by {
                if i < before.len() {
                    assert(after[i] == before[i]);
                    assert(before[i].task_id != id);
                }
            }
            assert forall|other: TaskIdRepr| supervisor::unknown(after, other) implies
                #[trigger] now.count(other) == 0 by {
                assert(after[before.len() as int].task_id == id);
                assert forall|i: int| 0 <= i < before.len() implies (
                #[trigger] before[i]).task_id != other by {
                    assert(after[i].task_id != other);
                }
                assert(waited.count(other) == 0);
            }
            assert forall|i: int, j: int| 0 <= i < j < after.len() implies (
            #[trigger] after[i]).task_id != (#[trigger] after[j]).task_id by {
                assert(after[i] == before[i]);
                assert(before[i].task_id != id);
            }
        },
    }
}

/// A child that was added under an id of its own can be terminated by the name
/// that was answered: it is taken out of its place and handed out to be told to
/// exit.
pub proof fn law_added_child_can_be_terminated<M>(
    before: Seq<SupervisedChild<M>>,
    child: supervisor::Child<M>,
    added: oneshot::Sender<ChildRef>,
    between: Seq<SupervisedChild<M>>,
    first: MessageAction<M>,
    terminated: oneshot::Sender<Result<(), ()>>,
    after: Seq<SupervisedChild<M>>,
    second: MessageAction<M>,
)
    requires
        supervisor::unknown(before, child.group().id()),
        supervisor::message_handled(
            before,
            SupervisorMessage::AddChild(child, added),
            between,
            first,
        ),
        supervisor::message_handled(
            between,
            SupervisorMessage::TerminateChild(ChildRef(child.group().id()), terminated),
            after,
            second,
        ),
    ensures
        supervisor::answered(added, ChildRef(child.group().id())),
        second matches MessageAction::ExitChild { child: c, reply, .. } && c == child && reply
            == terminated,
        after == before.push(
            SupervisedChild { task_id: child.group().id(), slot: ChildState::Deleted },
        ),
{
    assert forall|i: int| 0 <= i < before.len() implies (
    #[trigger] between[i]).task_id != child.group().id() by {
        assert(before[i].task_id != child.group().id());
    }
    assert(supervisor::first_at(between, child.group().id(), before.len() as int));
    assert(after =~= before.push(
        SupervisedChild { task_id: child.group().id(), slot: ChildState::Deleted },
    ));
}

/// A child that was terminated is terminated again without effect, and the answer
/// is again that it was.
pub proof fn law_terminate_twice_is_terminate_once<M>(
    before: Seq<SupervisedChild<M>>,
    child_ref: ChildRef,
    tx1: oneshot::Sender<Result<(), ()>>,
    between: Seq<SupervisedChild<M>>,
    first: MessageAction<M>,
    tx2: oneshot::Sender<Result<(), ()>>,
    after: Seq<SupervisedChild<M>>,
    second: MessageAction<M>,
)
    requires
        !supervisor::unknown(before, child_ref.0),
        supervisor::message_handled(
            before,
            SupervisorMessage::TerminateChild(child_ref, tx1),
            between,
            first,
        ),
        supervisor::message_handled(
            between,
            SupervisorMessage::TerminateChild(child_ref, tx2),
            after,
            second,
        ),
    ensures
        after == between,
        second == MessageAction::<M>::Done,
        supervisor::answered(tx2, Ok::<(), ()>(())),
{
    lemma_first_or_unknown(before, child_ref.0);
    let ix = choose|ix: int| supervisor::first_at(before, child_ref.0, ix);
    assert forall|i: int| 0 <= i < ix implies (#[trigger] between[i]).task_id != child_ref.0 by {
        assert(before[i].task_id != child_ref.0);
    }
    assert(supervisor::first_at(between, child_ref.0, ix));
    assert(after =~= between);
}

} // verus!
