//! Single decisions of the library, on values made by hand.
use futures::stream::FuturesUnordered;
use std::future::Future;
use std::ops::ControlFlow;
use std::sync::{Arc, Mutex};
use std::time::Duration;
use tokio::sync::{oneshot, Notify};
use tokio::task::JoinError;
use tokio_stage::actor::{ActorLoop, Context, IntoContext};
use tokio_stage::graceful_shutdown::{graceful_shutdown, ShutdownEvent, ShutdownStep};
use tokio_stage::group::{
    Group, GroupBuilder, GroupChannels, GroupRef, RestartPolicy, TaskOutcome, Wait, Watch,
};
use tokio_stage::mailbox::{
    mailbox, Delivery, Mailbox, MailboxReceiver, MailboxSender, MailboxTask, Message,
};
use tokio_stage::runtime::{Runtime, Task};
use tokio_stage::simple_supervisor::{
    resume_on, select_on, timeout_pids, DrainEvent, Next, Resume, Select, SignalWait,
    SimpleSupervisorImpl, SimpleSupervisorMessage, SupervisorStat, SupvervisorState,
};
use tokio_stage::supervisor;
use tokio_stage::supervisor::{
    acknowledge, collect_told, grace_millis, shutdown_grace, Child, ChildRef, ChildState,
    ExitAction, MessageAction, Restart, Rewatch, SelectAction, Signal, Supervisor,
    SupervisorImpl, SupervisorMessage, SupervisorStrategy,
};
use tokio_stage::task::{
    current_task_id, scope_with_task_id, try_current_task_id, with_task_id, Pid, TaskId, TaskIds, TaskKind,
};

struct Request(SupervisorMessage<Request>);

fn run<T>(fut: impl Future<Output = T>) -> T {
    tokio::runtime::Builder::new_current_thread().enable_all().build().unwrap().block_on(fut)
}

fn pid_of(task_id: u64) -> Pid<()> {
    Pid { inner: tokio::spawn(std::future::pending()), task_id }
}

async fn panic_error() -> JoinError {
    tokio::spawn(async { panic!("on purpose") }).await.unwrap_err()
}

async fn cancel_error() -> JoinError {
    let pid = pid_of(2);
    pid.abort();
    pid.await.unwrap_err()
}

fn message(request: Message<u32>) -> Option<u32> {
    match request {
        Message::Push(t) => Some(t),
        Message::Pop(_) => None,
    }
}

// Task ids

#[test]
fn ids_start_at_two_and_tell_the_kind() {
    let mut ids = TaskIds::new();
    assert_eq!(ids.allocate(TaskKind::Worker), 2);
    assert_eq!(ids.allocate(TaskKind::Super), 3);
    assert_eq!(ids.allocate(TaskKind::Worker), 6);
    assert_eq!(ids.allocate(TaskKind::Super), 7);
    assert!(ids.can_allocate(TaskKind::Worker));
    assert!(ids.can_allocate(TaskKind::Super));
}

#[test]
fn first_supervisor_id_is_one() {
    let mut ids = TaskIds::new();
    assert_eq!(ids.allocate(TaskKind::Super), 1);
    assert_eq!(ids.allocate(TaskKind::Worker), 4);
}

#[test]
fn ids_grow_and_are_never_zero() {
    let mut ids = TaskIds::new();
    let mut last: u64 = 0;
    for i in 0..100 {
        let kind = if i % 3 == 0 { TaskKind::Super } else { TaskKind::Worker };
        let id = ids.allocate(kind);
        assert!(id > last);
        assert_eq!(TaskKind::from(id), kind);
        last = id;
    }
}

#[test]
fn lowest_bit_of_an_id_is_its_kind() {
    assert_eq!(TaskKind::from(0), TaskKind::Worker);
    assert_eq!(TaskKind::from(1), TaskKind::Super);
    assert_eq!(TaskKind::from(u64::MAX), TaskKind::Super);
    assert_eq!(TaskKind::from(u64::MAX - 1), TaskKind::Worker);
}

#[test]
fn outside_of_a_task_the_id_is_zero() {
    assert_eq!(try_current_task_id(None), 0);
    assert_eq!(try_current_task_id(Some(9)), 9);
    assert_eq!(current_task_id(Some(9)), 9);
}

#[test]
fn runtime_has_a_one_for_one_root() {
    run(async {
        let kept = Arc::new(Mutex::new(None));
        let kept2 = Arc::clone(&kept);
        let make: fn() = || ();
        let start: fn(Arc<Notify>, (), TaskKind) -> Pid<()> = idle_start;
        let runtime: Runtime<Request, u8> = Runtime::new(
            make,
            start,
            |_task, _kind| pid_of(2),
            move |sv, kind| {
                *kept2.lock().unwrap() = Some((sv.strategy, kind));
                pid_of(21)
            },
        );
        let started = kept.lock().unwrap().take();
        assert_eq!(started, Some((SupervisorStrategy::OneForOne, TaskKind::Super)));
        let inner = runtime.spawn_with(8).inner.unwrap();
        assert_eq!(inner.root.sv_group.task_id(), 21);
        assert!(matches!(inner.tasks[0], Task::Fut(8)));
    })
}

#[test]
fn scope_is_told_the_id() {
    let mut ids = TaskIds::new();
    let (scoped, id) = scope_with_task_id(&mut ids, "fut", TaskKind::Super, |id, fut| (id, fut));
    assert_eq!(scoped, (1, "fut"));
    assert_eq!(id, 1);
    assert_eq!(ids.allocate(TaskKind::Worker), 4);
}

#[test]
fn result_of_a_task_carries_its_id() {
    run(async {
        assert_eq!(with_task_id(Ok(5), 8).unwrap(), (5, 8));
        assert!(with_task_id::<()>(Err(panic_error().await), 8).unwrap_err().is_panic());
        let mut ids = TaskIds::new();
        let pid = tokio_stage::task::spawn(
            &mut ids,
            async { "done" },
            TaskKind::Worker,
            |_, fut| tokio::spawn(fut),
        );
        assert_eq!(pid.task_id(), TaskId(2));
        assert_eq!(pid.await.unwrap(), ("done", 2));
    })
}

#[test]
fn aborted_task_is_cancelled() {
    run(async {
        assert!(cancel_error().await.is_cancelled());
        let pid = pid_of(4);
        assert!(!pid.is_finished());
        let mut task: Task<()> = Task::Spawned(pid);
        task.abort();
        match task {
            Task::Spawned(pid) => assert!(pid.await.unwrap_err().is_cancelled()),
            Task::Fut(()) => panic!("the task was started"),
        }
        let mut unstarted: Task<u8> = Task::Fut(3);
        unstarted.abort();
        assert!(matches!(unstarted, Task::Fut(3)));
    })
}

// Restart policies and configuration

#[test]
fn policies_tell_outcomes_apart() {
    for policy in [RestartPolicy::Always, RestartPolicy::OnPanic] {
        assert!(policy.restarts_after(TaskOutcome::Panicked));
        assert!(!policy.restarts_after(TaskOutcome::Cancelled));
    }
    assert!(RestartPolicy::Always.restarts_after(TaskOutcome::Completed));
    assert!(!RestartPolicy::OnPanic.restarts_after(TaskOutcome::Completed));
}

#[test]
fn policies_go_by_what_awaiting_the_task_yielded() {
    run(async {
        let completed = Ok(((), 2));
        let panicked = Err(panic_error().await);
        let cancelled = Err(cancel_error().await);
        assert_eq!(TaskOutcome::of(&completed), TaskOutcome::Completed);
        assert_eq!(TaskOutcome::of(&panicked), TaskOutcome::Panicked);
        assert_eq!(TaskOutcome::of(&cancelled), TaskOutcome::Cancelled);
        assert!(RestartPolicy::Always.should_restart(&completed));
        assert!(RestartPolicy::Always.should_restart(&panicked));
        assert!(!RestartPolicy::Always.should_restart(&cancelled));
        assert!(!RestartPolicy::OnPanic.should_restart(&completed));
        assert!(RestartPolicy::OnPanic.should_restart(&panicked));
        assert!(!RestartPolicy::OnPanic.should_restart(&cancelled));
    })
}

#[test]
fn default_configuration() {
    let GroupBuilder(config) = tokio_stage::group();
    assert_eq!(config.restart_policy, RestartPolicy::OnPanic);
    assert_eq!(config.interval_dur, Duration::from_millis(10));
    assert_eq!(config.spawn_at_least, 1);
    assert_eq!(config.task_kind, TaskKind::Worker);
    assert!(config.automatic_shutdown);
    assert_eq!(config.shutdown_timeout, Duration::from_secs(1));
}

#[test]
fn builder_sets_one_thing_at_a_time() {
    let GroupBuilder(config) = tokio_stage::group()
        .restart_policy(RestartPolicy::Always)
        .shutdown_timeout(Duration::from_secs(3))
        .spawn_interval(Duration::from_secs(4))
        .spawn_at_least(5)
        .task_kind(TaskKind::Super);
    assert_eq!(config.restart_policy, RestartPolicy::Always);
    assert_eq!(config.shutdown_timeout, Duration::from_secs(3));
    assert_eq!(config.interval_dur, Duration::from_secs(4));
    assert_eq!(config.spawn_at_least, 5);
    assert_eq!(config.task_kind, TaskKind::Super);
    assert!(config.automatic_shutdown);
}

// Mailboxes

fn reader<T>() -> (oneshot::Sender<Delivery<T>>, oneshot::Receiver<Delivery<T>>) {
    oneshot::channel()
}

fn read<T>(rx: &mut oneshot::Receiver<Delivery<T>>) -> Option<(u64, T)> {
    rx.try_recv().ok().map(|delivery| (delivery.number, delivery.message))
}

fn next<T>(mbox: &mut Mailbox<T>) -> Option<(u64, T)> {
    let (tx, mut rx) = reader();
    mbox.pop(tx);
    read(&mut rx)
}

#[test]
fn waiting_messages_come_out_in_order() {
    let mut mbox = Mailbox::new();
    for t in ['a', 'b', 'c'] {
        mbox.push(t);
    }
    assert_eq!(next(&mut mbox), Some((0, 'a')));
    assert_eq!(next(&mut mbox), Some((1, 'b')));
    assert_eq!(next(&mut mbox), Some((2, 'c')));
    assert_eq!(next(&mut mbox), None);
}

#[test]
fn waiting_readers_are_served_in_order() {
    let mut mbox = Mailbox::new();
    let (tx1, mut rx1) = reader();
    let (tx2, mut rx2) = reader();
    mbox.handle(vec![], Message::Pop(tx1));
    mbox.handle(vec![], Message::Pop(tx2));
    mbox.handle(vec![], Message::Push(7));
    assert_eq!(read(&mut rx1), Some((0, 7)));
    assert_eq!(read(&mut rx2), None);
    mbox.handle(vec![], Message::Push(8));
    assert_eq!(read(&mut rx2), Some((1, 8)));
}

#[test]
fn message_skips_readers_that_are_gone() {
    let mut mbox = Mailbox::new();
    let (tx1, rx1) = reader();
    let (tx2, rx2) = reader();
    let (tx3, mut rx3) = reader();
    for tx in [tx1, tx2, tx3] {
        mbox.pop(tx);
    }
    drop(rx1);
    drop(rx2);
    mbox.push(9);
    assert_eq!(read(&mut rx3), Some((0, 9)));
}

#[test]
fn message_waits_where_every_reader_is_gone() {
    let mut mbox = Mailbox::new();
    let (tx, rx) = reader();
    mbox.pop(tx);
    drop(rx);
    mbox.push(4);
    assert_eq!(next(&mut mbox), Some((0, 4)));
}

#[test]
fn message_that_was_not_taken_stays_first() {
    let mut mbox = Mailbox::new();
    mbox.push(1);
    mbox.push(2);
    let (tx, rx) = reader();
    drop(rx);
    mbox.pop(tx);
    assert_eq!(next(&mut mbox), Some((0, 1)));
    assert_eq!(next(&mut mbox), Some((1, 2)));
}

#[test]
fn messages_given_back_go_where_they_belong() {
    let mut mbox = Mailbox::new();
    for t in ['a', 'b', 'c', 'd', 'e'] {
        mbox.push(t);
    }
    for _ in 0..4 {
        assert!(next(&mut mbox).is_some());
    }
    mbox.give_back(Delivery { number: 2, message: 'c' });
    mbox.give_back(Delivery { number: 0, message: 'a' });
    mbox.give_back(Delivery { number: 3, message: 'd' });
    assert_eq!(next(&mut mbox), Some((0, 'a')));
    assert_eq!(next(&mut mbox), Some((2, 'c')));
    assert_eq!(next(&mut mbox), Some((3, 'd')));
    assert_eq!(next(&mut mbox), Some((4, 'e')));
    assert_eq!(next(&mut mbox), None);
}

#[test]
fn message_given_back_is_offered_to_waiting_readers() {
    let mut mbox = Mailbox::new();
    mbox.push('a');
    assert_eq!(next(&mut mbox), Some((0, 'a')));
    let (tx1, rx1) = reader();
    let (tx2, mut rx2) = reader();
    mbox.pop(tx1);
    mbox.pop(tx2);
    drop(rx1);
    mbox.give_back(Delivery { number: 0, message: 'a' });
    assert_eq!(read(&mut rx2), Some((0, 'a')));
}

#[test]
fn what_was_given_back_is_seen_before_a_request() {
    let mut mbox = Mailbox::new();
    mbox.push('a');
    mbox.push('b');
    assert_eq!(next(&mut mbox), Some((0, 'a')));
    let (tx, mut rx) = reader();
    mbox.handle(vec![Delivery { number: 0, message: 'a' }], Message::Pop(tx));
    assert_eq!(read(&mut rx), Some((0, 'a')));
    assert_eq!(next(&mut mbox), Some((1, 'b')));
}

fn idle_mailbox() -> (MailboxSender<u32>, MailboxReceiver<u32>, MailboxTask<u32>) {
    let kept = Arc::new(Mutex::new(None));
    let kept2 = Arc::clone(&kept);
    let (tx, rx) = mailbox(1, move |task, kind| {
        assert_eq!(kind, TaskKind::Worker);
        *kept2.lock().unwrap() = Some(task);
        pid_of(2)
    });
    let task = kept.lock().unwrap().take().unwrap();
    (tx, rx, task)
}

#[test]
fn both_ends_reach_the_mailbox() {
    run(async {
        let (tx, rx, mut task) = idle_mailbox();
        assert!(tx.0.try_send(tx.send(3)).is_ok());
        assert_eq!(message(task.requests.recv().await.unwrap()), Some(3));
        let (request, mut receipt) = rx.recv();
        assert!(rx.clone().0.try_send(request).is_ok());
        match task.requests.recv().await.unwrap() {
            Message::Pop(reader) => {
                assert!(reader.send(Delivery { number: 5, message: 6 }).is_ok())
            }
            Message::Push(_) => panic!("a reader asked"),
        }
        assert_eq!(read(&mut receipt.rx), Some((5, 6)));
        receipt.give_back();
        assert!(task.way_back.try_recv().is_err());
    })
}

#[test]
fn receipt_gives_back_what_was_not_read() {
    run(async {
        let (_tx, rx, mut task) = idle_mailbox();
        let (request, mut receipt) = rx.clone().recv();
        match request {
            Message::Pop(reader) => {
                assert!(reader.send(Delivery { number: 5, message: 6 }).is_ok())
            }
            Message::Push(_) => panic!("a reader asked"),
        }
        receipt.give_back();
        let back = task.way_back.try_recv().unwrap();
        assert_eq!((back.number, back.message), (5, 6));
        assert_eq!(read(&mut receipt.rx), None);
        receipt.give_back();
        assert!(task.way_back.try_recv().is_err());
    })
}

#[test]
fn receipt_that_was_given_up_takes_nothing_more() {
    run(async {
        let (_tx, rx, mut task) = idle_mailbox();
        let (request, mut receipt) = rx.recv();
        receipt.give_back();
        match request {
            Message::Pop(reader) => {
                assert!(reader.send(Delivery { number: 5, message: 6 }).is_err())
            }
            Message::Push(_) => panic!("a reader asked"),
        }
        assert!(task.way_back.try_recv().is_err());
    })
}

#[test]
fn mailbox_buffers_as_many_requests_as_it_was_made_for() {
    run(async {
        let (tx, _rx, _task) = idle_mailbox();
        let raw = tx.clone().into_raw();
        assert_eq!(raw.max_capacity(), 1);
        let again = MailboxSender::from_raw(raw);
        assert!(again.0.try_send(again.send(1)).is_ok());
        assert!(tx.0.try_send(tx.send(2)).is_err());
    })
}

// The supervisor of a group

#[test]
fn signal_decides_on_suspension_and_resumption() {
    assert!(matches!(select_on(SupvervisorState::Suspend), Select::Suspend));
    assert!(matches!(select_on(SupvervisorState::Active), Select::Nop));
    assert_eq!(resume_on(SupvervisorState::Suspend), Resume::AwaitChange);
    assert_eq!(resume_on(SupvervisorState::Active), Resume::Now);
    let stat = SupervisorStat::new();
    assert_eq!(stat.state, SupvervisorState::Active);
    assert_eq!((stat.running, stat.failed, stat.iterations), (0, 0, 0));
    assert!(!stat.stopped());
}

type Kinds = Arc<Mutex<Vec<TaskKind>>>;

fn assembled(
    builder: GroupBuilder,
    kinds: &Kinds,
) -> (
    SimpleSupervisorImpl<
        impl Fn() -> u64,
        impl Fn(Arc<Notify>, u64, TaskKind) -> Pid<()>,
    >,
    GroupChannels,
) {
    let kinds = Arc::clone(kinds);
    let ids = Mutex::new(100);
    builder.spawn_custom(
        move || {
            let mut next = ids.lock().unwrap();
            *next += 2;
            *next
        },
        move |_notify, task_id, kind| {
            kinds.lock().unwrap().push(kind);
            pid_of(task_id)
        },
        |sv, chans| (sv, chans),
    )
}

#[test]
fn group_starts_its_minimum() {
    run(async {
        let kinds = Kinds::default();
        let builder = tokio_stage::group().spawn_at_least(3).task_kind(TaskKind::Super);
        let (mut sv, _chans) = assembled(builder, &kinds);
        assert!(!sv.awaits_tasks());
        sv.upscale_to_minimum();
        assert!(sv.awaits_tasks());
        assert_eq!(*kinds.lock().unwrap(), vec![TaskKind::Super; 3]);
        let mut ids: Vec<u64> = sv.running.iter().map(|pid| pid.task_id).collect();
        ids.sort();
        assert_eq!(ids, vec![102, 104, 106]);
    })
}

#[test]
fn group_of_no_tasks_starts_none() {
    run(async {
        let kinds = Kinds::default();
        let (mut sv, _chans) = assembled(tokio_stage::group().spawn_at_least(0), &kinds);
        sv.upscale_to_minimum();
        assert!(!sv.awaits_tasks());
    })
}

#[test]
fn upscaling_twice_is_upscaling_once() {
    run(async {
        let kinds = Kinds::default();
        let (mut sv, _chans) = assembled(tokio_stage::group(), &kinds);
        sv.upscale_to_minimum();
        sv.try_upscale(4);
        assert_eq!(sv.running.len(), 4);
        sv.try_upscale(4);
        assert_eq!(sv.running.len(), 4);
        sv.try_upscale(2);
        assert_eq!(sv.running.len(), 4);
    })
}

#[test]
fn group_replaces_what_its_policy_says() {
    run(async {
        let kinds = Kinds::default();
        let (mut sv, _chans) = assembled(tokio_stage::group(), &kinds);
        assert!(matches!(sv.poll(Select::Future(Some(Ok(((), 2))))), Next::Continue));
        assert_eq!(sv.running.len(), 0);
        let cancelled = Select::Future(Some(Err(cancel_error().await)));
        assert!(matches!(sv.poll(cancelled), Next::Continue));
        assert_eq!(sv.running.len(), 0);
        let panicked = Select::Future(Some(Err(panic_error().await)));
        assert!(matches!(sv.poll(panicked), Next::Continue));
        assert_eq!(sv.running.len(), 1);

        let always = tokio_stage::group().restart_policy(RestartPolicy::Always);
        let (mut sv, _chans) = assembled(always, &kinds);
        assert!(matches!(sv.poll(Select::Future(Some(Ok(((), 2))))), Next::Continue));
        assert_eq!(sv.running.len(), 1);
    })
}

#[test]
fn group_answers_every_other_event() {
    run(async {
        let kinds = Kinds::default();
        let builder = tokio_stage::group()
            .spawn_at_least(2)
            .shutdown_timeout(Duration::from_millis(70));
        let (mut sv, chans) = assembled(builder, &kinds);
        assert!(matches!(sv.poll(Select::Nop), Next::Continue));
        assert!(matches!(sv.poll(Select::Future(None)), Next::Continue));
        let upscale = Select::Message(SimpleSupervisorMessage::Upscale { n: 3 });
        assert!(matches!(sv.poll(upscale), Next::Continue));
        assert_eq!(sv.running.len(), 3);

        let waiting = sv.shutdown_notify.clone();
        let notified = waiting.notified();
        match sv.poll(Select::Suspend) {
            Next::Suspend { timeout } => assert_eq!(timeout, Duration::from_millis(70)),
            _ => panic!("the group is to be suspended"),
        }
        notified.await;
        assert_eq!(chans.sv_stat.borrow().state, SupvervisorState::Suspend);
        assert_eq!(sv.resume(SignalWait::NotYet), Resume::StopTasks);
        assert_eq!(chans.sv_stat.borrow().state, SupvervisorState::Suspend);
        sv.drain(DrainEvent::TimedOut);
        assert_eq!(sv.resume(SignalWait::NotYet), Resume::Now);
        assert_eq!(chans.sv_stat.borrow().state, SupvervisorState::Active);
        assert_eq!(sv.running.len(), 2);

        let notified = waiting.notified();
        let timeout = Duration::from_millis(80);
        match sv.poll(Select::Message(SimpleSupervisorMessage::Exit { timeout })) {
            Next::Exit { timeout } => assert_eq!(timeout, Duration::from_millis(80)),
            _ => panic!("the group is to end"),
        }
        notified.await;
        assert_eq!(sv.running.len(), 2);
    })
}

#[test]
fn group_counts_what_happens() {
    run(async {
        let kinds = Kinds::default();
        let (mut sv, chans) = assembled(tokio_stage::group().spawn_at_least(3), &kinds);
        let counts = || {
            let stat = *chans.sv_stat.borrow();
            (stat.state, stat.running, stat.failed, stat.iterations)
        };
        let (suspend, active) = (SupvervisorState::Suspend, SupvervisorState::Active);
        assert_eq!(counts(), (active, 0, 0, 0));
        sv.upscale_to_minimum();
        assert_eq!(counts(), (active, 3, 0, 0));
        sv.poll(Select::Future(Some(Err(panic_error().await))));
        assert_eq!(counts(), (active, 4, 1, 1));
        sv.poll(Select::Future(Some(Err(cancel_error().await))));
        assert_eq!(counts(), (active, 4, 1, 2));
        sv.poll(Select::Nop);
        assert_eq!(counts(), (active, 4, 1, 3));
        sv.poll(Select::Message(SimpleSupervisorMessage::Upscale { n: 6 }));
        assert_eq!(counts(), (active, 6, 1, 4));
        sv.poll(Select::Suspend);
        assert_eq!(counts(), (suspend, 6, 1, 5));
        assert!(!sv.current.stopped());
        let failed = DrainEvent::Exited(Some(Err(panic_error().await)));
        assert_eq!(sv.drain(failed), ControlFlow::Continue(()));
        assert_eq!(counts(), (suspend, 6, 2, 5));
        assert_eq!(sv.drain(DrainEvent::TimedOut), ControlFlow::Break(()));
        assert_eq!(counts(), (suspend, 0, 2, 5));
        assert!(sv.current.stopped());
        assert_eq!(sv.resume(SignalWait::NotYet), Resume::Now);
        assert_eq!(counts(), (active, 3, 2, 5));
    })
}

#[test]
fn group_looks_at_its_signal() {
    run(async {
        let kinds = Kinds::default();
        let (mut sv, chans) = assembled(tokio_stage::group(), &kinds);
        assert!(matches!(sv.select_signal(), Select::Nop));
        assert_eq!(sv.check_resume(SignalWait::NotYet), Resume::Now);
        chans.sv_suspend.send(SupvervisorState::Suspend).unwrap();
        assert!(matches!(sv.select_signal(), Select::Suspend));
        assert_eq!(sv.check_resume(SignalWait::NotYet), Resume::AwaitChange);
        assert_eq!(sv.check_resume(SignalWait::Changed), Resume::AwaitChange);
        assert_eq!(sv.check_resume(SignalWait::Closed), Resume::Now);
        sv.suspend();
        assert_eq!(chans.sv_stat.borrow().state, SupvervisorState::Suspend);
        assert_eq!(sv.resume(SignalWait::Changed), Resume::AwaitChange);
        assert_eq!(chans.sv_stat.borrow().state, SupvervisorState::Suspend);
        chans.sv_suspend.send(SupvervisorState::Active).unwrap();
        assert_eq!(sv.resume(SignalWait::Changed), Resume::Now);
        assert_eq!(chans.sv_stat.borrow().state, SupvervisorState::Active);
        assert_eq!(sv.check_resume(SignalWait::Closed), Resume::StopTasks);
    })
}

#[test]
fn draining_goes_on_until_nothing_is_left() {
    run(async {
        let mut futs = FuturesUnordered::new();
        futs.push(pid_of(2));
        let exited = DrainEvent::Exited(Some(Ok(((), 4))));
        assert_eq!(timeout_pids(&mut futs, exited), ControlFlow::Continue(()));
        let failed = DrainEvent::Exited(Some(Err(panic_error().await)));
        assert_eq!(timeout_pids(&mut futs, failed), ControlFlow::Continue(()));
        assert_eq!(futs.len(), 1);
        let none = DrainEvent::Exited(None);
        assert_eq!(timeout_pids(&mut futs, none), ControlFlow::Break(()));
        assert_eq!(futs.len(), 1);
    })
}

#[test]
fn draining_aborts_what_is_left_when_time_is_up() {
    run(async {
        let mut futs = FuturesUnordered::new();
        let mut handles = Vec::new();
        for task_id in [2, 4, 6] {
            let pid = pid_of(task_id);
            handles.push(pid.abort_handle());
            futs.push(pid);
        }
        let flow = timeout_pids(&mut futs, DrainEvent::TimedOut);
        assert_eq!(flow, ControlFlow::Break(()));
        assert!(futs.is_empty());
        tokio::time::sleep(Duration::from_millis(5)).await;
        assert!(handles.iter().all(|handle| handle.is_finished()));
    })
}

// Groups and their observers

type Sv = SimpleSupervisorImpl<fn(), fn(Arc<Notify>, (), TaskKind) -> Pid<()>>;

fn idle_start(_notify: Arc<Notify>, _fut: (), _kind: TaskKind) -> Pid<()> {
    pid_of(0)
}

fn idle_group(task_id: u64) -> (Group, Sv) {
    let kept = Arc::new(Mutex::new(None));
    let kept2 = Arc::clone(&kept);
    let make: fn() = || ();
    let start: fn(Arc<Notify>, (), TaskKind) -> Pid<()> = idle_start;
    let group = tokio_stage::group().spawn(make, start, move |sv, kind| {
        assert_eq!(kind, TaskKind::Super);
        *kept2.lock().unwrap() = Some(sv);
        pid_of(task_id)
    });
    let sv = kept.lock().unwrap().take().unwrap();
    (group, sv)
}

#[test]
fn group_makes_requests_of_what_it_is_asked() {
    run(async {
        let (group, sv) = idle_group(9);
        assert_eq!(group.task_id(), 9);
        match group.upscale(4) {
            SimpleSupervisorMessage::Upscale { n } => assert_eq!(n, 4),
            SimpleSupervisorMessage::Exit { .. } => panic!("not asked for"),
        }
        match group.exit(Duration::from_secs(5)) {
            SimpleSupervisorMessage::Exit { timeout } => {
                assert_eq!(timeout, Duration::from_secs(5))
            }
            SimpleSupervisorMessage::Upscale { .. } => panic!("not asked for"),
        }
        match group.scope() {
            SimpleSupervisorMessage::Exit { timeout } => {
                assert_eq!(timeout, Duration::from_secs(1))
            }
            SimpleSupervisorMessage::Upscale { .. } => panic!("not asked for"),
        }
        assert_eq!(group.inner.sv_tx.max_capacity(), 1);
        assert_eq!(group.suspend(), Ok(()));
        assert_eq!(*sv.suspend_signal.borrow(), SupvervisorState::Suspend);
        assert_eq!(group.resume(), Ok(()));
        assert_eq!(*sv.suspend_signal.borrow(), SupvervisorState::Active);
        drop(sv);
        assert_eq!(group.suspend(), Err(()));
        assert_eq!(group.resume(), Err(()));
    })
}

#[test]
fn observers_of_one_group_are_equal() {
    run(async {
        let (first, _sv1) = idle_group(3);
        let (second, _sv2) = idle_group(3);
        let (third, _sv3) = idle_group(5);
        let a = first.to_group_ref();
        assert_eq!(a.task_id(), 3);
        assert!(a == first.to_group_ref());
        assert!(a == a.clone());
        assert!(a != second.to_group_ref());
        assert!(a != third.to_group_ref());
        let mixed = GroupRef { sv_task_id: 5, sv_stat: a.sv_stat.clone() };
        assert!(a != mixed);
    })
}

#[test]
fn looking_at_the_published_state_marks_it_as_seen() {
    run(async {
        let (mut group, mut sv) = idle_group(3);
        let before = group.to_group_ref();
        sv.suspend();
        assert_eq!(group.stat_borrow().state, SupvervisorState::Suspend);
        assert!(group.inner.sv_stat.has_changed().unwrap());
        assert_eq!(group.stat_borrow_and_update().state, SupvervisorState::Suspend);
        assert!(!group.inner.sv_stat.has_changed().unwrap());
        assert!(before == group.to_group_ref());
        assert_eq!(group.task_id(), 3);
    })
}

#[test]
fn waiting_for_a_state() {
    run(async {
        let (group, mut sv) = idle_group(3);
        let group_ref = group.to_group_ref();
        let (suspend, active) = (SupvervisorState::Suspend, SupvervisorState::Active);
        assert_eq!(group_ref.wait_on(suspend, suspend), Wait::Over(3));
        assert_eq!(group_ref.wait_on(suspend, active), Wait::AwaitChange);
        assert_eq!(group_ref.wait_until(active), Wait::Over(3));
        assert_eq!(group_ref.wait_until_suspended(), Wait::AwaitChange);
        assert_eq!(group_ref.wait_after_change(suspend, true), Wait::AwaitChange);
        assert_eq!(group_ref.wait_after_change(suspend, false), Wait::Over(3));
        assert_eq!(group_ref.wait_until_exited(true), Wait::AwaitChange);
        assert_eq!(group_ref.wait_until_exited(false), Wait::Over(3));
        sv.suspend();
        assert_eq!(group_ref.wait_until_suspended(), Wait::Over(3));
        assert_eq!(group_ref.wait_after_change(active, true), Wait::AwaitChange);
    })
}

#[test]
fn waiting_for_a_group_to_stop() {
    run(async {
        let (group, mut sv) = idle_group(3);
        let group_ref = group.to_group_ref();
        sv.upscale_to_minimum();
        assert_eq!(group_ref.wait_until_stopped(), Wait::AwaitChange);
        sv.suspend();
        assert_eq!(group_ref.wait_until_stopped(), Wait::AwaitChange);
        assert_eq!(group_ref.stopped_after_change(true), Wait::AwaitChange);
        assert_eq!(group_ref.stopped_after_change(false), Wait::Over(3));
        sv.drain(DrainEvent::TimedOut);
        assert_eq!(group_ref.wait_until_stopped(), Wait::Over(3));
        assert_eq!(sv.resume(SignalWait::NotYet), Resume::Now);
        assert_eq!(group_ref.wait_until_stopped(), Wait::AwaitChange);
    })
}

#[test]
fn watching_a_group_that_is_about_to_run() {
    run(async {
        let (group, mut sv) = idle_group(3);
        let group_ref = group.to_group_ref();
        let (suspend, active) = (SupvervisorState::Suspend, SupvervisorState::Active);
        let go_on = Wait::AwaitChange;
        assert_eq!(group_ref.watch_on(Watch::Resuming, suspend), (Watch::Resuming, go_on));
        assert_eq!(group_ref.watch_on(Watch::Resuming, active), (Watch::Running, go_on));
        assert_eq!(group_ref.watch_on(Watch::Running, active), (Watch::Running, go_on));
        assert_eq!(group_ref.watch_on(Watch::Running, suspend), (Watch::Running, Wait::Over(3)));
        sv.suspend();
        assert_eq!(group_ref.watch_now(Watch::Resuming), (Watch::Resuming, go_on));
        assert_eq!(sv.resume(SignalWait::NotYet), Resume::Now);
        assert_eq!(group_ref.watch_now(Watch::Resuming), (Watch::Running, go_on));
        sv.suspend();
        let over = (Watch::Running, Wait::Over(3));
        assert_eq!(group_ref.watch_after_change(Watch::Running, true), over);
        let gone = (Watch::Resuming, Wait::Over(3));
        assert_eq!(group_ref.watch_after_change(Watch::Resuming, false), gone);
    })
}

// Supervisors

type Svs = SupervisorImpl<Request, fn(), fn(Arc<Notify>, (), TaskKind) -> Pid<()>>;

fn supervisor_impl(strategy: SupervisorStrategy) -> Svs {
    let (_group, inner) = idle_group(1);
    let (_tx, rx) = mailbox(1, |_task, _kind| pid_of(2));
    SupervisorImpl::new(inner, rx, strategy)
}

/// A supervisor of four children, 11, 13, 15 and 17, of which 13 is gone.
fn family(strategy: SupervisorStrategy) -> (Svs, Vec<Sv>) {
    let mut sv = supervisor_impl(strategy);
    let mut alive = Vec::new();
    for id in [11, 13, 15, 17] {
        let (group, child) = idle_group(id);
        let (tx, mut rx) = oneshot::channel();
        let message = SupervisorMessage::AddChild(Child::from(group), tx);
        match sv.handle_supervisor_message(message) {
            MessageAction::Watch(group_ref) => assert_eq!(group_ref.task_id(), id),
            _ => panic!("a child that was added is waited for"),
        }
        assert_eq!(rx.try_recv(), Ok(ChildRef(id)));
        if id != 13 {
            alive.push(child);
        }
    }
    (sv, alive)
}

fn held(sv: &Svs) -> Vec<u64> {
    let mut ids = Vec::new();
    for child in &sv.children {
        if let ChildState::Active(_) = &child.slot {
            ids.push(child.task_id);
        }
    }
    ids
}

fn ids(refs: &[GroupRef]) -> Vec<u64> {
    refs.iter().map(|group_ref| group_ref.task_id()).collect()
}

fn signals(log: &[Signal]) -> Vec<(u64, SupvervisorState, bool)> {
    log.iter().map(|signal| (signal.task_id, signal.state, signal.received)).collect()
}

fn rewatch(action: ExitAction) -> Rewatch {
    match action {
        ExitAction::Rewatch(report) => report,
        _ => panic!("one child is resumed"),
    }
}

fn restart(action: ExitAction) -> Restart {
    match action {
        ExitAction::Restart(restart) => restart,
        _ => panic!("several children are restarted"),
    }
}

#[test]
fn one_for_one_resumes_the_child() {
    run(async {
        let (mut sv, alive) = family(SupervisorStrategy::OneForOne);
        let report = rewatch(sv.handle_task_exit(15));
        assert!(!report.clear);
        assert_eq!(ids(&report.watch), vec![15]);
        assert_eq!(signals(&report.signals), vec![(15, SupvervisorState::Active, true)]);
        assert_eq!(held(&sv), vec![11, 13, 15, 17]);
        assert!(!alive[0].suspend_signal.has_changed().unwrap());
        assert!(alive[1].suspend_signal.has_changed().unwrap());
    })
}

#[test]
fn one_for_one_gives_up_a_child_that_is_gone() {
    run(async {
        let (mut sv, _alive) = family(SupervisorStrategy::OneForOne);
        let report = rewatch(sv.handle_task_exit(13));
        assert!(!report.clear);
        assert!(report.watch.is_empty());
        assert_eq!(signals(&report.signals), vec![(13, SupvervisorState::Active, false)]);
        assert_eq!(held(&sv), vec![11, 15, 17]);
        assert!(matches!(sv.handle_task_exit(13), ExitAction::Done));
        assert!(matches!(sv.handle_task_exit(12), ExitAction::Done));
        assert_eq!(held(&sv), vec![11, 15, 17]);
    })
}

#[test]
fn one_for_all_suspends_backwards_and_resumes_forwards() {
    run(async {
        let (suspend, active) = (SupvervisorState::Suspend, SupvervisorState::Active);
        let (mut sv, alive) = family(SupervisorStrategy::OneForAll);
        let restart = restart(sv.handle_task_exit(15));
        assert_eq!(
            signals(&restart.signals),
            vec![(17, suspend, true), (15, suspend, true), (13, suspend, false), (11, suspend, true)]
        );
        assert_eq!(ids(&restart.stopping), vec![11, 15, 17]);
        assert_eq!(restart.start, 0);
        assert_eq!(held(&sv), vec![11, 15, 17]);
        for child in &alive {
            assert_eq!(*child.suspend_signal.borrow(), suspend);
        }
        let report = sv.resume_children(restart.start);
        assert!(report.clear);
        assert_eq!(
            signals(&report.signals),
            vec![(11, active, true), (15, active, true), (17, active, true)]
        );
        assert_eq!(ids(&report.watch), vec![11, 15, 17]);
        for child in &alive {
            assert_eq!(*child.suspend_signal.borrow(), active);
        }
    })
}

#[test]
fn rest_for_all_leaves_the_earlier_children() {
    run(async {
        let (suspend, active) = (SupvervisorState::Suspend, SupvervisorState::Active);
        let (mut sv, alive) = family(SupervisorStrategy::RestForAll);
        let restart = restart(sv.handle_task_exit(13));
        assert_eq!(signals(&restart.signals), vec![(17, suspend, true), (15, suspend, true)]);
        assert_eq!(ids(&restart.stopping), vec![15, 17]);
        assert_eq!(restart.start, 1);
        let report = sv.resume_children(restart.start);
        assert_eq!(
            signals(&report.signals),
            vec![(13, active, false), (15, active, true), (17, active, true)]
        );
        assert!(report.clear);
        assert_eq!(ids(&report.watch), vec![11, 15, 17]);
        assert_eq!(held(&sv), vec![11, 15, 17]);
        assert!(!alive[0].suspend_signal.has_changed().unwrap());
    })
}

#[test]
fn child_that_dies_in_between_is_given_up_on_resume() {
    run(async {
        let (mut sv, mut alive) = family(SupervisorStrategy::OneForAll);
        let restart = restart(sv.handle_task_exit(11));
        drop(alive.remove(1));
        let report = sv.resume_children(restart.start);
        assert_eq!(ids(&report.watch), vec![11, 17]);
        assert_eq!(held(&sv), vec![11, 17]);
    })
}

#[test]
fn resuming_past_the_last_child_signals_nobody() {
    run(async {
        let (mut sv, _alive) = family(SupervisorStrategy::OneForAll);
        let report = sv.resume_children(9);
        assert!(report.signals.is_empty());
        assert!(report.clear);
        assert_eq!(ids(&report.watch), vec![11, 13, 15, 17]);
    })
}

fn terminate(sv: &mut Svs, id: u64) -> (MessageAction<Request>, oneshot::Receiver<Result<(), ()>>) {
    let (tx, rx) = oneshot::channel();
    (sv.handle_supervisor_message(SupervisorMessage::TerminateChild(ChildRef(id), tx)), rx)
}

#[test]
fn terminating_a_child_hands_it_out_once() {
    run(async {
        let (mut sv, _alive) = family(SupervisorStrategy::OneForOne);
        let (action, mut answer) = terminate(&mut sv, 15);
        match action {
            MessageAction::ExitChild { child, timeout, reply } => {
                assert_eq!(child.task_id(), 15);
                assert_eq!(timeout, Duration::from_secs(1));
                assert!(answer.try_recv().is_err());
                acknowledge(reply);
            }
            _ => panic!("the child is told to exit"),
        }
        assert_eq!(answer.try_recv(), Ok(Ok(())));
        assert_eq!(held(&sv), vec![11, 13, 17]);

        let (action, mut answer) = terminate(&mut sv, 15);
        assert!(matches!(action, MessageAction::Done));
        assert_eq!(answer.try_recv(), Ok(Ok(())));
        assert!(matches!(sv.handle_task_exit(15), ExitAction::Done));
        assert_eq!(held(&sv), vec![11, 13, 17]);
    })
}

#[test]
fn terminating_an_unknown_child_fails() {
    run(async {
        let (mut sv, _alive) = family(SupervisorStrategy::OneForOne);
        let (action, mut answer) = terminate(&mut sv, 12);
        assert!(matches!(action, MessageAction::Done));
        assert_eq!(answer.try_recv(), Ok(Err(())));
        assert_eq!(held(&sv), vec![11, 13, 15, 17]);
    })
}

#[test]
fn shutdown_hands_out_the_children_in_order() {
    run(async {
        let (mut sv, _alive) = family(SupervisorStrategy::OneForOne);
        let _ = terminate(&mut sv, 11);
        let timeout = Duration::from_secs(2);
        let exit = Select::Message(SimpleSupervisorMessage::Exit { timeout });
        let action = sv.handle_select(supervisor::Select::Inner(exit));
        assert_eq!(action.flow(), ControlFlow::Break(()));
        match action {
            SelectAction::Shutdown { children, timeout } => {
                assert_eq!(timeout, Duration::from_secs(2));
                let ids: Vec<u64> = children.iter().map(|child| child.task_id()).collect();
                assert_eq!(ids, vec![13, 15, 17]);
                let mut futs = FuturesUnordered::new();
                for child in children {
                    let told = child.task_id() != 13;
                    collect_told(&mut futs, child, told);
                }
                let mut told: Vec<u64> = futs.iter().map(|pid| pid.task_id).collect();
                told.sort();
                assert_eq!(told, vec![15, 17]);
            }
            _ => panic!("the supervisor is to end"),
        }
        assert!(held(&sv).is_empty());
        assert_eq!(sv.children.len(), 4);
    })
}

#[test]
fn supervisor_passes_the_other_events_on() {
    run(async {
        let (mut sv, _alive) = family(SupervisorStrategy::OneForOne);
        let action = sv.handle_select(supervisor::Select::TaskExit(None));
        assert!(matches!(action, SelectAction::Continue));
        assert_eq!(action.flow(), ControlFlow::Continue(()));
        let action = sv.handle_select(supervisor::Select::Inner(Select::Nop));
        assert!(matches!(action, SelectAction::Inner(Next::Continue)));
        assert_eq!(action.flow(), ControlFlow::Continue(()));
        let action = sv.handle_select(supervisor::Select::TaskExit(Some(17)));
        assert!(matches!(action, SelectAction::TaskExit(ExitAction::Rewatch(_))));
        assert_eq!(action.flow(), ControlFlow::Continue(()));
        let (tx, _rx) = oneshot::channel();
        let message = SupervisorMessage::TerminateChild(ChildRef(17), tx);
        let action = sv.handle_select(supervisor::Select::Message(message));
        assert!(matches!(action, SelectAction::Message(MessageAction::ExitChild { .. })));
        assert_eq!(action.flow(), ControlFlow::Continue(()));
        let upscale = Select::Message(SimpleSupervisorMessage::Upscale { n: 2 });
        let action = sv.handle_select(supervisor::Select::Inner(upscale));
        assert!(matches!(action, SelectAction::Inner(Next::Continue)));
        assert_eq!(sv.inner.running.len(), 2);
    })
}

#[test]
fn suspended_supervisor_starts_no_task_when_it_goes_on() {
    run(async {
        let mut sv = supervisor_impl(SupervisorStrategy::OneForOne);
        sv.handle_select(supervisor::Select::Inner(Select::Suspend));
        assert_eq!(sv.inner.current.state, SupvervisorState::Suspend);
        assert_eq!(sv.resume(SignalWait::NotYet), Resume::Now);
        assert_eq!(sv.inner.current.state, SupvervisorState::Active);
        assert_eq!(sv.inner.running.len(), 0);
    })
}

#[test]
fn messages_queue_up_beyond_the_capacity() {
    let mut mbox = Mailbox::new();
    for n in 0..1000 {
        mbox.handle(vec![], Message::Push(n));
    }
    for n in 0..1000 {
        assert_eq!(next(&mut mbox), Some((n, n)));
    }
}

#[test]
fn supervisor_is_a_group_of_its_own() {
    run(async {
        let kept = Arc::new(Mutex::new(None));
        let kept2 = Arc::clone(&kept);
        let make: fn() = || ();
        let start: fn(Arc<Notify>, (), TaskKind) -> Pid<()> = idle_start;
        let sup: Supervisor<Request> = supervisor::supervisor(
            SupervisorStrategy::RestForAll,
            make,
            start,
            |_task, _kind| pid_of(2),
            move |sv, kind| {
                assert_eq!(kind, TaskKind::Super);
                *kept2.lock().unwrap() = Some(sv);
                pid_of(21)
            },
        );
        let sv = kept.lock().unwrap().take().unwrap();
        assert_eq!(sv.strategy, SupervisorStrategy::RestForAll);
        assert!(sv.children.is_empty());
        assert_eq!(sv.inner.config.task_kind, TaskKind::Super);
        assert_eq!(sv.inner.config.restart_policy, RestartPolicy::OnPanic);
        assert_eq!(sv.inner.config.spawn_at_least, 1);
        assert_eq!(sv.inner.config.shutdown_timeout, Duration::from_secs(1));
        assert_eq!(sup.sv_group.task_id(), 21);
        assert!(sup.sv_tx.0.same_channel(&sv.rx.0));

        let (group, _child) = idle_group(31);
        let (request, reply) = sup.add_child(Child::from(group));
        match Request(request).0 {
            SupervisorMessage::AddChild(child, tx) => {
                assert!(matches!(child, Child::Worker(_)));
                assert_eq!(child.into_pid().task_id, 31);
                tx.send(ChildRef(31)).unwrap();
            }
            SupervisorMessage::TerminateChild(..) => panic!("a child is to be added"),
        }
        assert_eq!(reply.await, Ok(ChildRef(31)));
        let (request, reply) = sup.terminate_child(ChildRef(33));
        match request {
            SupervisorMessage::TerminateChild(child_ref, tx) => {
                assert_eq!(child_ref, ChildRef(33));
                tx.send(Err(())).unwrap();
            }
            SupervisorMessage::AddChild(..) => panic!("a child is to be terminated"),
        }
        assert_eq!(reply.await, Ok(Err(())));
        let child: Child<Request> = Child::from(sup);
        assert!(matches!(child, Child::Super(_)));
        assert_eq!(child.task_id(), 21);
        assert_eq!(child.into_pid().task_id, 21);
    })
}

#[test]
fn places_start_out_deleted() {
    let slot: ChildState<Request> = ChildState::default();
    assert!(matches!(slot, ChildState::Deleted));
}

#[test]
fn grace_is_a_tenth_of_a_second_longer() {
    assert_eq!(grace_millis(0), Some(100));
    assert_eq!(grace_millis(400), Some(500));
    assert_eq!(grace_millis(0x1_0000_0000_0000_0000 + 5), Some(105));
    assert_eq!(grace_millis(0xffff_ffff_ffff_ffff - 100), Some(u64::MAX));
    assert_eq!(grace_millis(0xffff_ffff_ffff_ffff - 99), None);
    assert_eq!(shutdown_grace(Duration::from_millis(400)), Some(Duration::from_millis(500)));
    assert_eq!(shutdown_grace(Duration::from_secs(1)), Some(Duration::from_millis(1100)));
    assert_eq!(shutdown_grace(Duration::from_micros(2999)), Some(Duration::from_millis(102)));
    assert_eq!(shutdown_grace(Duration::MAX), None);
}

// Actors and shutdown

#[test]
fn context_gives_access_to_state_and_request() {
    let mut state = 5;
    let mut cx: Context<'_, i32, &str> = "request".into_context(&mut state);
    assert_eq!(*cx.as_ref(), 5);
    *cx.as_mut() += 1;
    assert_eq!(*cx.as_ref(), 6);
    let (held, request) = cx.into_parts();
    *held *= 2;
    assert_eq!(request, "request");
    assert_eq!(state, 12);
}

#[test]
fn actor_loop_hands_its_state_to_each_request() {
    let mut actor = ActorLoop::new(1);
    *actor.context("first").as_mut() += 10;
    let (state, request) = actor.context("second").into_parts();
    assert_eq!((*state, request), (11, "second"));
    assert_eq!(actor.after_ready(true), ControlFlow::Continue(()));
    assert_eq!(actor.after_ready(false), ControlFlow::Break(()));
}

#[test]
fn shutdown_steps() {
    assert!(matches!(
        graceful_shutdown(ShutdownEvent::<u8>::Started { signal_known: true }),
        ShutdownStep::AwaitEither
    ));
    assert!(matches!(
        graceful_shutdown(ShutdownEvent::<u8>::Started { signal_known: false }),
        ShutdownStep::AwaitFuture
    ));
    assert!(matches!(
        graceful_shutdown(ShutdownEvent::Finished(3)),
        ShutdownStep::Return(Some(3))
    ));
    assert!(matches!(
        graceful_shutdown(ShutdownEvent::<u8>::Signalled),
        ShutdownStep::RunHook
    ));
    assert!(matches!(
        graceful_shutdown(ShutdownEvent::<u8>::HookFinished),
        ShutdownStep::Return(None)
    ));
}
