//! Groups, mailboxes, actors and supervisors on a running tokio runtime.
use futures::future::{select_all, BoxFuture};
use futures::stream::FuturesUnordered;
use futures::{FutureExt, StreamExt};
use std::future::Future;
use std::ops::ControlFlow;
use std::sync::atomic::{AtomicBool, AtomicUsize, Ordering};
use std::sync::{Arc, Mutex};
use std::time::Duration;
use tokio::sync::{mpsc, oneshot, watch, Barrier, Notify};
use tokio_stage::actor::{actor, Actor, ActorLoop, Context};
use tokio_stage::graceful_shutdown::{graceful_shutdown, ShutdownEvent, ShutdownStep};
use tokio_stage::group::{Group, GroupBuilder, GroupRef, RestartPolicy, Wait, Watch};
use tokio_stage::mailbox::{
    mailbox, MailboxChannel, MailboxReceiver, MailboxSender, MailboxTask, Receipt,
};
use tokio_stage::runtime::Runtime;
use tokio_stage::simple_supervisor::{
    timeout_pids, DrainEvent, Next, Resume, Select, SignalWait, SimpleSupervisorImpl,
    SimpleSupervisorMessage, SupvervisorState,
};
use tokio_stage::supervisor;
use tokio_stage::supervisor::{
    acknowledge, collect_told, shutdown_grace, Child, ChildRef, ExitAction, MessageAction,
    Rewatch, SelectAction, Supervisor, SupervisorImpl, SupervisorMessage, SupervisorStrategy,
};
use tokio_stage::task::{Pid, TaskIds, TaskKind};
use tower::ServiceExt;

type Job = Box<dyn FnOnce(Arc<Notify>) -> BoxFuture<'static, ()> + Send>;

fn job<G, T>(make: G) -> Job
where
    G: FnOnce(Arc<Notify>) -> T + Send + 'static,
    T: Future<Output = ()> + Send + 'static,
{
    Box::new(move |notify| make(notify).boxed())
}

#[derive(Debug)]
struct Request(SupervisorMessage<Request>);

fn run<T>(fut: impl Future<Output = T>) -> T {
    tokio::runtime::Builder::new_current_thread().enable_all().build().unwrap().block_on(fut)
}

async fn millis(n: u64) {
    tokio::time::sleep(Duration::from_millis(n)).await
}

struct Pending<T>(Receipt<T>);

impl<T> Drop for Pending<T> {
    fn drop(&mut self) {
        self.0.give_back();
    }
}

async fn pop<T>(receiver: &MailboxReceiver<T>) -> T {
    let (message, receipt) = receiver.recv();
    let mut pending = Pending(receipt);
    assert!(receiver.0.send(message).await.is_ok());
    let delivery = (&mut pending.0.rx).await;
    delivery.unwrap().message
}

async fn poll_once<F: Future + Unpin>(fut: &mut F) -> Option<F::Output> {
    std::future::poll_fn(|cx| match std::pin::Pin::new(&mut *fut).poll(cx) {
        std::task::Poll::Ready(t) => std::task::Poll::Ready(Some(t)),
        std::task::Poll::Pending => std::task::Poll::Ready(None),
    })
    .await
}

async fn push<T>(channel: &MailboxChannel<T>, t: T) {
    assert!(channel.send(channel.push(t)).await.is_ok());
}

async fn drain(timeout: Duration, futs: &mut FuturesUnordered<Pid<()>>) {
    let mut timer = Box::pin(tokio::time::sleep(timeout));
    loop {
        let event = match futures::future::select(futs.next(), &mut timer).await {
            futures::future::Either::Left((res, _)) => DrainEvent::Exited(res),
            futures::future::Either::Right(_) => DrainEvent::TimedOut,
        };
        if timeout_pids(futs, event) == ControlFlow::Break(()) {
            return;
        }
    }
}

async fn drain_group<F, S>(timeout: Duration, sv: &mut SimpleSupervisorImpl<F, S>) {
    let mut timer = Box::pin(tokio::time::sleep(timeout));
    loop {
        let event = match futures::future::select(sv.running.next(), &mut timer).await {
            futures::future::Either::Left((res, _)) => DrainEvent::Exited(res),
            futures::future::Either::Right(_) => DrainEvent::TimedOut,
        };
        if sv.drain(event) == ControlFlow::Break(()) {
            return;
        }
    }
}

enum Woken {
    Signal,
    Task(Select),
    Message(SimpleSupervisorMessage),
}

async fn select<F, S>(sv: &mut SimpleSupervisorImpl<F, S>) -> Select {
    let awaits_tasks = sv.awaits_tasks();
    let signal = &mut sv.suspend_signal;
    let running = &mut sv.running;
    let chan_rx = &mut sv.chan_rx;
    let sources: Vec<BoxFuture<'_, Woken>> = vec![
        async move {
            match signal.changed().await {
                Ok(()) => Woken::Signal,
                Err(_) => std::future::pending().await,
            }
        }
        .boxed(),
        async move {
            if awaits_tasks {
                Woken::Task(Select::Future(running.next().await))
            } else {
                std::future::pending().await
            }
        }
        .boxed(),
        async move {
            match chan_rx.recv().await {
                Some(message) => Woken::Message(message),
                None => std::future::pending().await,
            }
        }
        .boxed(),
    ];
    let (woken, _, _) = select_all(sources).await;
    match woken {
        Woken::Signal => sv.select_signal(),
        Woken::Task(sel) => sel,
        Woken::Message(message) => Select::Message(message),
    }
}

async fn wait_for_signal(signal: &mut watch::Receiver<SupvervisorState>) -> SignalWait {
    match signal.changed().await {
        Ok(()) => SignalWait::Changed,
        Err(_) => SignalWait::Closed,
    }
}

async fn group_loop<F, S>(mut sv: SimpleSupervisorImpl<F, S>)
where
    F: Fn() -> Job + Send + 'static,
    S: Fn(Arc<Notify>, Job, TaskKind) -> Pid<()> + Send + 'static,
{
    sv.upscale_to_minimum();
    loop {
        let sel = select(&mut sv).await;
        match sv.poll(sel) {
            Next::Continue => {}
            Next::Suspend { timeout } => {
                drain_group(timeout, &mut sv).await;
                let mut signal = sv.suspend_signal.clone();
                let mut wait = SignalWait::NotYet;
                loop {
                    match sv.resume(wait) {
                        Resume::Now => break,
                        Resume::AwaitChange => wait = wait_for_signal(&mut signal).await,
                        Resume::StopTasks => drain_group(timeout, &mut sv).await,
                    }
                }
            }
            Next::Exit { timeout } => {
                drain_group(timeout, &mut sv).await;
                return;
            }
        }
    }
}

async fn until_suspended(group: GroupRef) -> u64 {
    let mut stat = group.sv_stat.clone();
    let mut wait = group.wait_until_suspended();
    loop {
        match wait {
            Wait::Over(id) => return id,
            Wait::AwaitChange => {
                let changed = stat.changed().await.is_ok();
                wait = group.wait_after_change(SupvervisorState::Suspend, changed);
            }
        }
    }
}

async fn until_stopped(group: GroupRef) -> u64 {
    let mut stat = group.sv_stat.clone();
    let mut wait = group.wait_until_stopped();
    loop {
        match wait {
            Wait::Over(id) => return id,
            Wait::AwaitChange => {
                let changed = stat.changed().await.is_ok();
                wait = group.stopped_after_change(changed);
            }
        }
    }
}

async fn until_suspended_again(group: GroupRef) -> u64 {
    let mut stat = group.sv_stat.clone();
    let (mut watch, mut wait) = group.watch_now(Watch::Resuming);
    loop {
        match wait {
            Wait::Over(id) => return id,
            Wait::AwaitChange => {
                let changed = stat.changed().await.is_ok();
                (watch, wait) = group.watch_after_change(watch, changed);
            }
        }
    }
}

async fn until_exited(group: &GroupRef) {
    let mut stat = group.sv_stat.clone();
    loop {
        let changed = stat.changed().await.is_ok();
        if group.wait_until_exited(changed) == Wait::Over(group.task_id()) {
            return;
        }
    }
}

type Watched = FuturesUnordered<BoxFuture<'static, u64>>;

fn rewatch(watched: &mut Watched, report: Rewatch) {
    if report.clear {
        watched.clear();
    }
    for group in report.watch {
        watched.push(until_suspended_again(group).boxed());
    }
}

async fn supervisor_select<F, S>(
    sv: &mut SupervisorImpl<Request, F, S>,
    watched: &mut Watched,
) -> supervisor::Select<Request>
where
    F: Send,
    S: Send,
{
    let inner = &mut sv.inner;
    let rx = &sv.rx;
    let sources: Vec<BoxFuture<'_, supervisor::Select<Request>>> = vec![
        async move { supervisor::Select::Inner(select(inner).await) }.boxed(),
        async move {
            match watched.next().await {
                Some(id) => supervisor::Select::TaskExit(Some(id)),
                None => std::future::pending().await,
            }
        }
        .boxed(),
        async move { supervisor::Select::Message(pop(&rx).await.0) }.boxed(),
    ];
    select_all(sources).await.0
}

async fn supervisor_loop<F, S>(mut sv: SupervisorImpl<Request, F, S>)
where
    F: Fn() -> Job + Send + 'static,
    S: Fn(Arc<Notify>, Job, TaskKind) -> Pid<()> + Send + 'static,
{
    let mut watched = Watched::new();
    loop {
        let sel = supervisor_select(&mut sv, &mut watched).await;
        let action = sv.handle_select(sel);
        let flow = action.flow();
        match action {
            SelectAction::Continue | SelectAction::Inner(Next::Continue) => {}
            SelectAction::Inner(Next::Suspend { timeout }) => {
                drain_group(timeout, &mut sv.inner).await;
                let mut signal = sv.inner.suspend_signal.clone();
                let mut wait = SignalWait::NotYet;
                loop {
                    match sv.resume(wait) {
                        Resume::Now => break,
                        Resume::AwaitChange => wait = wait_for_signal(&mut signal).await,
                        Resume::StopTasks => drain_group(timeout, &mut sv.inner).await,
                    }
                }
            }
            SelectAction::Inner(Next::Exit { timeout }) => {
                drain_group(timeout, &mut sv.inner).await
            }
            SelectAction::TaskExit(ExitAction::Done) => {}
            SelectAction::TaskExit(ExitAction::Rewatch(report)) => rewatch(&mut watched, report),
            SelectAction::TaskExit(ExitAction::Restart(restart)) => {
                for group in restart.stopping {
                    until_stopped(group).await;
                }
                rewatch(&mut watched, sv.resume_children(restart.start));
            }
            SelectAction::Message(MessageAction::Done) => {}
            SelectAction::Message(MessageAction::Watch(group)) => {
                watched.push(until_suspended(group).boxed())
            }
            SelectAction::Message(MessageAction::ExitChild { child, timeout, reply }) => {
                let _ = child.inner.sv_tx.send(child.exit(timeout)).await;
                acknowledge(reply);
            }
            SelectAction::Shutdown { children, timeout } => {
                let mut futs = FuturesUnordered::new();
                for child in children {
                    let told = child.inner.sv_tx.send(child.exit(timeout)).await.is_ok();
                    collect_told(&mut futs, child, told);
                }
                drain(shutdown_grace(timeout).unwrap(), &mut futs).await;
            }
        }
        if flow == ControlFlow::Break(()) {
            return;
        }
    }
}

#[derive(Clone)]
struct Stage {
    ids: Arc<Mutex<TaskIds>>,
}

impl Stage {
    fn new() -> Self {
        Stage { ids: Arc::new(Mutex::new(TaskIds::new())) }
    }

    fn spawn<T>(&self, fut: T, kind: TaskKind) -> Pid<T::Output>
    where
        T: Future + Send + 'static,
        T::Output: Send + 'static,
    {
        let mut ids = self.ids.lock().unwrap();
        assert!(ids.can_allocate(kind));
        tokio_stage::task::spawn(&mut ids, fut, kind, |_, fut| tokio::spawn(fut))
    }

    fn run_mailbox<T: Send + 'static>(&self) -> impl FnOnce(MailboxTask<T>, TaskKind) -> Pid<()> {
        let stage = self.clone();
        move |task: MailboxTask<T>, kind| {
            assert_eq!(kind, TaskKind::Worker);
            let MailboxTask { mut requests, mut way_back, mut mbox } = task;
            stage.spawn(
                async move {
                    loop {
                        let next = {
                            let back = Box::pin(way_back.recv());
                            let request = Box::pin(requests.recv());
                            match futures::future::select(back, request).await {
                                futures::future::Either::Left((Some(delivery), _)) => Ok(delivery),
                                futures::future::Either::Left((None, request)) => {
                                    Err(request.await)
                                }
                                futures::future::Either::Right((request, _)) => Err(request),
                            }
                        };
                        match next {
                            Ok(delivery) => mbox.give_back(delivery),
                            Err(None) => return,
                            Err(Some(message)) => {
                                let mut returned = Vec::new();
                                while let Ok(delivery) = way_back.try_recv() {
                                    returned.push(delivery);
                                }
                                mbox.handle(returned, message);
                            }
                        }
                    }
                },
                kind,
            )
        }
    }

    fn mailbox<T: Send + 'static>(
        &self,
        capacity: usize,
    ) -> (MailboxSender<T>, MailboxReceiver<T>) {
        mailbox(capacity, self.run_mailbox())
    }

    fn starter(&self) -> impl Fn(Arc<Notify>, Job, TaskKind) -> Pid<()> + Send + 'static {
        let stage = self.clone();
        move |notify, job: Job, kind| stage.spawn(job(notify), kind)
    }

    fn group<F>(&self, builder: GroupBuilder, make: F) -> Group
    where
        F: Fn() -> Job + Send + 'static,
    {
        let stage = self.clone();
        builder.spawn(make, self.starter(), move |sv, kind| stage.spawn(group_loop(sv), kind))
    }

    fn supervisor(&self, strategy: SupervisorStrategy) -> Supervisor<Request> {
        let stage = self.clone();
        let idle: fn() -> Job = || job(|_| std::future::pending());
        supervisor::supervisor(strategy, idle, self.starter(), self.run_mailbox(), move |sv, kind| {
            stage.spawn(supervisor_loop(sv), kind)
        })
    }

    fn runtime<Fut>(&self) -> Runtime<Request, Fut> {
        let stage = self.clone();
        let idle: fn() -> Job = || job(|_| std::future::pending());
        Runtime::new(idle, self.starter(), self.run_mailbox(), move |sv, kind| {
            assert_eq!(sv.strategy, SupervisorStrategy::OneForOne);
            stage.spawn(supervisor_loop(sv), kind)
        })
    }
}

async fn scope<T>(group: Group, fut: impl Future<Output = T>) -> T {
    let t = fut.await;
    group.inner.sv_tx.send(group.scope()).await.expect("shutdown failure");
    group.inner.sv_tx.closed().await;
    t
}

async fn add_child(sup: &Supervisor<Request>, child: impl Into<Child<Request>>) -> ChildRef {
    let (message, rx) = sup.add_child(child.into());
    push(&sup.sv_tx.0, Request(message)).await;
    rx.await.expect("could not add supervisor child")
}

async fn terminate_child(sup: &Supervisor<Request>, child_ref: ChildRef) -> Result<(), ()> {
    let (message, rx) = sup.terminate_child(child_ref);
    push(&sup.sv_tx.0, Request(message)).await;
    rx.await.expect("could not terminate supervisor child")
}

async fn until_signalled<Fut, G, H>(notify: Arc<Notify>, fut: Fut, hook: G) -> Option<Fut::Output>
where
    Fut: Future,
    G: FnOnce() -> H,
    H: Future<Output = ()>,
{
    let fut = Box::pin(fut);
    let notified = Box::pin(notify.notified());
    let started = graceful_shutdown(ShutdownEvent::<Fut::Output>::Started { signal_known: true });
    assert!(matches!(started, ShutdownStep::AwaitEither));
    let event = match futures::future::select(fut, notified).await {
        futures::future::Either::Left((res, _)) => ShutdownEvent::Finished(res),
        futures::future::Either::Right(_) => ShutdownEvent::Signalled,
    };
    match graceful_shutdown(event) {
        ShutdownStep::Return(res) => res,
        ShutdownStep::RunHook => {
            hook().await;
            match graceful_shutdown(ShutdownEvent::HookFinished) {
                ShutdownStep::Return(res) => res,
                _ => panic!("nothing is left to do"),
            }
        }
        _ => panic!("the wait is over"),
    }
}

trait SendService<T>: tower::Service<T, Future = Self::SendFuture> {
    type SendFuture: Send;
}

impl<S: tower::Service<T>, T> SendService<T> for S
where
    S::Future: Send,
{
    type SendFuture = S::Future;
}

async fn answer<T, U, S>(mut state: ActorLoop<T>, rx: MailboxReceiver<U>, mut svc: S)
where
    T: 'static,
    S: for<'a> tower::Service<Context<'a, T, U>>,
{
    loop {
        let u = pop(&rx).await;
        let ready = svc.ready().await.is_ok();
        if state.after_ready(ready).is_break() {
            return;
        }
        let _ = svc.call(state.context(u)).await;
    }
}

fn make_actor<T, U, S>(
    stage: &Stage,
    state: T,
    service: S,
) -> Actor<impl Future<Output = ()> + Send + 'static, U>
where
    S: Send + 'static + for<'a> SendService<Context<'a, T, U>>,
    U: Send + 'static,
    T: Send + 'static,
{
    actor(state, service, stage.run_mailbox(), |state, rx, svc| answer(state, rx, svc))
}

async fn handle<'a>(_r: Context<'a, (), ()>) -> Result<(), ()> {
    Ok(())
}

#[test]
fn test() {
    run(async {
        let stage = Stage::new();
        let svc = tower::service_fn(handle);
        let act = make_actor(&stage, (), svc);

        stage.spawn(act.fut, TaskKind::Worker);
    })
}

async fn add_up<'a>(
    cx: Context<'a, u64, (u64, oneshot::Sender<u64>)>,
) -> Result<(), ()> {
    let (total, (n, reply)) = cx.into_parts();
    *total += n;
    reply.send(*total).map_err(|_| ())
}

#[test]
fn actor_keeps_its_state_between_requests() {
    run(async {
        let stage = Stage::new();
        let act = make_actor(&stage, 10, tower::service_fn(add_up));
        let sender = act.sender().expect("the mailbox is open");
        stage.spawn(act.fut, TaskKind::Worker);
        for (n, total) in [(1, 11), (2, 13), (30, 43)] {
            let (tx, rx) = oneshot::channel();
            push(&sender.0, (n, tx)).await;
            assert_eq!(rx.await, Ok(total));
        }
    })
}

#[test]
fn actor_sender_is_none_once_the_mailbox_is_closed() {
    run(async {
        let stage = Stage::new();
        let act = make_actor(&stage, (), tower::service_fn(handle));
        assert!(act.sender().is_some());
        let (fut, chan) = act.into_parts();
        drop(fut);
        let act: Actor<(), ()> = Actor { fut: (), chan };
        assert!(act.sender().is_none());
    })
}

#[test]
fn test_pos_graceful_shutdown_timeout() {
    run(async {
        let n = Arc::new(Notify::new());

        tokio::spawn({
            let n = Arc::clone(&n);
            async move {
                tokio::time::sleep(Duration::from_nanos(1)).await;
                n.notify_waiters();
            }
        });

        let mut flag = false;
        let setter = &mut flag;

        let res = until_signalled(n, std::future::pending::<()>(), || async {
            *setter = true;
        })
        .await;

        assert!(flag);
        assert_eq!(res, None);
    })
}

#[test]
fn graceful_shutdown_returns_the_result_of_a_future_that_finishes() {
    run(async {
        let mut flag = false;
        let setter = &mut flag;
        let res = until_signalled(Arc::new(Notify::new()), async { 7 }, || async {
            *setter = true;
        })
        .await;
        assert_eq!(res, Some(7));
        assert!(!flag);
    })
}

#[test]
fn test_group_upscale() {
    run(async {
        let n = 10;
        let delay = 100;

        let ctr = Arc::new(AtomicUsize::new(0));
        let ctr2 = Arc::clone(&ctr);

        let group = Stage::new().group(tokio_stage::group().spawn_at_least(n), move || {
            let ctr = Arc::clone(&ctr2);
            job(move |_| async move {
                ctr.fetch_add(1, Ordering::SeqCst);
                millis(delay + 1).await;
            })
        });

        millis(delay / 10).await;
        assert_eq!(ctr.load(Ordering::SeqCst), n);

        group.inner.sv_tx.send(group.upscale(n * 2)).await.expect("failed to upscale");

        millis(delay / 10).await;
        assert_eq!(ctr.load(Ordering::SeqCst), n * 2);
    })
}

async fn expect_min_spawn_n(n: usize, delay: u64) {
    let ctr = Arc::new(AtomicUsize::new(0));
    let ctr2 = Arc::clone(&ctr);

    let group = Stage::new().group(tokio_stage::group().spawn_at_least(n), move || {
        let ctr = Arc::clone(&ctr2);
        job(move |_| async move {
            ctr.fetch_add(1, Ordering::SeqCst);
            millis(delay * 2).await;
        })
    });

    scope(group, millis(delay)).await;

    assert_eq!(ctr.load(Ordering::SeqCst), n);
}

#[test]
fn test_group_spawn_at_least_n() {
    run(async {
        expect_min_spawn_n(5, 10).await;
        expect_min_spawn_n(10, 10).await;
        expect_min_spawn_n(100, 10).await;
        expect_min_spawn_n(1000, 10).await;
        expect_min_spawn_n(10000, 100).await;
        expect_min_spawn_n(100000, 300).await;
    })
}

#[test]
fn test_group_basic_usage() {
    run(async {
        let ctr = Arc::new(AtomicBool::new(false));
        let (tx, rx) = mpsc::channel(1);
        let rx = Arc::new(tokio::sync::Mutex::new(rx));

        let builder = tokio_stage::group().restart_policy(RestartPolicy::Always);
        let group = Stage::new().group(builder, move || {
            let ctr = Arc::clone(&ctr);
            let rx = Arc::clone(&rx);
            job(move |_| async move {
                let mut rx = rx.lock().await;
                let tx: oneshot::Sender<i32> = rx.recv().await.unwrap();

                if ctr.load(Ordering::SeqCst) {
                    tx.send(3).unwrap();
                } else {
                    ctr.store(true, Ordering::SeqCst);
                }
            })
        });

        scope(group, async move {
            loop {
                let (ttx, trx) = oneshot::channel();
                tx.send(ttx).await.unwrap();

                if let Ok(res) = trx.await {
                    assert_eq!(res, 3);
                    break;
                }
            }
        })
        .await;
    })
}

#[test]
fn test_pos_mbox() {
    run(async {
        let (tx, rx) = Stage::new().mailbox(4);

        push(&tx.0, 1).await;
        assert_eq!(pop(&rx).await, 1);

        push(&tx.0, 2).await;
        push(&tx.0, 3).await;
        push(&tx.0, 4).await;

        assert_eq!(pop(&rx).await, 2);
        assert_eq!(pop(&rx).await, 3);
        assert_eq!(pop(&rx).await, 4);
    })
}

#[test]
fn mailbox_feeds_a_group() {
    run(async {
        let stage = Stage::new();
        let (tx, rx) = stage.mailbox(512);
        let counter = Arc::new(AtomicUsize::new(0));
        let barrier = Arc::new(Barrier::new(2));
        let (counter2, barrier2) = (Arc::clone(&counter), Arc::clone(&barrier));
        let group = stage.group(tokio_stage::group(), move || {
            let (counter, barrier) = (Arc::clone(&counter2), Arc::clone(&barrier2));
            let rx: MailboxReceiver<()> = rx.clone();
            job(move |_| async move {
                loop {
                    pop(&rx).await;
                    if counter.fetch_add(1, Ordering::SeqCst) == 499 {
                        barrier.wait().await;
                        break;
                    }
                }
            })
        });
        for _ in 0..500 {
            push(&tx.0, ()).await;
        }
        barrier.wait().await;
        assert_eq!(counter.load(Ordering::SeqCst), 500);
        let timeout = Duration::from_secs(1);
        assert!(group.inner.sv_tx.send(group.exit(timeout)).await.is_ok());
    })
}

#[test]
fn dropped_receives_give_their_messages_back() {
    run(async {
        let (tx, rx) = Stage::new().mailbox(8);
        for n in 1..=6 {
            push(&tx.0, n).await;
        }
        assert_eq!(pop(&rx).await, 1);
        // Each of these is handed a message that it never reads.
        let mut dropped = Vec::new();
        for _ in 0..3 {
            let mut receive = Box::pin(pop(&rx));
            assert!(poll_once(&mut receive).await.is_none());
            dropped.push(receive);
        }
        millis(5).await;
        // The order in which they are dropped does not matter.
        dropped.remove(1);
        dropped.remove(0);
        drop(dropped);
        for n in 2..=6 {
            assert_eq!(pop(&rx).await, n);
        }
    })
}

#[test]
fn message_given_back_goes_to_a_waiting_reader() {
    run(async {
        let (tx, rx) = Stage::new().mailbox(8);
        let mut first = Box::pin(pop(&rx));
        assert!(poll_once(&mut first).await.is_none());
        let rx2 = rx.clone();
        let second = tokio::spawn(async move { pop(&rx2).await });
        millis(5).await;
        push(&tx.0, 9).await;
        millis(5).await;
        assert!(!second.is_finished());
        drop(first);
        assert_eq!(second.await.unwrap(), 9);
    })
}

#[test]
fn mailbox_survives_a_panicking_reader() {
    run(async {
        let stage = Stage::new();
        let (tx, rx) = stage.mailbox(1);
        let tries = Arc::new(AtomicUsize::new(0));
        let group = stage.group(tokio_stage::group(), move || {
            let tries = Arc::clone(&tries);
            let rx: MailboxReceiver<(i32, i32, oneshot::Sender<i32>)> = rx.clone();
            job(move |_| async move {
                loop {
                    let (n, m, reply) = pop(&rx).await;
                    if tries.fetch_add(1, Ordering::SeqCst) == 0 {
                        panic!("the first request is lost on purpose");
                    }
                    let _ = reply.send(n + m);
                }
            })
        });
        let mut attempts = 0;
        let sum = scope(group, async {
            loop {
                attempts += 1;
                let (ttx, trx) = oneshot::channel();
                push(&tx.0, (1, 2, ttx)).await;
                if let Ok(res) = trx.await {
                    return res;
                }
            }
        })
        .await;
        assert_eq!(sum, 3);
        assert_eq!(attempts, 2);
    })
}

#[test]
fn scope_runs_the_shutdown_function_of_a_task() {
    run(async {
        let (tx, mut rx) = mpsc::channel(1);
        let group = Stage::new().group(tokio_stage::group(), move || {
            let (tx, tx_2) = (tx.clone(), tx.clone());
            job(move |notify| async move {
                let worker = async move {
                    tx.send(1).await.unwrap();
                    std::future::pending::<()>().await;
                };
                let _ = until_signalled(notify, worker, move || async move {
                    tx_2.send(2).await.unwrap();
                })
                .await;
            })
        });
        let t = scope(group, async { rx.recv().await }).await;
        assert_eq!(t, Some(1));
        assert_eq!(rx.recv().await, Some(2));
        assert_eq!(rx.recv().await, None);
    })
}

#[test]
fn spawn_restarts_a_task_that_panics() {
    run(async {
        let stage = Stage::new();
        let starts = Arc::new(AtomicUsize::new(0));
        let starts2 = Arc::clone(&starts);
        let stage2 = stage.clone();
        let pid = tokio_stage::spawn(
            move || {
                let starts = Arc::clone(&starts2);
                job(move |_| async move {
                    if starts.fetch_add(1, Ordering::SeqCst) < 2 {
                        panic!("not yet");
                    }
                })
            },
            stage.starter(),
            move |sv, kind| stage2.spawn(group_loop(sv), kind),
        );
        millis(50).await;
        assert_eq!(starts.load(Ordering::SeqCst), 3);
        assert_eq!(TaskKind::from(pid.task_id), TaskKind::Super);
        pid.abort();
        assert!(pid.await.unwrap_err().is_cancelled());
    })
}

fn counting(starts: &Arc<AtomicUsize>) -> impl Fn() -> Job + Send + 'static {
    let starts = Arc::clone(starts);
    move || {
        let starts = Arc::clone(&starts);
        job(move |_| async move {
            starts.fetch_add(1, Ordering::SeqCst);
            std::future::pending().await
        })
    }
}

#[test]
fn group_publishes_its_statistics() {
    run(async {
        let starts = Arc::new(AtomicUsize::new(0));
        let starts2 = Arc::clone(&starts);
        let group = Stage::new().group(tokio_stage::group().spawn_at_least(2), move || {
            let starts = Arc::clone(&starts2);
            job(move |_| async move {
                if starts.fetch_add(1, Ordering::SeqCst) < 3 {
                    panic!("not yet");
                }
                std::future::pending().await
            })
        });
        millis(20).await;
        {
            let stat = group.stat_borrow();
            assert_eq!(stat.state, SupvervisorState::Active);
            assert_eq!((stat.running, stat.failed, stat.iterations), (2, 3, 3));
        }
        group.inner.sv_tx.send(group.upscale(5)).await.unwrap();
        millis(20).await;
        let stat = *group.stat_borrow();
        assert_eq!((stat.running, stat.failed, stat.iterations), (5, 3, 4));
    })
}

#[test]
fn siblings_are_resumed_only_after_all_have_stopped() {
    run(async {
        let stage = Stage::new();
        let sup = stage.supervisor(SupervisorStrategy::OneForAll);
        let log = Arc::new(Mutex::new(Vec::new()));
        let mut last = None;
        for (name, delay) in [("quick", 5), ("slow", 60), ("dead", 5)] {
            let log = Arc::clone(&log);
            let group = stage.group(tokio_stage::group(), move || {
                let log = Arc::clone(&log);
                job(move |notify| async move {
                    log.lock().unwrap().push(format!("start {name}"));
                    notify.notified().await;
                    millis(delay).await;
                    log.lock().unwrap().push(format!("stop {name}"));
                })
            });
            last = Some((group.inner.sv_tx.clone(), group.exit(Duration::from_secs(1))));
            add_child(&sup, group).await;
        }
        millis(10).await;
        log.lock().unwrap().clear();
        let (sv_tx, request) = last.unwrap();
        sv_tx.send(request).await.unwrap();
        millis(300).await;
        assert_eq!(
            *log.lock().unwrap(),
            vec!["stop dead", "stop quick", "stop slow", "start quick", "start slow"]
        );
    })
}

#[test]
fn group_publishes_and_undoes_its_suspension() {
    run(async {
        let starts = Arc::new(AtomicUsize::new(0));
        let builder = tokio_stage::group()
            .spawn_at_least(3)
            .shutdown_timeout(Duration::from_millis(5));
        let mut group = Stage::new().group(builder, counting(&starts));
        millis(10).await;
        assert_eq!(starts.load(Ordering::SeqCst), 3);
        assert_eq!(group.stat_borrow().state, SupvervisorState::Active);

        assert_eq!(group.suspend(), Ok(()));
        assert_eq!(until_suspended(group.to_group_ref()).await, group.task_id());
        assert_eq!(group.stat_borrow_and_update().state, SupvervisorState::Suspend);
        assert_eq!(until_stopped(group.to_group_ref()).await, group.task_id());
        assert_eq!(group.stat_borrow().running, 0);
        millis(20).await;
        assert_eq!(starts.load(Ordering::SeqCst), 3);

        assert_eq!(group.resume(), Ok(()));
        millis(20).await;
        assert_eq!(group.stat_borrow().state, SupvervisorState::Active);
        assert_eq!(group.stat_borrow().running, 3);
        assert_eq!(starts.load(Ordering::SeqCst), 6);
    })
}

#[test]
fn group_ref_sees_the_group_end() {
    run(async {
        let starts = Arc::new(AtomicUsize::new(0));
        let group = Stage::new().group(tokio_stage::group(), counting(&starts));
        let group_ref = group.to_group_ref();
        let timeout = Duration::from_millis(5);
        assert!(group.inner.sv_tx.send(group.exit(timeout)).await.is_ok());
        until_exited(&group_ref).await;
        assert_eq!(until_suspended(group_ref.clone()).await, group.task_id());
        assert_eq!(until_stopped(group_ref.clone()).await, group.task_id());
        assert_eq!(until_suspended_again(group_ref).await, group.task_id());
        assert_eq!(group.suspend(), Err(()));
        assert_eq!(group.resume(), Err(()));
    })
}

#[test]
fn abort_unchecked_leaves_the_tasks_alone() {
    run(async {
        let (tx, mut rx) = mpsc::channel(1);
        let group = Stage::new().group(tokio_stage::group(), move || {
            let tx = tx.clone();
            job(move |_| async move {
                millis(20).await;
                tx.send(5).await.unwrap();
            })
        });
        millis(5).await;
        let group_ref = group.to_group_ref();
        group.abort_unchecked();
        until_exited(&group_ref).await;
        assert_eq!(rx.recv().await, Some(5));
    })
}

#[test]
fn test_supervisor_spawn_example_task() {
    run(async {
        let stage = Stage::new();
        let notify = Arc::new(Notify::new());
        let notify2 = Arc::clone(&notify);

        let sup = stage.supervisor(SupervisorStrategy::OneForOne);

        let notified = notify.notified();

        let group = stage.group(tokio_stage::group(), move || {
            let notify = Arc::clone(&notify2);
            job(move |_| async move {
                notify.notify_waiters();
                std::future::pending().await
            })
        });

        let child_ref = add_child(&sup, group).await;

        notified.await;

        terminate_child(&sup, child_ref).await.unwrap();
    })
}

#[test]
fn test_supervisor_spawn_nested_supervisor() {
    run(async {
        let stage = Stage::new();
        let notify = Arc::new(Notify::new());
        let notify2 = Arc::clone(&notify);

        let sup2 = stage.supervisor(SupervisorStrategy::OneForOne);

        let sup = stage.supervisor(SupervisorStrategy::OneForOne);

        let notified = notify.notified();

        let group = stage.group(tokio_stage::group(), move || {
            let notify = Arc::clone(&notify2);
            job(move |_| async move {
                notify.notify_waiters();
                std::future::pending().await
            })
        });
        let _ = add_child(&sup, group).await;

        let child_ref = add_child(&sup2, sup).await;

        notified.await;

        terminate_child(&sup2, child_ref).await.unwrap();
    })
}

#[test]
fn terminated_child_ends_and_can_be_terminated_again() {
    run(async {
        let stage = Stage::new();
        let starts = Arc::new(AtomicUsize::new(0));
        let sup = stage.supervisor(SupervisorStrategy::OneForAll);
        let group = stage.group(tokio_stage::group(), counting(&starts));
        let group_ref = group.to_group_ref();
        let child_ref = add_child(&sup, group).await;
        assert_eq!(child_ref, ChildRef(group_ref.task_id()));
        assert_eq!(terminate_child(&sup, ChildRef(child_ref.0 + 1)).await, Err(()));
        assert_eq!(terminate_child(&sup, child_ref).await, Ok(()));
        until_exited(&group_ref).await;
        assert_eq!(terminate_child(&sup, child_ref).await, Ok(()));
    })
}

async fn starts_after_the_middle_child_ended(strategy: SupervisorStrategy) -> Vec<usize> {
    let stage = Stage::new();
    let sup = stage.supervisor(strategy);
    let counters: Vec<Arc<AtomicUsize>> =
        (0..4).map(|_| Arc::new(AtomicUsize::new(0))).collect();
    let mut handles = Vec::new();
    for counter in &counters {
        let builder = tokio_stage::group().shutdown_timeout(Duration::from_millis(5));
        let group = stage.group(builder, counting(counter));
        let request = group.exit(Duration::from_millis(5));
        handles.push((group.inner.sv_tx.clone(), request));
        add_child(&sup, group).await;
    }
    millis(10).await;
    let (sv_tx, request) = handles.remove(1);
    sv_tx.send(request).await.unwrap();
    millis(100).await;
    counters.iter().map(|counter| counter.load(Ordering::SeqCst)).collect()
}

#[test]
fn one_for_one_leaves_the_other_children_running() {
    let strategy = SupervisorStrategy::OneForOne;
    assert_eq!(run(starts_after_the_middle_child_ended(strategy)), vec![1, 1, 1, 1]);
}

#[test]
fn one_for_all_restarts_the_other_children_once() {
    let strategy = SupervisorStrategy::OneForAll;
    assert_eq!(run(starts_after_the_middle_child_ended(strategy)), vec![2, 1, 2, 2]);
}

#[test]
fn rest_for_all_restarts_the_later_children_once() {
    let strategy = SupervisorStrategy::RestForAll;
    assert_eq!(run(starts_after_the_middle_child_ended(strategy)), vec![1, 1, 2, 2]);
}

#[test]
fn supervisor_takes_its_whole_tree_down() {
    run(async {
        let stage = Stage::new();
        let starts = Arc::new(AtomicUsize::new(0));
        let sv1 = stage.supervisor(SupervisorStrategy::OneForOne);
        let child1 = stage.group(tokio_stage::group(), counting(&starts));
        let child2 = stage.group(tokio_stage::group(), counting(&starts));
        let refs = [child1.to_group_ref(), child2.to_group_ref(), sv1.sv_group.to_group_ref()];
        add_child(&sv1, child1).await;
        let sv2 = stage.supervisor(SupervisorStrategy::OneForAll);
        add_child(&sv2, child2).await;
        add_child(&sv1, sv2).await;
        millis(10).await;
        assert_eq!(starts.load(Ordering::SeqCst), 2);
        let (group, request) = sv1.exit(Duration::from_millis(20));
        group.inner.sv_tx.send(request).await.unwrap();
        for group_ref in &refs {
            until_exited(group_ref).await;
        }
    })
}

#[test]
fn runtime_runs_its_futures_until_the_end() {
    run(async {
        let stage = Stage::new();
        let steps = Arc::new(AtomicUsize::new(0));
        let runtime: Runtime<Request, BoxFuture<'static, ()>> = stage.runtime();
        let (first, second) = (Arc::clone(&steps), Arc::clone(&steps));
        let runtime = runtime
            .spawn_with(
                async move {
                    first.fetch_add(1, Ordering::SeqCst);
                }
                .boxed(),
            )
            .spawn_with(
                async move {
                    millis(200).await;
                    second.fetch_add(10, Ordering::SeqCst);
                }
                .boxed(),
            );
        let stage2 = stage.clone();
        let guard = runtime.block_on(move |fut, kind| stage2.spawn(fut, kind));
        assert_eq!(guard.inner.tasks.len(), 2);
        millis(10).await;
        let (root, timeout) = guard.exit();
        assert_eq!(timeout, Duration::from_secs(1));
        let (group, request) = root.exit(timeout);
        assert!(group.inner.sv_tx.send(request).await.is_ok());
        until_exited(&group.to_group_ref()).await;
        millis(300).await;
        assert_eq!(steps.load(Ordering::SeqCst), 1);
    })
}
