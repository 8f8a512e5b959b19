//! Futures that are told to stop and may still do something about it.
use vstd::prelude::*;

verus! {

/// Something that happened to a future that runs until it is told to stop.
#[derive(Debug)]
pub enum ShutdownEvent<T> {
    /// It is about to run. There may be no signal that could tell it to stop.
    Started { signal_known: bool },
    /// The future finished by itself.
    Finished(T),
    /// The signal to stop came first.
    Signalled,
    /// What was to be done on that signal is done.
    HookFinished,
}

/// What comes next.
#[derive(Debug)]
pub enum ShutdownStep<T> {
    /// Wait for the future to finish.
    AwaitFuture,
    /// Wait for the future to finish or the signal to come.
    AwaitEither,
    /// Do what is to be done on the signal to stop.
    RunHook,
    /// Return.
    Return(Option<T>),
}

/// What comes next after an event.
pub open spec fn shutdown_step<T>(event: ShutdownEvent<T>) -> ShutdownStep<T> {
    match event {
        ShutdownEvent::Started { signal_known } => if signal_known {
            ShutdownStep::AwaitEither
        } else {
            ShutdownStep::AwaitFuture
        },
        ShutdownEvent::Finished(t) => ShutdownStep::Return(Some(t)),
        ShutdownEvent::Signalled => ShutdownStep::RunHook,
        ShutdownEvent::HookFinished => ShutdownStep::Return(None),
    }
}

/// Runs a future until it is told to stop, one event at a time: it ends with its
/// own result where it finishes by itself, and with nothing, after the shutdown
/// function, where it is told to stop.
pub fn graceful_shutdown<T>(event: ShutdownEvent<T>) -> (step: ShutdownStep<T>)
    ensures
        step == shutdown_step(event),
{
    match event {
        ShutdownEvent::Started { signal_known } => if signal_known {
            ShutdownStep::AwaitEither
        } else {
            ShutdownStep::AwaitFuture
        },
        ShutdownEvent::Finished(t) => ShutdownStep::Return(Some(t)),
        ShutdownEvent::Signalled => ShutdownStep::RunHook,
        ShutdownEvent::HookFinished => ShutdownStep::Return(None),
    }
}

/// The event is one that a step can lead to.
pub open spec fn follows<T>(step: ShutdownStep<T>, event: ShutdownEvent<T>) -> bool {
    match step {
        ShutdownStep::AwaitFuture => event is Finished,
        ShutdownStep::AwaitEither => event is Finished || event is Signalled,
        ShutdownStep::RunHook => event is HookFinished,
        ShutdownStep::Return(_) => false,
    }
}

/// The events of one future, from its start on, each of which the step before it
/// can lead to.
pub open spec fn shutdown_run<T>(events: Seq<ShutdownEvent<T>>) -> bool {
    &&& events.len() > 0
    &&& events[0] is Started
    &&& forall|i: int|
        0 <= i < events.len() - 1 ==> follows(
            #[trigger] shutdown_step(events[i]),
            events[i + 1],
        )
}

/// A future that has ended ended with a result just where the shutdown function did
/// not run, and the result is its own.
pub proof fn law_result_or_shutdown_function<T>(events: Seq<ShutdownEvent<T>>, end: Option<T>)
    requires
        shutdown_run(events),
        shutdown_step(events.last()) == ShutdownStep::Return(end),
    ensures
        end is Some <==> forall|i: int|
            0 <= i < events.len() ==> #[trigger] shutdown_step(events[i]) !is RunHook,
        end matches Some(t) ==> events.last() == ShutdownEvent::Finished(t),
{
    let n = events.len() as int;
    assert(n > 1);
    assert(follows(shutdown_step(events[n - 2]), events[n - 2 + 1]));
    if end is Some {
        if n > 2 {
            assert(follows(shutdown_step(events[n - 3]), events[n - 3 + 1]));
        }
        assert(n == 2);
    } else {
        assert(shutdown_step(events[n - 2]) is RunHook);
    }
}

/// A future that starts where a signal is known can be told to stop, and one that starts
/// where none is known cannot. Either can finish by itself.
pub proof fn law_future_hears_the_signal_it_knows<T>(signal_known: bool, t: T)
    ensures
        follows(
            shutdown_step(ShutdownEvent::<T>::Started { signal_known }),
            ShutdownEvent::<T>::Signalled,
        ) <==> signal_known,
        follows(
            shutdown_step(ShutdownEvent::<T>::Started { signal_known }),
            ShutdownEvent::Finished(t),
        ),
{
}

/// A future that is told to stop runs the shutdown function, once, and then ends with
/// nothing. It is not heard of again.
pub proof fn law_signal_leads_to_the_shutdown_function<T>(
    events: Seq<ShutdownEvent<T>>,
    i: int,
)
    requires
        shutdown_run(events),
        0 <= i < events.len(),
        events[i] is Signalled,
    ensures
        shutdown_step(events[i]) is RunHook,
        events.len() <= i + 2,
        events.len() == i + 2 ==> shutdown_step(events.last()) == ShutdownStep::<T>::Return(None),
{
    if i + 1 < events.len() {
        assert(follows(shutdown_step(events[i]), events[i + 1]));
    }
    if i + 2 < events.len() {
        assert(follows(shutdown_step(events[i + 1]), events[i + 1 + 1]));
    }
}

} // verus!
