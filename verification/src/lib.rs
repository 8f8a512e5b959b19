//! Supervised task groups, mailboxes and supervision trees for tokio.
//!
//! The crate holds the decisions: which task is restarted, which child is
//! suspended and in what order, where a message goes, how long a shutdown may
//! take. Awaiting, spawning and timing are left to the caller, who hands the
//! results back as plain values or supplies a function that does the work.
pub mod actor;
pub mod graceful_shutdown;
pub mod group;
pub mod group_laws;
pub mod mailbox;
pub mod mailbox_laws;
pub mod publisher;
pub mod runtime;
pub mod simple_supervisor;
pub mod starter;
pub mod stopper;
pub mod supervision_laws;
pub mod supervisor;
pub mod task;
pub mod task_handle;
pub mod trusted;
pub mod ward;

use crate::group::{GroupBuilder, GroupChannels, RestartPolicy, SupervisorConfig};
use crate::simple_supervisor::SimpleSupervisorImpl;
use crate::task::{Pid, TaskKind};
use std::time::Duration;
use vstd::prelude::*;

verus! {

/// How a group runs its tasks unless told otherwise: one task at least, started
/// again after a panic, with a second to stop in.
pub open spec fn default_config() -> SupervisorConfig {
    SupervisorConfig {
        restart_policy: RestartPolicy::OnPanic,
        interval_dur: trusted::duration_from_millis(10),
        spawn_at_least: 1,
        task_kind: TaskKind::Worker,
        automatic_shutdown: true,
        shutdown_timeout: trusted::duration_from_secs(1),
    }
}

/// Starts the configuration of a group.
pub fn group() -> (builder: GroupBuilder)
    ensures
        builder.0 == default_config(),
{
    GroupBuilder(
        SupervisorConfig {
            shutdown_timeout: Duration::from_secs(1),
            automatic_shutdown: true,
            spawn_at_least: 1,
            restart_policy: RestartPolicy::OnPanic,
            interval_dur: Duration::from_millis(10),
            task_kind: TaskKind::Worker,
        },
    )
}

/// Starts a group of one task, as `GroupBuilder::spawn` does, and keeps of it only
/// the task of its supervisor.
pub fn spawn<F, S, R>(make_fut: F, start: S, run: R) -> (pid: Pid<()>) where
    R: FnOnce(SimpleSupervisorImpl<F, S>, TaskKind) -> Pid<()>,

    requires
        forall|sv: SimpleSupervisorImpl<F, S>, chans: GroupChannels|
            #[trigger] chans.lead_to(sv, default_config(), make_fut, start) ==> call_requires(
                run,
                (sv, TaskKind::Super),
            ),
    ensures
        exists|sv: SimpleSupervisorImpl<F, S>, chans: GroupChannels|
            #[trigger] chans.lead_to(sv, default_config(), make_fut, start) && call_ensures(
                run,
                (sv, TaskKind::Super),
                pid,
            ),
{
    let group = group().spawn_at_least(1).spawn(make_fut, start, run);
    Pid::from(group.inner)
}

} // verus!
