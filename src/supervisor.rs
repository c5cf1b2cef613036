//! Decisions of the supervisor that starts, stops and reports on the
//! singleton ingestion daemon. The caller performs each decided action (read
//! the descriptor, probe a pid, spawn, signal, sleep) and hands back what it saw.
use vstd::prelude::*;
use crate::descriptor::ServerInfo;

verus! {

/// How many times `start` reads the descriptor while waiting for a new daemon.
pub const POLL_ATTEMPTS: u32 = 50;

/// Milliseconds slept before each of those reads.
pub const POLL_INTERVAL_MS: u64 = 100;

/// What the descriptor file says about the daemon, once its pid has been probed.
#[derive(Clone, Copy, Debug, PartialEq, Eq, Structural)]
pub enum DaemonState {
    /// No readable descriptor.
    Absent,
    /// The descriptor names a process that exists.
    Live(ServerInfo),
    /// The descriptor names a process that is gone.
    Stale(ServerInfo),
}

pub open spec fn daemon_state_of(found: Option<ServerInfo>, alive: bool) -> DaemonState {
    match found {
        None => DaemonState::Absent,
        Some(info) => if alive {
            DaemonState::Live(info)
        } else {
            DaemonState::Stale(info)
        },
    }
}

/// Combines what was read from the descriptor with the liveness of its pid
/// (`alive` is ignored when nothing was read).
pub fn classify(found: Option<ServerInfo>, alive: bool) -> (r: DaemonState)
    ensures
        r == daemon_state_of(found, alive),
{
    match found {
        None => DaemonState::Absent,
        Some(info) => if alive {
            DaemonState::Live(info)
        } else {
            DaemonState::Stale(info)
        },
    }
}

/// What `start` does after probing the descriptor.
#[derive(Clone, Copy, Debug, PartialEq, Eq, Structural)]
pub enum StartPlan {
    /// A live daemon exists: report it, spawn nothing, touch nothing.
    AlreadyRunning(ServerInfo),
    /// Remove the descriptor (when `remove_stale`, it names a dead process),
    /// create the log directories, remove the descriptor again, spawn a
    /// detached daemon and poll for its descriptor.
    Launch { remove_stale: bool },
}

pub open spec fn start_plan_of(state: DaemonState) -> StartPlan {
    match state {
        DaemonState::Live(info) => StartPlan::AlreadyRunning(info),
        DaemonState::Stale(_) => StartPlan::Launch { remove_stale: true },
        DaemonState::Absent => StartPlan::Launch { remove_stale: false },
    }
}

pub fn plan_start(state: &DaemonState) -> (r: StartPlan)
    ensures
        r == start_plan_of(*state),
{
    match state {
        DaemonState::Live(info) => StartPlan::AlreadyRunning(*info),
        DaemonState::Stale(_) => StartPlan::Launch { remove_stale: true },
        DaemonState::Absent => StartPlan::Launch { remove_stale: false },
    }
}

/// The next move of `start` while it waits for the spawned daemon.
#[derive(Clone, Copy, Debug, PartialEq, Eq, Structural)]
pub enum PollStep {
    /// The daemon has published its descriptor.
    Started(ServerInfo),
    /// Sleep again, then read the descriptor for the given attempt.
    Retry(u32),
    /// No descriptor appeared in time; the child is left running.
    TimedOut,
}

/// Decides after the read of attempt `attempt` (counting from 0), which
/// followed a sleep of `POLL_INTERVAL_MS`.
pub fn poll_step(attempt: u32, found: Option<ServerInfo>) -> (r: PollStep)
    requires
        attempt < POLL_ATTEMPTS,
    ensures
        match found {
            Some(info) => r == PollStep::Started(info),
            None => if attempt + 1 < POLL_ATTEMPTS {
                r == PollStep::Retry((attempt + 1) as u32)
            } else {
                r == PollStep::TimedOut
            },
        },
{
    match found {
        Some(info) => PollStep::Started(info),
        None => if attempt + 1 < POLL_ATTEMPTS {
            PollStep::Retry(attempt + 1)
        } else {
            PollStep::TimedOut
        },
    }
}

/// What `stop` does after probing the descriptor. In the last two cases the
/// descriptor is removed afterwards.
#[derive(Clone, Copy, Debug, PartialEq, Eq, Structural)]
pub enum StopPlan {
    /// No descriptor: report that nothing runs.
    NotRunning,
    /// Send the termination signal to the live daemon.
    Terminate(ServerInfo),
    /// The descriptor names a dead process: report it as stale.
    DiscardStale(ServerInfo),
}

pub open spec fn stop_plan_of(state: DaemonState) -> StopPlan {
    match state {
        DaemonState::Absent => StopPlan::NotRunning,
        DaemonState::Live(info) => StopPlan::Terminate(info),
        DaemonState::Stale(info) => StopPlan::DiscardStale(info),
    }
}

pub fn plan_stop(state: &DaemonState) -> (r: StopPlan)
    ensures
        r == stop_plan_of(*state),
{
    match state {
        DaemonState::Absent => StopPlan::NotRunning,
        DaemonState::Live(info) => StopPlan::Terminate(*info),
        DaemonState::Stale(info) => StopPlan::DiscardStale(*info),
    }
}

/// The host as the supervisor sees it: the descriptor file, if any, and the
/// pids of the processes that exist.
pub open spec fn probe(descriptor: Option<ServerInfo>, live: Set<u32>) -> DaemonState {
    daemon_state_of(
        descriptor,
        match descriptor {
            Some(info) => live.contains(info.pid),
            None => false,
        },
    )
}

/// The host after `start`, where a spawned daemon gets pid `child`, binds
/// `port` and publishes its descriptor.
pub open spec fn after_start(
    descriptor: Option<ServerInfo>,
    live: Set<u32>,
    child: u32,
    port: u16,
) -> (Option<ServerInfo>, Set<u32>) {
    match start_plan_of(probe(descriptor, live)) {
        StartPlan::AlreadyRunning(_) => (descriptor, live),
        StartPlan::Launch { .. } => (Some(ServerInfo { pid: child, port }), live.insert(child)),
    }
}

/// The host after a sequence of `start` calls; the i-th one would spawn
/// `launches[i].0` binding `launches[i].1`.
pub open spec fn after_starts(
    descriptor: Option<ServerInfo>,
    live: Set<u32>,
    launches: Seq<(u32, u16)>,
) -> (Option<ServerInfo>, Set<u32>)
    decreases launches.len(),
{
    if launches.len() == 0 {
        (descriptor, live)
    } else {
        let prev = after_starts(descriptor, live, launches.drop_last());
        after_start(prev.0, prev.1, launches.last().0, launches.last().1)
    }
}

/// The host after `stop`: a live daemon is terminated, and the descriptor is gone.
pub open spec fn after_stop(descriptor: Option<ServerInfo>, live: Set<u32>) -> (
    Option<ServerInfo>,
    Set<u32>,
) {
    match stop_plan_of(probe(descriptor, live)) {
        StopPlan::NotRunning => (descriptor, live),
        StopPlan::Terminate(info) => (None, live.remove(info.pid)),
        StopPlan::DiscardStale(_) => (None, live),
    }
}

/// Starting any number of times when no daemon is live spawns exactly one
/// daemon, the first, and leaves exactly its descriptor behind.
pub proof fn lemma_starts_spawn_once(
    descriptor: Option<ServerInfo>,
    live: Set<u32>,
    launches: Seq<(u32, u16)>,
)
    requires
        !(probe(descriptor, live) is Live),
        launches.len() >= 1,
    ensures
        after_starts(descriptor, live, launches) == (
            Some(ServerInfo { pid: launches[0].0, port: launches[0].1 }),
            live.insert(launches[0].0),
        ),
    decreases launches.len(),
{
    if launches.len() > 1 {
        assert(launches.drop_last()[0] == launches[0]);
        lemma_starts_spawn_once(descriptor, live, launches.drop_last());
        let prev = after_starts(descriptor, live, launches.drop_last());
        assert(prev.1.contains(launches[0].0));
        assert(probe(prev.0, prev.1) is Live);
    } else {
        assert(launches.drop_last().len() == 0);
        assert(after_starts(descriptor, live, launches.drop_last()) == (descriptor, live));
        assert(launches.last() == launches[0]);
    }
}

/// `start` with a live daemon spawns nothing and leaves its descriptor as it is.
pub proof fn lemma_start_keeps_live_daemon(
    descriptor: Option<ServerInfo>,
    live: Set<u32>,
    child: u32,
    port: u16,
)
    requires
        probe(descriptor, live) is Live,
    ensures
        start_plan_of(probe(descriptor, live)) == StartPlan::AlreadyRunning(descriptor->0),
        after_start(descriptor, live, child, port) == (descriptor, live),
{
}

/// `start` with a stale descriptor removes it and starts a new daemon, whose
/// descriptor then names a live process.
pub proof fn lemma_start_replaces_stale(
    descriptor: Option<ServerInfo>,
    live: Set<u32>,
    child: u32,
    port: u16,
)
    requires
        probe(descriptor, live) is Stale,
    ensures
        start_plan_of(probe(descriptor, live)) == (StartPlan::Launch { remove_stale: true }),
        after_start(descriptor, live, child, port).0 == Some(ServerInfo { pid: child, port }),
        probe(after_start(descriptor, live, child, port).0, after_start(descriptor, live, child, port).1)
            == DaemonState::Live(ServerInfo { pid: child, port }),
{
}

/// After `stop` there is no descriptor, whether or not its process was alive.
pub proof fn lemma_stop_clears_descriptor(descriptor: Option<ServerInfo>, live: Set<u32>)
    ensures
        after_stop(descriptor, live).0 is None,
{
}

} // verus!
