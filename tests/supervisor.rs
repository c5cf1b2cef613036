use clog::descriptor::ServerInfo;
use clog::supervisor::{
    classify, plan_start, plan_stop, poll_step, DaemonState, PollStep, StartPlan, StopPlan,
    POLL_ATTEMPTS, POLL_INTERVAL_MS,
};

#[test]
fn second_start_reports_already_running_with_same_pid() {
    let first = ServerInfo { pid: 5150, port: 41000 };
    // The first start found nothing and launched.
    assert_eq!(plan_start(&classify(None, false)), StartPlan::Launch { remove_stale: false });
    // The daemon published `first`; the second start sees it alive.
    let state = classify(Some(first), true);
    assert_eq!(state, DaemonState::Live(first));
    match plan_start(&state) {
        StartPlan::AlreadyRunning(info) => assert_eq!(info.pid, 5150),
        other => panic!("unexpected plan {:?}", other),
    }
}

#[test]
fn crashed_daemon_is_stale_and_restartable() {
    let old = ServerInfo { pid: 777, port: 40000 };
    let state = classify(Some(old), false);
    assert_eq!(state, DaemonState::Stale(old));
    assert_eq!(plan_start(&state), StartPlan::Launch { remove_stale: true });
    let fresh = ServerInfo { pid: 778, port: 40001 };
    assert_eq!(poll_step(0, Some(fresh)), PollStep::Started(fresh));
}

#[test]
fn absent_descriptor_launches_without_removal() {
    assert_eq!(classify(None, true), DaemonState::Absent);
    assert_eq!(plan_start(&DaemonState::Absent), StartPlan::Launch { remove_stale: false });
}

#[test]
fn stop_plans() {
    let info = ServerInfo { pid: 31, port: 3100 };
    assert_eq!(plan_stop(&classify(None, false)), StopPlan::NotRunning);
    assert_eq!(plan_stop(&classify(Some(info), true)), StopPlan::Terminate(info));
    assert_eq!(plan_stop(&classify(Some(info), false)), StopPlan::DiscardStale(info));
}

#[test]
fn polling_gives_up_after_fifty_reads() {
    assert_eq!(POLL_ATTEMPTS, 50);
    assert_eq!(POLL_INTERVAL_MS, 100);
    let mut attempt = 0u32;
    let mut reads = 0u32;
    loop {
        reads += 1;
        match poll_step(attempt, None) {
            PollStep::Retry(next) => {
                assert_eq!(next, attempt + 1);
                attempt = next;
            }
            PollStep::TimedOut => break,
            PollStep::Started(_) => panic!("nothing was published"),
        }
    }
    assert_eq!(reads, 50);
    assert_eq!(poll_step(49, None), PollStep::TimedOut);
}
