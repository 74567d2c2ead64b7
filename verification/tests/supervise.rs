use honeypot::supervise::{
    collect_compaction, collect_stop, collect_task_result, collect_worker, exit_error,
    notify_trigger, readiness, readiness_trigger, signal_trigger, ReadinessError, StopTrigger,
    TaskEnd,
};

#[test]
fn readiness_accepts_all_required_listeners() {
    readiness(true, Some(true)).unwrap();
    readiness(true, None).unwrap();
    assert!(readiness_trigger(Ok(())).is_none());
}

#[test]
fn readiness_reports_the_listener_that_stopped_early() {
    let error = readiness(false, None).unwrap_err();
    assert!(error.to_string().contains("honeypot listener"));

    let error = readiness(true, Some(false)).unwrap_err();
    assert!(error.to_string().contains("admin API"));
    assert_eq!(readiness(false, Some(false)), Err(ReadinessError::Honeypot));
    assert_eq!(
        readiness_trigger(Err(ReadinessError::Admin)),
        Some(StopTrigger::StartupFailure {
            error: "service readiness failed: admin API stopped before reporting readiness"
                .to_string()
        })
    );
}

fn failed(error: &str) -> TaskEnd {
    TaskEnd::Failed { error: error.to_string() }
}

#[test]
fn ends_of_tasks_become_failures() {
    let mut failures = Vec::new();
    collect_task_result("a", &TaskEnd::Completed, false, &mut failures);
    assert!(failures.is_empty());
    collect_task_result("a", &TaskEnd::Completed, true, &mut failures);
    collect_task_result("b", &failed("e"), true, &mut failures);
    collect_task_result("c", &TaskEnd::Crashed { error: "f".to_string() }, false, &mut failures);
    assert_eq!(
        failures,
        vec!["a stopped unexpectedly", "b failed: e", "c task failed: f"]
    );
}

#[test]
fn a_stop_is_reported_with_all_that_went_wrong() {
    let ended = Some(TaskEnd::Completed);
    assert!(collect_stop(&StopTrigger::Signal, &ended, &None).is_empty());
    assert_eq!(
        collect_stop(&StopTrigger::Signal, &Some(failed("x")), &Some(failed("y"))),
        vec!["honeypot listener failed: x", "admin API failed: y"]
    );
    let trigger = StopTrigger::Admin { end: TaskEnd::Completed };
    assert_eq!(
        collect_stop(&trigger, &Some(failed("x")), &None),
        vec!["admin API stopped unexpectedly", "honeypot listener failed: x"]
    );
    let trigger = StopTrigger::Honeypot { end: failed("bind") };
    let mut failures = collect_stop(&trigger, &None, &ended);
    assert_eq!(failures, vec!["honeypot listener failed: bind"]);
    collect_compaction(Some("disk full"), &mut failures);
    collect_compaction(None, &mut failures);
    collect_worker("WebDAV worker", Some("panic"), &mut failures);
    collect_worker("log cleanup worker", None, &mut failures);
    assert_eq!(
        exit_error(&failures).unwrap(),
        "honeypot listener failed: bind; failed to compact banned IP state: disk full; WebDAV worker task failed: panic"
    );
    assert_eq!(exit_error(&Vec::new()), None);
}

#[test]
fn signals_and_notifications_trigger_a_stop() {
    assert_eq!(signal_trigger(Ok(())), StopTrigger::Signal);
    assert_eq!(
        signal_trigger(Err("no".to_string())),
        StopTrigger::StartupFailure {
            error: "failed to listen for shutdown signal: no".to_string()
        }
    );
    let trigger = notify_trigger("socket");
    assert_eq!(
        collect_stop(&trigger, &None, &None),
        vec!["failed to notify service readiness: socket"]
    );
}
