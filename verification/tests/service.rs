use shard_telemetry::bench_runs::{
    cache_config, cache_payload, check_reads, control_iterations, QueryStability,
};
use shard_telemetry::embedded::TimeSpan;
use shard_telemetry::load::{LineStep, WorkerProgress};
use shard_telemetry::service::{
    plan_shutdown, retention_complaint, retention_of, shutdown_complaint, ShutdownPlan,
    ShutdownTrigger, TaskOutcome,
};

#[test]
fn repeated_queries_must_agree() {
    let mut stability = QueryStability::new();
    assert!(stability.observe(3, 40).is_ok());
    assert!(stability.observe(3, 40).is_ok());
    assert_eq!(
        stability.observe(3, 41).unwrap_err(),
        "query results changed between iterations"
    );
    assert!(stability.observe(2, 40).is_err());
}

#[test]
fn cache_reads_are_checked_against_the_object() {
    let payload = cache_payload(600);
    assert_eq!(payload[..4], [17, 148, 23, 154]);
    assert_eq!(payload[256], 17);
    let parts = vec![payload[..10].to_vec(), payload[10..20].to_vec()];
    assert!(check_reads(&parts, &vec![payload[..20].to_vec()], &payload, 20).is_ok());
    assert_eq!(
        check_reads(&parts, &vec![payload[..19].to_vec()], &payload, 20).unwrap_err(),
        "batched and independent range reads disagree"
    );
    assert!(check_reads(&parts, &parts, &payload, 19).is_err());
    assert_eq!(cache_config(100).max_bytes, 328);
    assert_eq!(control_iterations(0), 1);
    assert_eq!(control_iterations(7), 700);
    assert_eq!(control_iterations(usize::MAX), usize::MAX);
}

#[test]
fn signals_drain_and_switches_announce() {
    assert_eq!(plan_shutdown(ShutdownTrigger::Signal), ShutdownPlan::DrainFirst);
    for (held, requested, plan) in [
        (true, false, ShutdownPlan::Stay),
        (true, true, ShutdownPlan::Announce),
        (false, false, ShutdownPlan::Announce),
    ] {
        assert_eq!(plan_shutdown(ShutdownTrigger::Switch { held, requested }), plan);
    }
    assert_eq!(shutdown_complaint(&TaskOutcome::Done), None);
    assert_eq!(
        shutdown_complaint(&TaskOutcome::Failed("disk".to_owned())).as_deref(),
        Some("shutdown flush failed: disk")
    );
    assert_eq!(
        retention_complaint(&TaskOutcome::Lost("panic".to_owned())).as_deref(),
        Some("retention compaction task failed: panic")
    );
    assert_eq!(retention_of(0), None);
    assert_eq!(retention_of(3), Some(TimeSpan::from_secs(3)));
}

#[test]
fn workers_stop_at_the_end_of_their_span() {
    let mut progress = WorkerProgress::new((10, 30), 5);
    assert_eq!(progress.position, 15);
    assert!(progress.wants_more());
    assert_eq!(progress.take_line(b"0123456789\n"), LineStep::Read);
    progress.accept();
    assert_eq!(progress.take_line(b"01"), LineStep::Read);
    progress.reject();
    assert_eq!(progress.take_line(b"0123"), LineStep::Stop);
    assert!(!progress.wants_more());
    assert_eq!(progress.take_line(b""), LineStep::Stop);
    progress.send(99);
    assert_eq!(
        (progress.source_bytes, progress.records, progress.malformed_records),
        (17, 1, 1)
    );
    assert_eq!(progress.pushed_bytes, 99);
}
