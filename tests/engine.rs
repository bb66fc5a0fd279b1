use netspeed::engine::{
    probe_timeout_secs, rate_milli_mbps, Action, FailureCause, MeasureError, MeasurementRun, Phase,
    Probe, ProbeOutcome, StoreOp, UPLOAD_PAYLOAD_BYTES,
};

fn ok(bytes: u64, micros: u64) -> ProbeOutcome {
    ProbeOutcome::Responded { status: 200, bytes, elapsed_micros: micros }
}

#[test]
fn rate_formula() {
    assert_eq!(rate_milli_mbps(1048576, 1_000_000), 8000);
    assert_eq!(rate_milli_mbps(10 * 1048576, 2_000_000), 40000);
    assert_eq!(rate_milli_mbps(1000, 3), 2543131);
    assert_eq!(rate_milli_mbps(12345, 0), 0);
    assert_eq!(rate_milli_mbps(0, 5), 0);
    assert_eq!(rate_milli_mbps(u64::MAX, 1), u64::MAX);
}

#[test]
fn timeouts_per_probe() {
    assert_eq!(probe_timeout_secs(Probe::Download), 30);
    assert_eq!(probe_timeout_secs(Probe::Upload), 10);
    assert_eq!(probe_timeout_secs(Probe::Latency), 5);
    assert_eq!(UPLOAD_PAYLOAD_BYTES, 1048576);
}

#[test]
fn full_run_builds_and_saves_record() {
    let mut run = MeasurementRun::new("Public Test Servers".to_string());
    assert_eq!(run.pending_probe(), Some(Probe::Download));
    let a = run.on_probe(ok(20 * 1048576, 4_000_000));
    assert!(matches!(a, Action::RunProbe(Probe::Upload)));
    assert_eq!(run.download_speed, 40000);
    let a = run.on_probe(ok(0, 500_000));
    assert!(matches!(a, Action::RunProbe(Probe::Latency)));
    assert_eq!(run.upload_speed, 16000);
    let a = run.on_probe(ok(10, 42_500));
    let rec = match a {
        Action::Append(r) => r,
        other => panic!("unexpected {:?}", other),
    };
    assert_eq!(rec.download_speed, 40000);
    assert_eq!(rec.upload_speed, 16000);
    assert_eq!(rec.ping, 42500);
    assert_eq!(rec.server, "Public Test Servers");
    assert_eq!(run.phase, Phase::Saving);
    let done = run.on_stored(Ok(()));
    match done {
        Action::Done(Ok(r)) => {
            assert_eq!(r.ping, 42500);
            assert_eq!(r.timestamp, rec.timestamp);
        }
        other => panic!("unexpected {:?}", other),
    }
    assert_eq!(run.phase, Phase::Finished);
}

#[test]
fn upload_timeout_ends_run_without_append() {
    let mut run = MeasurementRun::new("s".to_string());
    let _ = run.on_probe(ok(1048576, 1_000_000));
    let a = run.on_probe(ProbeOutcome::TimedOut);
    assert!(matches!(a, Action::Done(Err(MeasureError::ProbeTimeout(Probe::Upload)))));
    assert_eq!(run.phase, Phase::Finished);
    assert!(run.record.is_none());
    assert_eq!(run.pending_probe(), None);
}

#[test]
fn bad_status_is_probe_failure() {
    let mut run = MeasurementRun::new("s".to_string());
    let a = run.on_probe(ProbeOutcome::Responded { status: 503, bytes: 10, elapsed_micros: 10 });
    assert!(matches!(
        a,
        Action::Done(Err(MeasureError::ProbeFailure(Probe::Download, FailureCause::Status(503))))
    ));
}

#[test]
fn transport_error_is_probe_failure() {
    let mut run = MeasurementRun::new("s".to_string());
    let _ = run.on_probe(ok(1, 1));
    let _ = run.on_probe(ok(1, 1));
    let a = run.on_probe(ProbeOutcome::Failed { cause: "connection refused".to_string() });
    match a {
        Action::Done(Err(MeasureError::ProbeFailure(Probe::Latency, FailureCause::Transport(c)))) => {
            assert_eq!(c, "connection refused")
        }
        other => panic!("unexpected {:?}", other),
    }
}

#[test]
fn store_failure_fails_run() {
    let mut run = MeasurementRun::new("s".to_string());
    let _ = run.on_probe(ok(1, 1));
    let _ = run.on_probe(ok(1, 1));
    let _ = run.on_probe(ok(1, 1));
    let a = run.on_stored(Err("disk full".to_string()));
    match a {
        Action::Done(Err(MeasureError::StoreIo(StoreOp::Append, c))) => assert_eq!(c, "disk full"),
        other => panic!("unexpected {:?}", other),
    }
    assert_eq!(run.phase, Phase::Finished);
}
