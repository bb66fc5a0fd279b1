//! One measurement run: the download, upload and latency probes strictly in
//! turn, then the record handed to the log. The run only decides; whoever
//! drives it performs each probe and each append and reports back.

use vstd::prelude::*;
use crate::clock::now_timestamp;
use crate::record::{has_no_break, RecordModel, SpeedTestResult};

verus! {

/// Bytes sent by the upload probe: one mebibyte of zeros.
pub const UPLOAD_PAYLOAD_BYTES: u64 = 1048576;

/// The three probes of a run, in the order they run.
#[derive(Clone, Copy, PartialEq, Eq, Structural, Debug)]
pub enum Probe {
    Download,
    Upload,
    Latency,
}

/// The longest a probe may take, in seconds.
pub fn probe_timeout_secs(p: Probe) -> (r: u64)
    ensures
        r == match p {
            Probe::Download => 30u64,
            Probe::Upload => 10u64,
            Probe::Latency => 5u64,
        },
{
    match p {
        Probe::Download => 30,
        Probe::Upload => 10,
        Probe::Latency => 5,
    }
}

/// How a probe ended.
#[derive(Debug)]
pub enum ProbeOutcome {
    /// The endpoint answered with `status`; `bytes` is the size of what came
    /// back (the length the response declares, else the bytes read), and
    /// `elapsed_micros` the wall time of the probe.
    Responded { status: u16, bytes: u64, elapsed_micros: u64 },
    /// The probe outlived its timeout.
    TimedOut,
    /// The request could not be made or its answer not read.
    Failed { cause: String },
}

/// Why a probe failed without timing out.
#[derive(Debug)]
pub enum FailureCause {
    Status(u16),
    Transport(String),
}

/// What the log was being asked to do.
#[derive(Clone, Copy, PartialEq, Eq, Structural, Debug)]
pub enum StoreOp {
    Append,
    Load,
}

/// Why a run produced no record.
#[derive(Debug)]
pub enum MeasureError {
    ProbeTimeout(Probe),
    ProbeFailure(Probe, FailureCause),
    StoreIo(StoreOp, String),
}

/// Where a run stands.
#[derive(Clone, Copy, PartialEq, Eq, Structural, Debug)]
pub enum Phase {
    Download,
    Upload,
    Latency,
    Saving,
    Finished,
}

/// What the driver of a run is to do next.
#[derive(Debug)]
pub enum Action {
    RunProbe(Probe),
    Append(SpeedTestResult),
    Done(Result<SpeedTestResult, MeasureError>),
}

/// A measurement run in progress. Speeds are in thousandths of a megabit
/// per second and the ping in thousandths of a millisecond.
pub struct MeasurementRun {
    pub phase: Phase,
    pub download_speed: u64,
    pub upload_speed: u64,
    pub ping: u64,
    pub server: String,
    pub record: Option<SpeedTestResult>,
    pub error: Option<MeasureError>,
}

pub open spec fn is_success(status: u16) -> bool {
    200 <= status <= 299
}

/// The rate, in thousandths of a megabit (2^20 bits) per second, of `bytes`
/// moved in `micros` microseconds: zero for no elapsed time, and at most
/// `u64::MAX`.
pub open spec fn rate_spec(bytes: u64, micros: u64) -> nat {
    if micros == 0 {
        0
    } else {
        let r = (bytes * 8 * 1_000_000_000) as nat / (1048576 * micros) as nat;
        if r > u64::MAX { u64::MAX as nat } else { r }
    }
}

/// The error that ends a run when probe `p` ends with `o`; `None` where the
/// probe succeeded.
pub open spec fn probe_error(p: Probe, o: ProbeOutcome) -> Option<MeasureError> {
    match o {
        ProbeOutcome::Responded { status, .. } => if is_success(status) {
            None
        } else {
            Some(MeasureError::ProbeFailure(p, FailureCause::Status(status)))
        },
        ProbeOutcome::TimedOut => Some(MeasureError::ProbeTimeout(p)),
        ProbeOutcome::Failed { cause } => Some(
            MeasureError::ProbeFailure(p, FailureCause::Transport(cause)),
        ),
    }
}

pub open spec fn probe_of(ph: Phase) -> Probe {
    match ph {
        Phase::Download => Probe::Download,
        Phase::Upload => Probe::Upload,
        _ => Probe::Latency,
    }
}

pub open spec fn awaits_probe(ph: Phase) -> bool {
    ph == Phase::Download || ph == Phase::Upload || ph == Phase::Latency
}

pub open spec fn outcome_bytes(o: ProbeOutcome) -> u64 {
    match o {
        ProbeOutcome::Responded { bytes, .. } => bytes,
        _ => 0,
    }
}

pub open spec fn outcome_micros(o: ProbeOutcome) -> u64 {
    match o {
        ProbeOutcome::Responded { elapsed_micros, .. } => elapsed_micros,
        _ => 0,
    }
}

/// What a run holds, with the pending record seen through its view.
pub struct RunModel {
    pub phase: Phase,
    pub download_speed: u64,
    pub upload_speed: u64,
    pub ping: u64,
    pub server: Seq<char>,
    pub record: Option<RecordModel>,
    pub error: Option<MeasureError>,
}

impl View for MeasurementRun {
    type V = RunModel;

    open spec fn view(&self) -> RunModel {
        RunModel {
            phase: self.phase,
            download_speed: self.download_speed,
            upload_speed: self.upload_speed,
            ping: self.ping,
            server: self.server@,
            record: match self.record {
                Some(r) => Some(r@),
                None => None,
            },
            error: self.error,
        }
    }
}

/// The run that a new measurement starts from.
pub open spec fn start_model(server: Seq<char>) -> RunModel {
    RunModel {
        phase: Phase::Download,
        download_speed: 0,
        upload_speed: 0,
        ping: 0,
        server,
        record: None,
        error: None,
    }
}

/// `n` is what run `m` becomes when its pending probe ends with `o`. The
/// time of a record is whatever the clock read, so it is left open.
pub open spec fn advances(m: RunModel, o: ProbeOutcome, n: RunModel) -> bool {
    let p = probe_of(m.phase);
    match probe_error(p, o) {
        Some(e) => n == RunModel { phase: Phase::Finished, error: Some(e), ..m },
        None => match m.phase {
            Phase::Download => n == RunModel {
                phase: Phase::Upload,
                download_speed: rate_spec(outcome_bytes(o), outcome_micros(o)) as u64,
                ..m
            },
            Phase::Upload => n == RunModel {
                phase: Phase::Latency,
                upload_speed: rate_spec(UPLOAD_PAYLOAD_BYTES, outcome_micros(o)) as u64,
                ..m
            },
            _ => {
                &&& n.record is Some
                &&& n == RunModel {
                    phase: Phase::Saving,
                    ping: outcome_micros(o),
                    record: Some(
                        RecordModel {
                            timestamp: n.record->0.timestamp,
                            download_speed: m.download_speed,
                            upload_speed: m.upload_speed,
                            ping: outcome_micros(o),
                            server: m.server,
                        },
                    ),
                    ..m
                }
            },
        },
    }
}

/// `a` is what the driver of run `m` is to do next.
pub open spec fn action_of(m: RunModel, a: Action) -> bool {
    match m.phase {
        Phase::Saving => a is Append && m.record == Some(a->Append_0@),
        Phase::Finished => match a {
            Action::Done(Err(e)) => m.error == Some(e),
            _ => false,
        },
        _ => a == Action::RunProbe(probe_of(m.phase)),
    }
}

/// A run reaches the point where its record is appended only from the
/// latency probe, and only when that probe succeeded; a failed probe ends
/// the run with no record pending.
pub proof fn lemma_failed_probe_appends_nothing(m: RunModel, o: ProbeOutcome, n: RunModel)
    requires
        awaits_probe(m.phase),
        m.record is None,
        advances(m, o, n),
    ensures
        n.phase == Phase::Saving ==> m.phase == Phase::Latency && probe_error(Probe::Latency, o) is None,
        probe_error(probe_of(m.phase), o) is Some ==> n.phase == Phase::Finished && n.record is None
            && n.error == probe_error(probe_of(m.phase), o),
{
}

/// A new run whose upload probe fails, whatever the download probe gave,
/// ends without a record to append: with the upload error where the download
/// succeeded, and with the download error otherwise.
pub proof fn lemma_upload_failure_ends_run(
    server: Seq<char>,
    down: ProbeOutcome,
    up: ProbeOutcome,
    m1: RunModel,
    m2: RunModel,
)
    requires
        probe_error(Probe::Upload, up) is Some,
        advances(start_model(server), down, m1),
        m1.phase == Phase::Upload ==> advances(m1, up, m2),
        m1.phase != Phase::Upload ==> m2 == m1,
    ensures
        m2.phase == Phase::Finished,
        m2.record is None,
        probe_error(Probe::Download, down) is None ==> m2.error == probe_error(Probe::Upload, up),
        probe_error(Probe::Download, down) is Some ==> m2.error == probe_error(Probe::Download, down),
{
}

/// The rate of `bytes` moved in `micros` microseconds, in thousandths of a
/// megabit per second: `bytes * 8 / (2^20 * seconds)`, rounded down.
pub fn rate_milli_mbps(bytes: u64, micros: u64) -> (r: u64)
    ensures
        r == rate_spec(bytes, micros),
{
    if micros == 0 {
        return 0;
    }
    let num: u128 = bytes as u128 * 8 * 1_000_000_000;
    let den: u128 = 1048576 * micros as u128;
    let q = num / den;
    if q > u64::MAX as u128 {
        u64::MAX
    } else {
        q as u64
    }
}

fn is_success_status(status: u16) -> (r: bool)
    ensures
        r == is_success(status),
{
    200 <= status && status <= 299
}

impl MeasurementRun {
    /// A run that has yet to start its download probe. The server label
    /// goes into the record's line of the log, so it holds no line break.
    pub fn new(server: String) -> (r: MeasurementRun)
        requires
            has_no_break(server@),
        ensures
            r@ == start_model(server@),
    {
        MeasurementRun {
            phase: Phase::Download,
            download_speed: 0,
            upload_speed: 0,
            ping: 0,
            server,
            record: None,
            error: None,
        }
    }

    /// The probe that the run waits for, if any.
    pub fn pending_probe(&self) -> (r: Option<Probe>)
        ensures
            r == (if awaits_probe(self.phase) { Some(probe_of(self.phase)) } else { None }),
    {
        match self.phase {
            Phase::Download => Some(Probe::Download),
            Phase::Upload => Some(Probe::Upload),
            Phase::Latency => Some(Probe::Latency),
            _ => None,
        }
    }

    /// Takes the end of the pending probe. A failed probe ends the run with
    /// its error; after the latency probe the record is built, stamped with
    /// the present time, and handed out to be appended.
    pub fn on_probe(&mut self, outcome: ProbeOutcome) -> (a: Action)
        requires
            awaits_probe(old(self).phase),
            old(self).record is None,
            has_no_break(old(self).server@),
        ensures
            advances(old(self)@, outcome, final(self)@),
            action_of(final(self)@, a),
            final(self)@.record matches Some(rec) ==> has_no_break(rec.timestamp)
                && has_no_break(rec.server),
    {
        let p = match self.phase {
            Phase::Download => Probe::Download,
            Phase::Upload => Probe::Upload,
            _ => Probe::Latency,
        };
        let (bytes, micros) = match outcome {
            ProbeOutcome::Responded { status, bytes, elapsed_micros } => {
                if !is_success_status(status) {
                    let e = MeasureError::ProbeFailure(p, FailureCause::Status(status));
                    self.phase = Phase::Finished;
                    self.error = Some(MeasureError::ProbeFailure(p, FailureCause::Status(status)));
                    return Action::Done(Err(e));
                }
                (bytes, elapsed_micros)
            },
            ProbeOutcome::TimedOut => {
                self.phase = Phase::Finished;
                self.error = Some(MeasureError::ProbeTimeout(p));
                return Action::Done(Err(MeasureError::ProbeTimeout(p)));
            },
            ProbeOutcome::Failed { cause } => {
                let c2 = cause.clone();
                self.phase = Phase::Finished;
                self.error = Some(MeasureError::ProbeFailure(p, FailureCause::Transport(cause)));
                return Action::Done(Err(MeasureError::ProbeFailure(p, FailureCause::Transport(c2))));
            },
        };
        match self.phase {
            Phase::Download => {
                self.download_speed = rate_milli_mbps(bytes, micros);
                self.phase = Phase::Upload;
                Action::RunProbe(Probe::Upload)
            },
            Phase::Upload => {
                self.upload_speed = rate_milli_mbps(UPLOAD_PAYLOAD_BYTES, micros);
                self.phase = Phase::Latency;
                Action::RunProbe(Probe::Latency)
            },
            _ => {
                self.ping = micros;
                self.phase = Phase::Saving;
                let timestamp = now_timestamp();
                let rec = SpeedTestResult {
                    timestamp: timestamp.clone(),
                    download_speed: self.download_speed,
                    upload_speed: self.upload_speed,
                    ping: micros,
                    server: self.server.clone(),
                };
                self.record = Some(
                    SpeedTestResult {
                        timestamp,
                        download_speed: self.download_speed,
                        upload_speed: self.upload_speed,
                        ping: micros,
                        server: self.server.clone(),
                    },
                );
                Action::Append(rec)
            },
        }
    }

    /// Takes the result of appending the record: the run ends with the
    /// record, or with the store's error.
    pub fn on_stored(&mut self, result: Result<(), String>) -> (a: Action)
        requires
            old(self).phase == Phase::Saving,
            old(self).record is Some,
        ensures
            final(self).phase == Phase::Finished,
            match result {
                Ok(()) => match a {
                    Action::Done(Ok(rec)) => old(self)@.record == Some(rec@),
                    _ => false,
                },
                Err(cause) => match a {
                    Action::Done(Err(e)) => e == MeasureError::StoreIo(StoreOp::Append, cause)
                        && final(self)@.error == Some(e),
                    _ => false,
                },
            },
    {
        self.phase = Phase::Finished;
        match result {
            Ok(()) => {
                let rec = self.record.take().unwrap();
                Action::Done(Ok(rec))
            },
            Err(cause) => {
                let c2 = cause.clone();
                self.error = Some(MeasureError::StoreIo(StoreOp::Append, cause));
                Action::Done(Err(MeasureError::StoreIo(StoreOp::Append, c2)))
            },
        }
    }
}

} // verus!
