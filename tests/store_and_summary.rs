use netspeed::aggregate::build;
use netspeed::record::{ParseCause, SpeedTestResult};
use netspeed::store::{append_line, load_log};

fn record(ts: &str, down: u64, up: u64, ping: u64) -> SpeedTestResult {
    SpeedTestResult {
        timestamp: ts.to_string(),
        download_speed: down,
        upload_speed: up,
        ping,
        server: "Public Test Servers".to_string(),
    }
}

fn append(log: &mut String, r: &SpeedTestResult) {
    let open = !log.is_empty() && !log.ends_with('\n');
    let chunk = append_line(open, r);
    log.push_str(&chunk);
}

#[test]
fn append_then_load_gives_the_record_last() {
    let mut log = String::from("2024-01-01T00:00:00+00:00,1.000,2.000,3.000,old\n");
    let r = record("2024-01-02T00:00:00+00:00", 55555, 6666, 777);
    append(&mut log, &r);
    let report = load_log(&log);
    assert_eq!(report.records.len(), 2);
    let last = report.records.last().unwrap();
    assert_eq!(last.timestamp, r.timestamp);
    assert_eq!(last.download_speed, 55555);
    assert_eq!(last.upload_speed, 6666);
    assert_eq!(last.ping, 777);
    assert_eq!(last.server, r.server);
    assert!(report.rejected.is_empty());
}

#[test]
fn append_to_log_without_final_line_break() {
    let mut log = String::from("2024-01-01T00:00:00+00:00,1,2,3,old");
    let r = record("2024-01-02T00:00:00+00:00", 1000, 2000, 3000);
    let chunk = append_line(true, &r);
    assert!(chunk.starts_with('\n'));
    assert!(chunk.ends_with('\n'));
    append(&mut log, &r);
    let report = load_log(&log);
    assert_eq!(report.records.len(), 2);
    assert_eq!(report.records[1].download_speed, 1000);
}

#[test]
fn appends_load_in_order() {
    let mut log = String::new();
    for i in 0..5u64 {
        append(&mut log, &record(&format!("2024-01-0{}T00:00:00+00:00", i + 1), i * 1000, i, i));
    }
    let report = load_log(&log);
    assert_eq!(report.records.len(), 5);
    for (i, r) in report.records.iter().enumerate() {
        assert_eq!(r.download_speed, i as u64 * 1000);
        assert_eq!(r.timestamp, format!("2024-01-0{}T00:00:00+00:00", i + 1));
    }
}

#[test]
fn one_malformed_line_is_set_aside() {
    let mut log = String::new();
    append(&mut log, &record("2024-01-01T00:00:00+00:00", 1000, 1000, 1000));
    append(&mut log, &record("2024-01-02T00:00:00+00:00", 2000, 2000, 2000));
    log.push_str("2024-01-03T00:00:00+00:00,garbled\n");
    append(&mut log, &record("2024-01-04T00:00:00+00:00", 4000, 4000, 4000));
    let report = load_log(&log);
    assert_eq!(report.records.len(), 3);
    assert_eq!(report.records[2].download_speed, 4000);
    assert_eq!(report.rejected.len(), 1);
    assert_eq!(report.rejected[0].line_number, 3);
    assert_eq!(report.rejected[0].raw, "2024-01-03T00:00:00+00:00,garbled");
    assert_eq!(report.rejected[0].cause, ParseCause::FieldCount);
}

#[test]
fn blank_lines_and_header_are_skipped() {
    let log = "timestamp,download_speed,upload_speed,ping,server\r\n\r\n\n2024-01-01T00:00:00Z,1,2,3,s\r\n";
    let report = load_log(log);
    assert_eq!(report.records.len(), 1);
    assert_eq!(report.records[0].timestamp, "2024-01-01T00:00:00+00:00");
    assert_eq!(report.records[0].server, "s");
    assert_eq!(report.rejected.len(), 1);
    assert_eq!(report.rejected[0].line_number, 1);
}

#[test]
fn empty_log_loads_nothing() {
    let report = load_log("");
    assert!(report.records.is_empty());
    assert!(report.rejected.is_empty());
}

#[test]
fn empty_summary_is_zero() {
    let s = build(&[]);
    assert_eq!(s.stats.count, 0);
    assert_eq!(s.stats.avg_download, 0);
    assert_eq!(s.stats.avg_upload, 0);
    assert_eq!(s.stats.avg_ping, 0);
    assert!(s.download.is_empty());
    assert!(s.upload.is_empty());
}

#[test]
fn three_records_mean() {
    let rs = vec![
        record("2024-01-01T00:00:00+00:00", 10000, 1000, 5000),
        record("2024-01-02T00:00:00+00:00", 20000, 2000, 6000),
        record("2024-01-03T00:00:00+00:00", 30000, 4000, 8000),
    ];
    let s = build(&rs);
    assert_eq!(s.stats.count, 3);
    assert_eq!(s.stats.avg_download, 20000);
    assert_eq!(s.stats.avg_upload, 2333);
    assert_eq!(s.stats.avg_ping, 6333);
}

#[test]
fn series_follow_record_order() {
    let rs = vec![
        record("2024-01-02T00:00:00+00:00", 5, 50, 0),
        record("2024-01-01T00:00:00+00:00", 7, 70, 0),
    ];
    let s = build(&rs);
    assert_eq!(s.download.len(), 2);
    assert_eq!(s.download[0].timestamp, "2024-01-02T00:00:00+00:00");
    assert_eq!(s.download[0].value, 5);
    assert_eq!(s.download[1].value, 7);
    assert_eq!(s.upload[0].value, 50);
    assert_eq!(s.upload[1].timestamp, "2024-01-01T00:00:00+00:00");
    assert_eq!(s.upload[1].value, 70);
}

#[test]
fn large_values_average_without_overflow() {
    let rs = vec![
        record("2024-01-01T00:00:00+00:00", u64::MAX, u64::MAX, u64::MAX),
        record("2024-01-02T00:00:00+00:00", u64::MAX, 1, u64::MAX - 1),
    ];
    let s = build(&rs);
    assert_eq!(s.stats.avg_download, u64::MAX);
    assert_eq!(s.stats.avg_upload, u64::MAX / 2 + 1);
    assert_eq!(s.stats.avg_ping, u64::MAX - 1);
}

#[test]
fn separate_appends_stay_distinct_lines() {
    let mut log = String::new();
    let n = 8u64;
    for i in 0..n {
        let r = SpeedTestResult {
            timestamp: "2024-01-01T00:00:00+00:00".to_string(),
            download_speed: i,
            upload_speed: i,
            ping: i,
            server: format!("worker, {}", i),
        };
        append(&mut log, &r);
    }
    let report = load_log(&log);
    assert_eq!(report.records.len(), n as usize);
    assert!(report.rejected.is_empty());
    for (i, r) in report.records.iter().enumerate() {
        assert_eq!(r.server, format!("worker, {}", i));
    }
}

#[test]
fn record_with_offset_time_loads_back_in_utc() {
    let mut log = String::new();
    let r = record("2024-03-01T02:00:00+02:00", 1000, 2000, 3000);
    append(&mut log, &r);
    let report = load_log(&log);
    assert_eq!(report.records.len(), 1);
    assert_eq!(report.records[0].timestamp, "2024-03-01T00:00:00+00:00");
    assert_eq!(report.records[0].ping, 3000);
}
