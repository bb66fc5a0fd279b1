use netspeed::data::{parse_speed_data, SkipCause};

#[test]
fn columns_are_found_by_name() {
    let text = "speed,timestamp\n12.5,2024-01-01\n7,2024-01-02\n";
    let report = parse_speed_data(text);
    assert_eq!(report.rows.len(), 2);
    assert_eq!(report.rows[0].timestamp, "2024-01-01");
    assert_eq!(report.rows[0].speed, 12500);
    assert_eq!(report.rows[1].speed, 7000);
    assert!(report.skipped.is_empty());
}

#[test]
fn bad_rows_are_skipped_and_reported() {
    let text = "\ntimestamp,speed\nt1,1.0\nt2,fast\nt3\nt4,4.25\n\"t5,1\n\n";
    let report = parse_speed_data(text);
    assert_eq!(report.rows.len(), 2);
    assert_eq!(report.rows[0].timestamp, "t1");
    assert_eq!(report.rows[1].timestamp, "t4");
    assert_eq!(report.rows[1].speed, 4250);
    assert_eq!(report.skipped.len(), 3);
    assert_eq!(report.skipped[0].line_number, 4);
    assert_eq!(report.skipped[0].raw, "t2,fast");
    assert_eq!(report.skipped[0].cause, SkipCause::Speed);
    assert_eq!(report.skipped[1].line_number, 5);
    assert_eq!(report.skipped[1].cause, SkipCause::FieldCount);
    assert_eq!(report.skipped[2].line_number, 7);
    assert_eq!(report.skipped[2].cause, SkipCause::Quoting);
}

#[test]
fn missing_column_gives_no_rows() {
    let report = parse_speed_data("time,speed\nt1,1\n");
    assert!(report.rows.is_empty());
    assert_eq!(report.skipped.len(), 1);
    assert_eq!(report.skipped[0].cause, SkipCause::MissingColumn);
    let empty = parse_speed_data("");
    assert!(empty.rows.is_empty());
    assert!(empty.skipped.is_empty());
}

#[test]
fn unreadable_header_skips_every_row() {
    let report = parse_speed_data("\"timestamp,speed\nt1,1\n\nt2,2\n");
    assert!(report.rows.is_empty());
    assert_eq!(report.skipped.len(), 2);
    assert_eq!(report.skipped[0].cause, SkipCause::Header);
    assert_eq!(report.skipped[1].line_number, 4);
}
