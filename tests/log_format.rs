use netspeed::decimal::{milli_string, parse_milli};
use netspeed::fields::{join_line, split_line};
use netspeed::record::{encode_record, parse_record, ParseCause, SpeedTestResult};

fn chars(s: &str) -> Vec<char> {
    s.chars().collect()
}

fn sample(server: &str) -> SpeedTestResult {
    SpeedTestResult {
        timestamp: "2024-05-01T10:20:30+00:00".to_string(),
        download_speed: 93456,
        upload_speed: 12005,
        ping: 41250,
        server: server.to_string(),
    }
}

#[test]
fn milli_string_writes_three_decimals() {
    assert_eq!(milli_string(20000), "20.000");
    assert_eq!(milli_string(0), "0.000");
    assert_eq!(milli_string(7), "0.007");
    assert_eq!(milli_string(123456), "123.456");
    assert_eq!(milli_string(u64::MAX), "18446744073709551.615");
}

#[test]
fn parse_milli_reads_decimals() {
    assert_eq!(parse_milli(&chars("20.000")), Some(20000));
    assert_eq!(parse_milli(&chars("12")), Some(12000));
    assert_eq!(parse_milli(&chars("12.5")), Some(12500));
    assert_eq!(parse_milli(&chars("93.4567891")), Some(93456));
    assert_eq!(parse_milli(&chars("0.001")), Some(1));
    assert_eq!(parse_milli(&chars(".5")), Some(500));
    assert_eq!(parse_milli(&chars("5.")), Some(5000));
    assert_eq!(parse_milli(&chars("+5")), Some(5000));
    assert_eq!(parse_milli(&chars("+0.25")), Some(250));
    assert_eq!(parse_milli(&chars("18446744073709551.615")), Some(u64::MAX));
}

#[test]
fn parse_milli_rejects_other_text() {
    assert_eq!(parse_milli(&chars("")), None);
    assert_eq!(parse_milli(&chars(".")), None);
    assert_eq!(parse_milli(&chars("+")), None);
    assert_eq!(parse_milli(&chars("++5")), None);
    assert_eq!(parse_milli(&chars("+.")), None);
    assert_eq!(parse_milli(&chars("-1.0")), None);
    assert_eq!(parse_milli(&chars("1.2.3")), None);
    assert_eq!(parse_milli(&chars("NaN")), None);
    assert_eq!(parse_milli(&chars("1e5")), None);
    assert_eq!(parse_milli(&chars("18446744073709551.616")), None);
    assert_eq!(parse_milli(&chars("99999999999999999999")), None);
}

#[test]
fn fields_with_commas_and_quotes_are_quoted() {
    let fields = vec!["a".to_string(), "b,c".to_string(), "say \"hi\"".to_string(), String::new()];
    let line = join_line(&fields);
    assert_eq!(line, "a,\"b,c\",\"say \"\"hi\"\"\",");
    let back = split_line(&chars(&line)).unwrap();
    assert_eq!(back, fields);
}

#[test]
fn split_line_rejects_bad_quoting() {
    assert_eq!(split_line(&chars("\"open,field")), None);
    assert_eq!(split_line(&chars("\"closed\"x,y")), None);
    assert_eq!(split_line(&chars("")), Some(vec![String::new()]));
}

#[test]
fn record_line_has_fixed_field_order() {
    let line = encode_record(&sample("Public Test Servers"));
    assert_eq!(line, "2024-05-01T10:20:30+00:00,93.456,12.005,41.250,Public Test Servers");
}

#[test]
fn record_round_trips_through_its_line() {
    let r = sample("lab, rack \"3\"");
    let line = encode_record(&r);
    let back = parse_record(&line).unwrap();
    assert_eq!(back.timestamp, r.timestamp);
    assert_eq!(back.download_speed, r.download_speed);
    assert_eq!(back.upload_speed, r.upload_speed);
    assert_eq!(back.ping, r.ping);
    assert_eq!(back.server, r.server);
}

#[test]
fn parse_record_turns_time_to_utc() {
    let back = parse_record("2024-05-01T12:20:30+02:00,1.5,2,3.25,x").unwrap();
    assert_eq!(back.timestamp, "2024-05-01T10:20:30+00:00");
    assert_eq!(back.download_speed, 1500);
    assert_eq!(back.upload_speed, 2000);
    assert_eq!(back.ping, 3250);
}

#[test]
fn parse_record_drops_carriage_return() {
    let back = parse_record("2024-05-01T10:20:30+00:00,1,2,3,srv\r").unwrap();
    assert_eq!(back.server, "srv");
}

#[test]
fn parse_record_names_each_cause() {
    let ts = "2024-05-01T10:20:30+00:00";
    assert_eq!(parse_record("\"open").unwrap_err(), ParseCause::Quoting);
    assert_eq!(parse_record(&format!("{},1,2,3", ts)).unwrap_err(), ParseCause::FieldCount);
    assert_eq!(parse_record("yesterday,1,2,3,s").unwrap_err(), ParseCause::Timestamp);
    assert_eq!(parse_record(&format!("{},x,2,3,s", ts)).unwrap_err(), ParseCause::Download);
    assert_eq!(parse_record(&format!("{},1,-2,3,s", ts)).unwrap_err(), ParseCause::Upload);
    assert_eq!(parse_record(&format!("{},1,2,,s", ts)).unwrap_err(), ParseCause::Ping);
}

#[test]
fn header_row_is_no_record() {
    let e = parse_record("timestamp,download_speed,upload_speed,ping,server").unwrap_err();
    assert_eq!(e, ParseCause::Timestamp);
}
