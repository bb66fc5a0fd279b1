//! The measurement record and its line in the log.

use vstd::prelude::*;
use crate::clock::{normalize_timestamp, utc_rfc3339};
use crate::decimal::{
    lemma_milli_round_trip, milli_string, milli_text, nat_digits, parse_milli,
    parsed_milli,
};
use crate::fields::{
    escape, escape_char, join_fields, join_line, lemma_split_join, quote_field, split_line,
    split_spec, texts,
};
use crate::text::chars_of;

verus! {

/// One measurement. Speeds are in thousandths of a megabit per second, the
/// ping in thousandths of a millisecond; `timestamp` is RFC 3339 text.
#[derive(Debug)]
pub struct SpeedTestResult {
    pub timestamp: String,
    pub download_speed: u64,
    pub upload_speed: u64,
    pub ping: u64,
    pub server: String,
}

/// What a record holds.
pub struct RecordModel {
    pub timestamp: Seq<char>,
    pub download_speed: u64,
    pub upload_speed: u64,
    pub ping: u64,
    pub server: Seq<char>,
}

impl View for SpeedTestResult {
    type V = RecordModel;

    open spec fn view(&self) -> RecordModel {
        RecordModel {
            timestamp: self.timestamp@,
            download_speed: self.download_speed,
            upload_speed: self.upload_speed,
            ping: self.ping,
            server: self.server@,
        }
    }
}

pub open spec fn models(v: Seq<SpeedTestResult>) -> Seq<RecordModel> {
    v.map_values(|r: SpeedTestResult| r@)
}

/// Why a line of the log is no record.
#[derive(Clone, Copy, PartialEq, Eq, Structural, Debug)]
pub enum ParseCause {
    /// A quoted field is left open, or a closing quote is followed by more text.
    Quoting,
    /// The line does not hold exactly five fields.
    FieldCount,
    /// The first field is no RFC 3339 time.
    Timestamp,
    /// The download speed is no decimal number.
    Download,
    /// The upload speed is no decimal number.
    Upload,
    /// The ping is no decimal number.
    Ping,
}

pub open spec fn has_no_break(s: Seq<char>) -> bool {
    forall|i: int| 0 <= i < s.len() ==> #[trigger] s[i] != '\n' && s[i] != '\r'
}

/// A record that the log keeps as it is: its time is RFC 3339 text in UTC
/// and neither text holds a line break.
pub open spec fn well_formed(m: RecordModel) -> bool {
    &&& utc_rfc3339(m.timestamp) == Some(m.timestamp)
    &&& has_no_break(m.timestamp)
    &&& has_no_break(m.server)
}

/// Neither text of the record holds a line break, so it fits on one line
/// of the log.
pub open spec fn one_line(m: RecordModel) -> bool {
    has_no_break(m.timestamp) && has_no_break(m.server)
}

/// What reading back a record's line gives: the record with its time turned
/// to UTC RFC 3339 text, or a timestamp error where the time is no RFC 3339
/// time.
pub open spec fn read_back(m: RecordModel) -> Result<RecordModel, ParseCause> {
    match utc_rfc3339(m.timestamp) {
        Some(t) => Ok(RecordModel { timestamp: t, ..m }),
        None => Err(ParseCause::Timestamp),
    }
}

/// The fields of a record's line, in their fixed order.
pub open spec fn record_fields(m: RecordModel) -> Seq<Seq<char>> {
    seq![
        m.timestamp,
        milli_text(m.download_speed as nat),
        milli_text(m.upload_speed as nat),
        milli_text(m.ping as nat),
        m.server,
    ]
}

/// A record's line in the log, without its line break.
pub open spec fn record_line(m: RecordModel) -> Seq<char> {
    join_fields(record_fields(m))
}

/// A line without a carriage return at its end.
pub open spec fn line_body(line: Seq<char>) -> Seq<char> {
    if line.len() > 0 && line.last() == '\r' {
        line.drop_last()
    } else {
        line
    }
}

/// The record that a line of the log holds, or why it holds none.
pub open spec fn parse_spec(line: Seq<char>) -> Result<RecordModel, ParseCause> {
    match split_spec(line_body(line)) {
        None => Err(ParseCause::Quoting),
        Some(fs) => if fs.len() != 5 {
            Err(ParseCause::FieldCount)
        } else if utc_rfc3339(fs[0]) is None {
            Err(ParseCause::Timestamp)
        } else if parsed_milli(fs[1]) is None {
            Err(ParseCause::Download)
        } else if parsed_milli(fs[2]) is None {
            Err(ParseCause::Upload)
        } else if parsed_milli(fs[3]) is None {
            Err(ParseCause::Ping)
        } else {
            Ok(
                RecordModel {
                    timestamp: utc_rfc3339(fs[0])->0,
                    download_speed: parsed_milli(fs[1])->0,
                    upload_speed: parsed_milli(fs[2])->0,
                    ping: parsed_milli(fs[3])->0,
                    server: fs[4],
                },
            )
        },
    }
}

proof fn lemma_no_break_concat(a: Seq<char>, b: Seq<char>)
    requires
        has_no_break(a),
        has_no_break(b),
    ensures
        has_no_break(a + b),
{
    assert forall|i: int| 0 <= i < (a + b).len() implies #[trigger] (a + b)[i] != '\n' && (a
        + b)[i] != '\r' by {
        if i < a.len() {
            assert((a + b)[i] == a[i]);
        } else {
            assert((a + b)[i] == b[i - a.len()]);
        }
    }
}

proof fn lemma_escape_no_break(f: Seq<char>)
    requires
        has_no_break(f),
    ensures
        has_no_break(escape(f)),
    decreases f.len(),
{
    if f.len() > 0 {
        let g = f.drop_last();
        assert(has_no_break(g)) by {
            assert forall|i: int| 0 <= i < g.len() implies #[trigger] g[i] != '\n' && g[i]
                != '\r' by {
                assert(g[i] == f[i]);
            }
        }
        lemma_escape_no_break(g);
        assert(f[f.len() - 1] != '\n' && f[f.len() - 1] != '\r');
        assert(has_no_break(escape_char(f.last())));
        lemma_no_break_concat(escape(g), escape_char(f.last()));
    }
}

proof fn lemma_quote_no_break(f: Seq<char>)
    requires
        has_no_break(f),
    ensures
        has_no_break(quote_field(f)),
{
    lemma_escape_no_break(f);
    assert(has_no_break(seq!['"']));
    lemma_no_break_concat(seq!['"'], escape(f));
    lemma_no_break_concat(seq!['"'] + escape(f), seq!['"']);
}

proof fn lemma_join_no_break(fs: Seq<Seq<char>>)
    requires
        forall|i: int| 0 <= i < fs.len() ==> has_no_break(#[trigger] fs[i]),
    ensures
        has_no_break(join_fields(fs)),
    decreases fs.len(),
{
    if fs.len() == 1 {
        lemma_quote_no_break(fs[0]);
    } else if fs.len() > 1 {
        let g = fs.drop_last();
        assert forall|i: int| 0 <= i < g.len() implies has_no_break(#[trigger] g[i]) by {
            assert(g[i] == fs[i]);
        }
        lemma_join_no_break(g);
        lemma_quote_no_break(fs[fs.len() - 1]);
        assert(has_no_break(seq![',']));
        lemma_no_break_concat(join_fields(g), seq![',']);
        lemma_no_break_concat(join_fields(g) + seq![','], quote_field(fs.last()));
    }
}

proof fn lemma_milli_no_break(v: nat)
    ensures
        has_no_break(milli_text(v)),
{
    crate::decimal::lemma_nat_digits_all(v / 1000);
    let s = milli_text(v);
    let k = nat_digits(v / 1000).len();
    assert forall|i: int| 0 <= i < s.len() implies #[trigger] s[i] != '\n' && s[i] != '\r' by {
        if i < k {
            assert(s[i] == nat_digits(v / 1000)[i]);
        }
    }
}

/// A well-formed record's line holds no line break.
pub proof fn lemma_record_line_no_break(m: RecordModel)
    requires
        one_line(m),
    ensures
        has_no_break(record_line(m)),
{
    let fs = record_fields(m);
    lemma_milli_no_break(m.download_speed as nat);
    lemma_milli_no_break(m.upload_speed as nat);
    lemma_milli_no_break(m.ping as nat);
    assert forall|i: int| 0 <= i < fs.len() implies has_no_break(#[trigger] fs[i]) by {}
    lemma_join_no_break(fs);
}

/// Reading the line of a record that fits on one line gives back the
/// record, with its time turned to UTC.
pub proof fn lemma_record_read_back(m: RecordModel)
    requires
        one_line(m),
    ensures
        parse_spec(record_line(m)) == read_back(m),
{
    let line = record_line(m);
    lemma_record_line_no_break(m);
    if line.len() > 0 {
        assert(line[line.len() - 1] != '\r');
    }
    assert(line_body(line) == line);
    lemma_split_join(record_fields(m));
    lemma_milli_round_trip(m.download_speed as nat);
    lemma_milli_round_trip(m.upload_speed as nat);
    lemma_milli_round_trip(m.ping as nat);
}

/// Reading the line of a well-formed record gives back the record.
pub proof fn lemma_record_round_trip(m: RecordModel)
    requires
        well_formed(m),
    ensures
        parse_spec(record_line(m)) == Ok::<RecordModel, ParseCause>(m),
{
    lemma_record_read_back(m);
}

/// Writes a record as a line of the log, without its line break. The log
/// holds one record per line, so neither text of the record may hold a
/// line break.
pub fn encode_record(r: &SpeedTestResult) -> (line: String)
    requires
        has_no_break(r.timestamp@),
        has_no_break(r.server@),
    ensures
        line@ == record_line(r@),
{
    let mut fields: Vec<String> = Vec::new();
    fields.push(r.timestamp.clone());
    fields.push(milli_string(r.download_speed));
    fields.push(milli_string(r.upload_speed));
    fields.push(milli_string(r.ping));
    fields.push(r.server.clone());
    assert(texts(fields@) =~= record_fields(r@));
    join_line(&fields)
}

/// Reads a record from a line of the log (without its line break). The
/// time is given back in UTC.
pub fn parse_record(line: &str) -> (r: Result<SpeedTestResult, ParseCause>)
    ensures
        match r {
            Ok(rec) => parse_spec(line@) == Ok::<RecordModel, ParseCause>(rec@),
            Err(c) => parse_spec(line@) == Err::<RecordModel, ParseCause>(c),
        },
{
    let mut cs = chars_of(line);
    if cs.len() > 0 && cs[cs.len() - 1] == '\r' {
        cs.pop();
    }
    assert(cs@ == line_body(line@));
    let fs = match split_line(cs.as_slice()) {
        Some(fs) => fs,
        None => return Err(ParseCause::Quoting),
    };
    if fs.len() != 5 {
        return Err(ParseCause::FieldCount);
    }
    let ghost ts = texts(fs@);
    assert(ts[0] == fs@[0]@ && ts[1] == fs@[1]@ && ts[2] == fs@[2]@);
    assert(ts[3] == fs@[3]@ && ts[4] == fs@[4]@);
    let timestamp = match normalize_timestamp(fs[0].as_str()) {
        Some(t) => t,
        None => return Err(ParseCause::Timestamp),
    };
    let download_speed = match parse_milli(chars_of(fs[1].as_str()).as_slice()) {
        Some(v) => v,
        None => return Err(ParseCause::Download),
    };
    let upload_speed = match parse_milli(chars_of(fs[2].as_str()).as_slice()) {
        Some(v) => v,
        None => return Err(ParseCause::Upload),
    };
    let ping = match parse_milli(chars_of(fs[3].as_str()).as_slice()) {
        Some(v) => v,
        None => return Err(ParseCause::Ping),
    };
    let server = fs[4].clone();
    Ok(SpeedTestResult { timestamp, download_speed, upload_speed, ping, server })
}

} // verus!
