//! The record log: an append-only text of one record per line. Loading
//! keeps the order of the lines, skips blank lines, and sets aside each line
//! that holds no record without giving up on the others.

use vstd::prelude::*;
use crate::record::{
    encode_record, has_no_break, lemma_record_line_no_break, lemma_record_read_back, line_body,
    models, one_line, parse_record, parse_spec, read_back, record_line, well_formed, ParseCause,
    RecordModel, SpeedTestResult,
};
use crate::text::{chars_of, string_of};

verus! {

/// The lines of `t` read from a point where `cur` is the line begun so far.
pub open spec fn lines_from(t: Seq<char>, cur: Seq<char>) -> Seq<Seq<char>>
    decreases t.len(),
{
    if t.len() == 0 {
        if cur.len() == 0 {
            Seq::empty()
        } else {
            seq![cur]
        }
    } else if t[0] == '\n' {
        seq![cur] + lines_from(t.drop_first(), Seq::empty())
    } else {
        lines_from(t.drop_first(), cur.push(t[0]))
    }
}

/// The lines of a log text; a last line needs no line break.
pub open spec fn lines_of(t: Seq<char>) -> Seq<Seq<char>> {
    lines_from(t, Seq::empty())
}

pub open spec fn is_blank(line: Seq<char>) -> bool {
    line_body(line).len() == 0
}

/// The records that a sequence of lines holds, in order.
pub open spec fn loaded(lines: Seq<Seq<char>>) -> Seq<RecordModel>
    decreases lines.len(),
{
    if lines.len() == 0 {
        Seq::empty()
    } else {
        let before = loaded(lines.drop_last());
        let line = lines.last();
        if !is_blank(line) && parse_spec(line) is Ok {
            before.push(parse_spec(line)->Ok_0)
        } else {
            before
        }
    }
}

/// A line set aside: its number (from 1), its text and why it holds no record.
pub struct RejectModel {
    pub line_number: int,
    pub raw: Seq<char>,
    pub cause: ParseCause,
}

/// The lines that are neither blank nor a record, in order.
pub open spec fn rejected(lines: Seq<Seq<char>>) -> Seq<RejectModel>
    decreases lines.len(),
{
    if lines.len() == 0 {
        Seq::empty()
    } else {
        let before = rejected(lines.drop_last());
        let line = lines.last();
        if !is_blank(line) && parse_spec(line) is Err {
            before.push(
                RejectModel { line_number: lines.len() as int, raw: line, cause: parse_spec(line)->Err_0 },
            )
        } else {
            before
        }
    }
}

/// A line of the log that holds no record.
#[derive(Debug)]
pub struct RecordParseError {
    pub line_number: usize,
    pub raw: String,
    pub cause: ParseCause,
}

impl View for RecordParseError {
    type V = RejectModel;

    open spec fn view(&self) -> RejectModel {
        RejectModel { line_number: self.line_number as int, raw: self.raw@, cause: self.cause }
    }
}

pub open spec fn reject_models(v: Seq<RecordParseError>) -> Seq<RejectModel> {
    v.map_values(|e: RecordParseError| e@)
}

/// What loading the log gave: the records in file order, and the lines
/// that were set aside.
pub struct LoadReport {
    pub records: Vec<SpeedTestResult>,
    pub rejected: Vec<RecordParseError>,
}

/// The log text does not end a line: it is not empty and its last
/// character is no line break.
pub open spec fn ends_open(t: Seq<char>) -> bool {
    t.len() > 0 && t.last() != '\n'
}

/// What appending a record adds to a log: a line break first where the log
/// ends inside a line, then the record's line and its line break.
pub open spec fn append_text(open: bool, m: RecordModel) -> Seq<char> {
    (if open { seq!['\n'] } else { Seq::empty() }) + record_line(m) + seq!['\n']
}

/// The log that a sequence of appends makes of `t`.
pub open spec fn append_all(t: Seq<char>, ms: Seq<RecordModel>) -> Seq<char>
    decreases ms.len(),
{
    if ms.len() == 0 {
        t
    } else {
        let before = append_all(t, ms.drop_last());
        before + append_text(ends_open(before), ms.last())
    }
}

/// Sorts one line of the log into the records or the lines set aside.
fn close_line(
    cur: &Vec<char>,
    number: usize,
    records: &mut Vec<SpeedTestResult>,
    rejects: &mut Vec<RecordParseError>,
    Ghost(lines): Ghost<Seq<Seq<char>>>,
)
    requires
        number == lines.len() + 1,
        models(old(records)@) == loaded(lines),
        reject_models(old(rejects)@) == rejected(lines),
    ensures
        models(final(records)@) == loaded(lines.push(cur@)),
        reject_models(final(rejects)@) == rejected(lines.push(cur@)),
{
    let ghost next = lines.push(cur@);
    assert(next.drop_last() =~= lines);
    let mut body_len = cur.len();
    if body_len > 0 && cur[body_len - 1] == '\r' {
        body_len = body_len - 1;
    }
    if body_len == 0 {
        assert(models(records@) =~= loaded(next));
        assert(reject_models(rejects@) =~= rejected(next));
        return;
    }
    let line_text = string_of(cur.as_slice());
    match parse_record(line_text.as_str()) {
        Ok(rec) => {
            records.push(rec);
            assert(models(records@) =~= loaded(next));
            assert(reject_models(rejects@) =~= rejected(next));
        },
        Err(cause) => {
            rejects.push(RecordParseError { line_number: number, raw: line_text, cause });
            assert(models(records@) =~= loaded(next));
            assert(reject_models(rejects@) =~= rejected(next));
        },
    }
}

/// Reads a whole log text.
pub fn load_log(text: &str) -> (r: LoadReport)
    ensures
        models(r.records@) == loaded(lines_of(text@)),
        reject_models(r.rejected@) == rejected(lines_of(text@)),
{
    let cs = chars_of(text);
    let mut records: Vec<SpeedTestResult> = Vec::new();
    let mut rejects: Vec<RecordParseError> = Vec::new();
    let mut cur: Vec<char> = Vec::new();
    let ghost mut lines: Seq<Seq<char>> = Seq::empty();
    let mut count: usize = 0;
    let mut i: usize = 0;
    assert(cs@.skip(0) =~= cs@);
    assert(models(records@) =~= loaded(lines));
    assert(reject_models(rejects@) =~= rejected(lines));
    while i < cs.len()
        invariant
            i <= cs@.len(),
            cs@ == text@,
            count == lines.len(),
            count + cur@.len() <= i,
            lines_of(text@) == lines + lines_from(cs@.skip(i as int), cur@),
            models(records@) == loaded(lines),
            reject_models(rejects@) == rejected(lines),
        decreases cs.len() - i,
    {
        assert(cs@.skip(i as int).drop_first() =~= cs@.skip(i + 1));
        if cs[i] != '\n' {
            cur.push(cs[i]);
        } else {
            let ghost line = cur@;
            assert(lines + (seq![line] + lines_from(cs@.skip(i + 1), Seq::empty()))
                =~= lines.push(line) + lines_from(cs@.skip(i + 1), Seq::empty()));
            close_line(&cur, count + 1, &mut records, &mut rejects, Ghost(lines));
            count = count + 1;
            proof {
                lines = lines.push(line);
            }
            cur = Vec::new();
        }
        i = i + 1;
    }
    assert(cs@.skip(i as int) =~= Seq::<char>::empty());
    if cur.len() > 0 {
        assert(lines + seq![cur@] =~= lines.push(cur@));
        close_line(&cur, count + 1, &mut records, &mut rejects, Ghost(lines));
    } else {
        assert(lines + Seq::<Seq<char>>::empty() =~= lines);
    }
    LoadReport { records, rejected: rejects }
}

/// The lines of a text, without their line breaks.
pub fn text_lines(text: &str) -> (r: Vec<String>)
    ensures
        crate::fields::texts(r@) == lines_of(text@),
{
    let cs = chars_of(text);
    let mut out: Vec<String> = Vec::new();
    let mut cur: Vec<char> = Vec::new();
    let mut i: usize = 0;
    assert(cs@.skip(0) =~= cs@);
    assert(crate::fields::texts(out@) =~= Seq::<Seq<char>>::empty());
    while i < cs.len()
        invariant
            i <= cs@.len(),
            cs@ == text@,
            lines_of(text@) == crate::fields::texts(out@) + lines_from(cs@.skip(i as int), cur@),
        decreases cs.len() - i,
    {
        assert(cs@.skip(i as int).drop_first() =~= cs@.skip(i + 1));
        if cs[i] != '\n' {
            cur.push(cs[i]);
        } else {
            let ghost before = crate::fields::texts(out@);
            out.push(string_of(cur.as_slice()));
            assert(crate::fields::texts(out@) =~= before.push(cur@));
            assert(before + (seq![cur@] + lines_from(cs@.skip(i + 1), Seq::empty()))
                =~= before.push(cur@) + lines_from(cs@.skip(i + 1), Seq::empty()));
            cur = Vec::new();
        }
        i = i + 1;
    }
    assert(cs@.skip(i as int) =~= Seq::<char>::empty());
    if cur.len() > 0 {
        let ghost before = crate::fields::texts(out@);
        out.push(string_of(cur.as_slice()));
        assert(crate::fields::texts(out@) =~= before + seq![cur@]);
    } else {
        assert(crate::fields::texts(out@) + Seq::<Seq<char>>::empty() =~= crate::fields::texts(out@));
    }
    out
}

/// The text to append to a log for one record, whose texts hold no line
/// break; `log_ends_open` tells whether the log is not empty and does not
/// end with a line break.
pub fn append_line(log_ends_open: bool, r: &SpeedTestResult) -> (out: String)
    requires
        has_no_break(r.timestamp@),
        has_no_break(r.server@),
    ensures
        out@ == append_text(log_ends_open, r@),
{
    let line = encode_record(r);
    let mut cs: Vec<char> = Vec::new();
    if log_ends_open {
        cs.push('\n');
    }
    let lc = chars_of(line.as_str());
    let mut i: usize = 0;
    while i < lc.len()
        invariant
            i <= lc@.len(),
            lc@ == record_line(r@),
            cs@ == (if log_ends_open { seq!['\n'] } else { Seq::<char>::empty() }) + lc@.take(i as int),
        decreases lc.len() - i,
    {
        cs.push(lc[i]);
        assert(lc@.take(i + 1) =~= lc@.take(i as int).push(lc@[i as int]));
        i = i + 1;
    }
    cs.push('\n');
    assert(lc@.take(lc@.len() as int) =~= lc@);
    assert(cs@ =~= append_text(log_ends_open, r@));
    string_of(cs.as_slice())
}


proof fn lemma_lines_concat(a: Seq<char>, b: Seq<char>, cur: Seq<char>)
    requires
        a.len() > 0,
        a.last() == '\n',
    ensures
        lines_from(a + b, cur) == lines_from(a, cur) + lines_from(b, Seq::empty()),
    decreases a.len(),
{
    assert((a + b)[0] == a[0]);
    assert((a + b).drop_first() =~= a.drop_first() + b);
    if a.len() == 1 {
        assert(a.drop_first() + b =~= b);
        assert(lines_from(a.drop_first(), Seq::empty()) == Seq::<Seq<char>>::empty());
        assert(seq![cur] + lines_from(b, Seq::empty()) =~= seq![cur] + Seq::<Seq<char>>::empty()
            + lines_from(b, Seq::empty()));
    } else {
        if a[0] == '\n' {
            lemma_lines_concat(a.drop_first(), b, Seq::empty());
            assert(seq![cur] + (lines_from(a.drop_first(), Seq::empty()) + lines_from(b, Seq::empty()))
                =~= (seq![cur] + lines_from(a.drop_first(), Seq::empty())) + lines_from(b, Seq::empty()));
        } else {
            lemma_lines_concat(a.drop_first(), b, cur.push(a[0]));
        }
    }
}

proof fn lemma_lines_newline(cur: Seq<char>)
    ensures
        lines_from(seq!['\n'], cur) == seq![cur],
{
    let nl = seq!['\n'];
    assert(nl[0] == '\n');
    assert(nl.drop_first() =~= Seq::<char>::empty());
    assert(lines_from(Seq::<char>::empty(), Seq::<char>::empty()) == Seq::<Seq<char>>::empty());
    assert(seq![cur] + Seq::<Seq<char>>::empty() =~= seq![cur]);
}

proof fn lemma_lines_close(t: Seq<char>, cur: Seq<char>)
    requires
        t.len() > 0,
        t.last() != '\n',
    ensures
        lines_from(t.push('\n'), cur) == lines_from(t, cur),
    decreases t.len(),
{
    assert(t.push('\n')[0] == t[0]);
    assert(t.push('\n').drop_first() =~= t.drop_first().push('\n'));
    if t.len() == 1 {
        let c2 = cur.push(t[0]);
        assert(t.drop_first() =~= Seq::<char>::empty());
        assert(seq!['\n'].drop_first() =~= Seq::<char>::empty());
        assert(t.drop_first().push('\n') =~= seq!['\n']);
        lemma_lines_newline(c2);
        assert(lines_from(t.drop_first(), c2) == seq![c2]);
    } else {
        if t[0] == '\n' {
            lemma_lines_close(t.drop_first(), Seq::empty());
        } else {
            lemma_lines_close(t.drop_first(), cur.push(t[0]));
        }
    }
}

proof fn lemma_line_alone(l: Seq<char>, cur: Seq<char>)
    requires
        forall|i: int| 0 <= i < l.len() ==> #[trigger] l[i] != '\n',
    ensures
        lines_from(l + seq!['\n'], cur) == seq![cur + l],
    decreases l.len(),
{
    if l.len() == 0 {
        assert(l + seq!['\n'] =~= seq!['\n']);
        assert(seq!['\n'].drop_first() =~= Seq::<char>::empty());
        assert(cur + l =~= cur);
        lemma_lines_newline(cur);
    } else {
        assert((l + seq!['\n'])[0] == l[0]);
        assert((l + seq!['\n']).drop_first() =~= l.drop_first() + seq!['\n']);
        assert forall|i: int| 0 <= i < l.drop_first().len() implies #[trigger] l.drop_first()[i]
            != '\n' by {
            assert(l.drop_first()[i] == l[i + 1]);
        }
        lemma_line_alone(l.drop_first(), cur.push(l[0]));
        assert(cur.push(l[0]) + l.drop_first() =~= cur + l);
    }
}

/// The lines of a log that is empty or ends with a line break, followed by
/// one more line.
proof fn lemma_lines_then_line(u: Seq<char>, l: Seq<char>)
    requires
        !ends_open(u),
        forall|i: int| 0 <= i < l.len() ==> #[trigger] l[i] != '\n',
    ensures
        lines_of(u + (l + seq!['\n'])) == lines_of(u).push(l),
{
    lemma_line_alone(l, Seq::empty());
    assert(Seq::<char>::empty() + l =~= l);
    if u.len() == 0 {
        assert(u + (l + seq!['\n']) =~= l + seq!['\n']);
        assert(lines_of(u) == Seq::<Seq<char>>::empty());
        assert(lines_of(u).push(l) =~= seq![l]);
    } else {
        lemma_lines_concat(u, l + seq!['\n'], Seq::empty());
        assert(lines_of(u) + seq![l] =~= lines_of(u).push(l));
    }
}

proof fn lemma_record_line_not_blank(m: RecordModel)
    requires
        one_line(m),
    ensures
        !is_blank(record_line(m)),
        parse_spec(record_line(m)) == read_back(m),
        forall|i: int| 0 <= i < record_line(m).len() ==> #[trigger] record_line(m)[i] != '\n',
{
    let line = record_line(m);
    lemma_record_read_back(m);
    lemma_record_line_no_break(m);
    if line.len() > 0 {
        assert(line[line.len() - 1] != '\r');
    }
    assert(line_body(line) == line);
    if line.len() == 0 {
        assert(crate::fields::run(crate::fields::start_state(), line) == Some(
            crate::fields::start_state(),
        ));
    }
}

/// Appending a record that fits on one line to any log, then loading it,
/// gives the records loaded before followed by the record read back (its
/// time in UTC); where its time is no RFC 3339 time, the new line is set
/// aside instead.
pub proof fn lemma_append_then_load_one_line(t: Seq<char>, m: RecordModel)
    requires
        one_line(m),
    ensures
        loaded(lines_of(t + append_text(ends_open(t), m))) == match read_back(m) {
            Ok(n) => loaded(lines_of(t)).push(n),
            Err(_) => loaded(lines_of(t)),
        },
        read_back(m) is Ok ==> rejected(lines_of(t + append_text(ends_open(t), m)))
            == rejected(lines_of(t)),
        read_back(m) is Err ==> rejected(lines_of(t + append_text(ends_open(t), m))).len()
            == rejected(lines_of(t)).len() + 1,
{
    let open = ends_open(t);
    let line = record_line(m);
    let u = t + (if open { seq!['\n'] } else { Seq::<char>::empty() });
    if open {
        assert(u =~= t.push('\n'));
        lemma_lines_close(t, Seq::empty());
    } else {
        assert(u =~= t);
    }
    assert(!ends_open(u));
    lemma_record_line_not_blank(m);
    assert(t + append_text(open, m) =~= u + (line + seq!['\n']));
    lemma_lines_then_line(u, line);
    let ls = lines_of(u).push(line);
    assert(ls.drop_last() =~= lines_of(t));
}

/// Appending a well-formed record to any log, then loading it, gives the
/// records loaded before followed by that record, and sets aside no more
/// lines than before.
pub proof fn lemma_append_then_load(t: Seq<char>, m: RecordModel)
    requires
        well_formed(m),
    ensures
        loaded(lines_of(t + append_text(ends_open(t), m))) == loaded(lines_of(t)).push(m),
        rejected(lines_of(t + append_text(ends_open(t), m))) == rejected(lines_of(t)),
        loaded(lines_of(t + append_text(ends_open(t), m))).last() == m,
{
    lemma_append_then_load_one_line(t, m);
}

proof fn lemma_append_all_closed(t: Seq<char>, ms: Seq<RecordModel>)
    requires
        ms.len() > 0,
    ensures
        !ends_open(append_all(t, ms)),
{
    let before = append_all(t, ms.drop_last());
    let a = append_text(ends_open(before), ms.last());
    assert((before + a).last() == a.last());
}

/// Loading after a sequence of appends of well-formed records gives the
/// records loaded before followed by the appended ones, in the order of the
/// appends; no more lines are set aside than before.
pub proof fn lemma_appends_keep_order(t: Seq<char>, ms: Seq<RecordModel>)
    requires
        forall|i: int| 0 <= i < ms.len() ==> well_formed(#[trigger] ms[i]),
    ensures
        loaded(lines_of(append_all(t, ms))) == loaded(lines_of(t)) + ms,
        rejected(lines_of(append_all(t, ms))) == rejected(lines_of(t)),
    decreases ms.len(),
{
    if ms.len() == 0 {
        assert(loaded(lines_of(t)) + ms =~= loaded(lines_of(t)));
    } else {
        let g = ms.drop_last();
        assert forall|i: int| 0 <= i < g.len() implies well_formed(#[trigger] g[i]) by {
            assert(g[i] == ms[i]);
        }
        lemma_appends_keep_order(t, g);
        assert(well_formed(ms[ms.len() - 1]));
        lemma_append_then_load(append_all(t, g), ms.last());
        assert((loaded(lines_of(t)) + g).push(ms.last()) =~= loaded(lines_of(t)) + ms);
    }
}

/// A log of well-formed records with one malformed line among them (a
/// line that is not blank, holds no line break and is no record) loads as
/// exactly those records, in order, and sets aside that one line alone.
pub proof fn lemma_one_malformed_line(
    before: Seq<RecordModel>,
    bad: Seq<char>,
    after: Seq<RecordModel>,
)
    requires
        forall|i: int| 0 <= i < before.len() ==> well_formed(#[trigger] before[i]),
        forall|i: int| 0 <= i < after.len() ==> well_formed(#[trigger] after[i]),
        forall|i: int| 0 <= i < bad.len() ==> #[trigger] bad[i] != '\n',
        !is_blank(bad),
        parse_spec(bad) is Err,
    ensures
        ({
            let log = append_all(append_all(Seq::empty(), before) + (bad + seq!['\n']), after);
            &&& loaded(lines_of(log)) == before + after
            &&& rejected(lines_of(log)).len() == 1
            &&& rejected(lines_of(log))[0].raw == bad
        }),
{
    let a = append_all(Seq::empty(), before);
    lemma_appends_keep_order(Seq::empty(), before);
    assert(lines_of(Seq::<char>::empty()) == Seq::<Seq<char>>::empty());
    assert(Seq::<RecordModel>::empty() + before =~= before);
    if before.len() > 0 {
        lemma_append_all_closed(Seq::empty(), before);
    }
    lemma_lines_then_line(a, bad);
    let ls = lines_of(a).push(bad);
    assert(ls.drop_last() =~= lines_of(a));
    lemma_appends_keep_order(a + (bad + seq!['\n']), after);
}

} // verus!
