//! Time series of one speed, read from comma-separated text whose first
//! line names the columns: the `timestamp` and `speed` columns are taken,
//! wherever they stand, and a row that does not fit is skipped.

use vstd::prelude::*;
use crate::decimal::{parse_milli, parsed_milli};
use crate::fields::{split_line, split_spec, texts};
use crate::record::line_body;
use crate::store::{is_blank, lines_of, text_lines};
use crate::text::chars_of;

verus! {

/// One point of the series; the speed is in thousandths.
#[derive(Debug)]
pub struct SpeedData {
    pub timestamp: String,
    pub speed: u64,
}

pub struct SpeedDataModel {
    pub timestamp: Seq<char>,
    pub speed: u64,
}

impl View for SpeedData {
    type V = SpeedDataModel;

    open spec fn view(&self) -> SpeedDataModel {
        SpeedDataModel { timestamp: self.timestamp@, speed: self.speed }
    }
}

pub open spec fn timestamp_name() -> Seq<char> {
    seq!['t', 'i', 'm', 'e', 's', 't', 'a', 'm', 'p']
}

pub open spec fn speed_name() -> Seq<char> {
    seq!['s', 'p', 'e', 'e', 'd']
}

/// The first column of header `h` that is called `name`.
pub open spec fn column_of(h: Seq<Seq<char>>, name: Seq<char>) -> Option<int>
    decreases h.len(),
{
    if h.len() == 0 {
        None
    } else {
        match column_of(h.drop_last(), name) {
            Some(i) => Some(i),
            None => if h.last() == name {
                Some(h.len() - 1)
            } else {
                None
            },
        }
    }
}

/// Why a row was skipped.
#[derive(Clone, Copy, PartialEq, Eq, Structural, Debug)]
pub enum SkipCause {
    /// The header line could not be read, so no row can be.
    Header,
    /// A quoted field is left open, or a closing quote is followed by more text.
    Quoting,
    /// The row does not hold as many fields as the header.
    FieldCount,
    /// The header names no `timestamp` or no `speed` column.
    MissingColumn,
    /// The speed is no decimal number.
    Speed,
}

/// What a row holds under header `h` (`None` where the header line could
/// not be read), or why it is skipped.
pub open spec fn row_spec(h: Option<Seq<Seq<char>>>, line: Seq<char>) -> Result<SpeedDataModel, SkipCause> {
    match h {
        None => Err(SkipCause::Header),
        Some(h) => match split_spec(line_body(line)) {
            None => Err(SkipCause::Quoting),
            Some(fs) => if fs.len() != h.len() {
                Err(SkipCause::FieldCount)
            } else {
                match (column_of(h, timestamp_name()), column_of(h, speed_name())) {
                    (Some(ti), Some(si)) => match parsed_milli(fs[si]) {
                        Some(v) => Ok(SpeedDataModel { timestamp: fs[ti], speed: v }),
                        None => Err(SkipCause::Speed),
                    },
                    _ => Err(SkipCause::MissingColumn),
                }
            },
        },
    }
}

/// The points of the rows, in order; blank lines and skipped rows are left
/// out.
pub open spec fn rows_spec(h: Option<Seq<Seq<char>>>, lines: Seq<Seq<char>>) -> Seq<SpeedDataModel>
    decreases lines.len(),
{
    if lines.len() == 0 {
        Seq::empty()
    } else {
        let before = rows_spec(h, lines.drop_last());
        if !is_blank(lines.last()) && row_spec(h, lines.last()) is Ok {
            before.push(row_spec(h, lines.last())->Ok_0)
        } else {
            before
        }
    }
}

/// A skipped row: its line number (from 1), its text and why.
pub struct SkipModel {
    pub line_number: int,
    pub raw: Seq<char>,
    pub cause: SkipCause,
}

/// The rows that are neither blank nor points, in order; `first` is the
/// line number of the first of `lines`.
pub open spec fn skipped_spec(h: Option<Seq<Seq<char>>>, lines: Seq<Seq<char>>, first: int) -> Seq<SkipModel>
    decreases lines.len(),
{
    if lines.len() == 0 {
        Seq::empty()
    } else {
        let before = skipped_spec(h, lines.drop_last(), first);
        let line = lines.last();
        if !is_blank(line) && row_spec(h, line) is Err {
            before.push(
                SkipModel { line_number: first + lines.len() - 1, raw: line, cause: row_spec(h, line)->Err_0 },
            )
        } else {
            before
        }
    }
}

/// `j` is the first line that is not blank: the header.
pub open spec fn header_at(lines: Seq<Seq<char>>, j: int) -> bool {
    &&& 0 <= j < lines.len()
    &&& !is_blank(lines[j])
    &&& forall|x: int| 0 <= x < j ==> is_blank(#[trigger] lines[x])
}

/// The points of a text and the rows it skips; a text with no header line
/// holds neither.
pub open spec fn speed_report_spec(t: Seq<char>) -> (Seq<SpeedDataModel>, Seq<SkipModel>) {
    let ls = lines_of(t);
    if exists|j: int| header_at(ls, j) {
        let j = choose|j: int| header_at(ls, j);
        let h = split_spec(line_body(ls[j]));
        (rows_spec(h, ls.skip(j + 1)), skipped_spec(h, ls.skip(j + 1), j + 2))
    } else {
        (Seq::empty(), Seq::empty())
    }
}

/// A row that was skipped.
#[derive(Debug)]
pub struct SkippedRow {
    pub line_number: usize,
    pub raw: String,
    pub cause: SkipCause,
}

impl View for SkippedRow {
    type V = SkipModel;

    open spec fn view(&self) -> SkipModel {
        SkipModel { line_number: self.line_number as int, raw: self.raw@, cause: self.cause }
    }
}

pub open spec fn skip_models(v: Seq<SkippedRow>) -> Seq<SkipModel> {
    v.map_values(|r: SkippedRow| r@)
}

/// The points read from a text, in order, and the rows skipped.
pub struct SpeedDataReport {
    pub rows: Vec<SpeedData>,
    pub skipped: Vec<SkippedRow>,
}

pub open spec fn data_models(v: Seq<SpeedData>) -> Seq<SpeedDataModel> {
    v.map_values(|d: SpeedData| d@)
}

fn same_chars(a: &[char], b: &[char]) -> (r: bool)
    ensures
        r == (a@ == b@),
{
    if a.len() != b.len() {
        return false;
    }
    let mut i: usize = 0;
    while i < a.len()
        invariant
            i <= a@.len() == b@.len(),
            forall|j: int| 0 <= j < i ==> a@[j] == b@[j],
        decreases a.len() - i,
    {
        if a[i] != b[i] {
            return false;
        }
        i = i + 1;
    }
    assert(a@ =~= b@);
    true
}

fn find_column(h: &Vec<String>, name: &[char]) -> (r: Option<usize>)
    ensures
        match r {
            Some(i) => column_of(texts(h@), name@) == Some(i as int),
            None => column_of(texts(h@), name@) is None,
        },
{
    let ghost hs = texts(h@);
    let mut i: usize = 0;
    assert(hs.take(0) =~= Seq::<Seq<char>>::empty());
    while i < h.len()
        invariant
            i <= h@.len(),
            hs == texts(h@),
            column_of(hs.take(i as int), name@) is None,
        decreases h.len() - i,
    {
        assert(hs.take(i + 1).drop_last() =~= hs.take(i as int));
        let cs = chars_of(h[i].as_str());
        if same_chars(cs.as_slice(), name) {
            proof {
                lemma_column_prefix(hs, i as int + 1, name@);
            }
            return Some(i);
        }
        i = i + 1;
    }
    assert(hs.take(h@.len() as int) =~= hs);
    None
}

proof fn lemma_column_prefix(h: Seq<Seq<char>>, k: int, name: Seq<char>)
    requires
        0 < k <= h.len(),
        column_of(h.take(k), name) is Some,
    ensures
        column_of(h, name) == column_of(h.take(k), name),
    decreases h.len() - k,
{
    if k < h.len() {
        assert(h.take(k + 1).drop_last() =~= h.take(k));
        lemma_column_prefix(h, k + 1, name);
        assert(h.take(k + 1).drop_last() =~= h.take(k));
    } else {
        assert(h.take(k) =~= h);
    }
}

proof fn lemma_column_range(h: Seq<Seq<char>>, name: Seq<char>)
    requires
        column_of(h, name) is Some,
    ensures
        0 <= column_of(h, name)->0 < h.len(),
    decreases h.len(),
{
    if column_of(h.drop_last(), name) is Some {
        lemma_column_range(h.drop_last(), name);
    }
}

fn is_blank_text(s: &str) -> (r: bool)
    ensures
        r == is_blank(s@),
{
    let cs = chars_of(s);
    is_blank_line(cs.as_slice())
}

fn is_blank_line(line: &[char]) -> (r: bool)
    ensures
        r == is_blank(line@),
{
    line.len() == 0 || (line.len() == 1 && line[0] == '\r')
}

fn row_of(
    h: &Option<Vec<String>>,
    ti: Option<usize>,
    si: Option<usize>,
    line: &[char],
    Ghost(hs): Ghost<Option<Seq<Seq<char>>>>,
) -> (r: Result<SpeedData, SkipCause>)
    requires
        match h {
            Some(v) => hs == Some(texts(v@)),
            None => hs is None,
        },
        hs matches Some(hv) ==> match ti {
            Some(x) => column_of(hv, timestamp_name()) == Some(x as int) && x < hv.len(),
            None => column_of(hv, timestamp_name()) is None,
        },
        hs matches Some(hv) ==> match si {
            Some(x) => column_of(hv, speed_name()) == Some(x as int) && x < hv.len(),
            None => column_of(hv, speed_name()) is None,
        },
    ensures
        match r {
            Ok(d) => row_spec(hs, line@) == Ok::<SpeedDataModel, SkipCause>(d@),
            Err(c) => row_spec(hs, line@) == Err::<SpeedDataModel, SkipCause>(c),
        },
{
    let header = match h {
        Some(v) => v,
        None => return Err(SkipCause::Header),
    };
    let mut cs: Vec<char> = Vec::new();
    let mut i: usize = 0;
    while i < line.len()
        invariant
            i <= line@.len(),
            cs@ == line@.take(i as int),
        decreases line.len() - i,
    {
        cs.push(line[i]);
        assert(line@.take(i + 1) =~= line@.take(i as int).push(line@[i as int]));
        i = i + 1;
    }
    assert(line@.take(line@.len() as int) =~= line@);
    if cs.len() > 0 && cs[cs.len() - 1] == '\r' {
        cs.pop();
    }
    assert(cs@ == line_body(line@));
    let fs = match split_line(cs.as_slice()) {
        Some(fs) => fs,
        None => return Err(SkipCause::Quoting),
    };
    if fs.len() != header.len() {
        return Err(SkipCause::FieldCount);
    }
    match (ti, si) {
        (Some(t), Some(s)) => {
            assert(texts(fs@)[s as int] == fs@[s as int]@);
            assert(texts(fs@)[t as int] == fs@[t as int]@);
            match parse_milli(chars_of(fs[s].as_str()).as_slice()) {
                Some(v) => Ok(SpeedData { timestamp: fs[t].clone(), speed: v }),
                None => Err(SkipCause::Speed),
            }
        },
        _ => Err(SkipCause::MissingColumn),
    }
}

/// Reads the points that a text holds, and accounts for each row skipped.
pub fn parse_speed_data(text: &str) -> (r: SpeedDataReport)
    ensures
        (data_models(r.rows@), skip_models(r.skipped@)) == speed_report_spec(text@),
{
    let lines = text_lines(text);
    let ghost ls = texts(lines@);
    let mut j: usize = 0;
    while j < lines.len() && is_blank_text(lines[j].as_str())
        invariant
            j <= lines@.len(),
            ls == texts(lines@),
            forall|x: int| 0 <= x < j ==> is_blank(#[trigger] ls[x]),
        decreases lines.len() - j,
    {
        assert(ls[j as int] == lines@[j as int]@);
        j = j + 1;
    }
    let mut rows: Vec<SpeedData> = Vec::new();
    let mut skipped: Vec<SkippedRow> = Vec::new();
    assert(data_models(rows@) =~= Seq::<SpeedDataModel>::empty());
    assert(skip_models(skipped@) =~= Seq::<SkipModel>::empty());
    if j == lines.len() {
        assert forall|x: int| !header_at(ls, x) by {
            if header_at(ls, x) {
                assert(is_blank(ls[x]));
            }
        }
        return SpeedDataReport { rows, skipped };
    }
    assert(ls[j as int] == lines@[j as int]@);
    assert(header_at(ls, j as int));
    assert forall|x: int| header_at(ls, x) implies x == j by {
        if x < j {
            assert(is_blank(ls[x]));
        } else if x > j {
            assert(is_blank(ls[j as int]));
        }
    }
    let mut hc = chars_of(lines[j].as_str());
    if hc.len() > 0 && hc[hc.len() - 1] == '\r' {
        hc.pop();
    }
    assert(hc@ == line_body(ls[j as int]));
    let header = split_line(hc.as_slice());
    let ghost h: Option<Seq<Seq<char>>> = match &header {
        Some(v) => Some(texts(v@)),
        None => None,
    };
    let ghost rest = ls.skip(j + 1);
    let tname = vec!['t', 'i', 'm', 'e', 's', 't', 'a', 'm', 'p'];
    let sname = vec!['s', 'p', 'e', 'e', 'd'];
    assert(tname@ =~= timestamp_name());
    assert(sname@ =~= speed_name());
    let (ti, si) = match &header {
        Some(v) => (find_column(v, tname.as_slice()), find_column(v, sname.as_slice())),
        None => (None, None),
    };
    proof {
        if let Some(hv) = h {
            if ti is Some {
                lemma_column_range(hv, timestamp_name());
            }
            if si is Some {
                lemma_column_range(hv, speed_name());
            }
        }
    }
    let mut k: usize = j + 1;
    assert(rest.take(0) =~= Seq::<Seq<char>>::empty());
    while k < lines.len()
        invariant
            j < k <= lines@.len(),
            ls == texts(lines@),
            rest == ls.skip(j + 1),
            speed_report_spec(text@) == (rows_spec(h, rest), skipped_spec(h, rest, j + 2)),
            match header {
                Some(v) => h == Some(texts(v@)),
                None => h is None,
            },
            h matches Some(hv) ==> match ti {
                Some(x) => column_of(hv, timestamp_name()) == Some(x as int) && x < hv.len(),
                None => column_of(hv, timestamp_name()) is None,
            },
            h matches Some(hv) ==> match si {
                Some(x) => column_of(hv, speed_name()) == Some(x as int) && x < hv.len(),
                None => column_of(hv, speed_name()) is None,
            },
            data_models(rows@) == rows_spec(h, rest.take(k - j - 1)),
            skip_models(skipped@) == skipped_spec(h, rest.take(k - j - 1), j + 2),
        decreases lines.len() - k,
    {
        let ghost part = rest.take(k - j);
        assert(part.drop_last() =~= rest.take(k - j - 1));
        assert(part.last() == ls[k as int]);
        assert(ls[k as int] == lines@[k as int]@);
        let cs = chars_of(lines[k].as_str());
        if !is_blank_line(cs.as_slice()) {
            match row_of(&header, ti, si, cs.as_slice(), Ghost(h)) {
                Ok(d) => {
                    rows.push(d);
                },
                Err(cause) => {
                    skipped.push(SkippedRow { line_number: k + 1, raw: lines[k].clone(), cause });
                },
            }
        }
        assert(data_models(rows@) =~= rows_spec(h, part));
        assert(skip_models(skipped@) =~= skipped_spec(h, part, j + 2));
        k = k + 1;
    }
    assert(rest.take(lines@.len() - j - 1) =~= rest);
    SpeedDataReport { rows, skipped }
}

} // verus!
