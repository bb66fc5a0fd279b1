//! One line of comma-separated fields. A field that holds a comma, a double
//! quote or a line break is written between double quotes, with each double
//! quote inside doubled.

use vstd::prelude::*;
use crate::text::{chars_of, string_of};

verus! {

/// Where the reader of a line stands within the current field.
#[derive(Clone, Copy)]
pub enum FieldMode {
    /// At the start of a field.
    Start,
    /// Inside a field written without quotes.
    Bare,
    /// Inside a quoted field.
    Quoted,
    /// Just after a double quote inside a quoted field.
    QuoteSeen,
}

/// The reader's state: the fields read so far, the current field, the mode.
pub struct SplitState {
    pub done: Seq<Seq<char>>,
    pub cur: Seq<char>,
    pub mode: FieldMode,
}

pub open spec fn start_state() -> SplitState {
    SplitState { done: Seq::empty(), cur: Seq::empty(), mode: FieldMode::Start }
}

pub open spec fn field_end(st: SplitState) -> SplitState {
    SplitState { done: st.done.push(st.cur), cur: Seq::empty(), mode: FieldMode::Start }
}

pub open spec fn with_char(st: SplitState, c: char, mode: FieldMode) -> SplitState {
    SplitState { done: st.done, cur: st.cur.push(c), mode }
}

pub open spec fn with_mode(st: SplitState, mode: FieldMode) -> SplitState {
    SplitState { done: st.done, cur: st.cur, mode }
}

/// One character read in state `st`; `None` where the line is malformed.
pub open spec fn step(st: SplitState, c: char) -> Option<SplitState> {
    match st.mode {
        FieldMode::Start => if c == '"' {
            Some(with_mode(st, FieldMode::Quoted))
        } else if c == ',' {
            Some(field_end(st))
        } else {
            Some(with_char(st, c, FieldMode::Bare))
        },
        FieldMode::Bare => if c == ',' {
            Some(field_end(st))
        } else {
            Some(with_char(st, c, FieldMode::Bare))
        },
        FieldMode::Quoted => if c == '"' {
            Some(with_mode(st, FieldMode::QuoteSeen))
        } else {
            Some(with_char(st, c, FieldMode::Quoted))
        },
        FieldMode::QuoteSeen => if c == '"' {
            Some(with_char(st, '"', FieldMode::Quoted))
        } else if c == ',' {
            Some(field_end(st))
        } else {
            None
        },
    }
}

/// The characters of `s` read one after another from `st`.
pub open spec fn run(st: SplitState, s: Seq<char>) -> Option<SplitState>
    decreases s.len(),
{
    if s.len() == 0 {
        Some(st)
    } else {
        match step(st, s[0]) {
            Some(t) => run(t, s.drop_first()),
            None => None,
        }
    }
}

/// The end of the line: an open quote makes it malformed.
pub open spec fn finish(st: SplitState) -> Option<Seq<Seq<char>>> {
    match st.mode {
        FieldMode::Quoted => None,
        _ => Some(st.done.push(st.cur)),
    }
}

/// The fields of a line, or `None` where it is malformed.
pub open spec fn split_spec(line: Seq<char>) -> Option<Seq<Seq<char>>> {
    match run(start_state(), line) {
        Some(st) => finish(st),
        None => None,
    }
}

pub open spec fn is_special(c: char) -> bool {
    c == ',' || c == '"' || c == '\n' || c == '\r'
}

pub open spec fn needs_quotes(f: Seq<char>) -> bool {
    exists|i: int| 0 <= i < f.len() && is_special(#[trigger] f[i])
}

pub open spec fn escape_char(c: char) -> Seq<char> {
    if c == '"' {
        seq!['"', '"']
    } else {
        seq![c]
    }
}

/// A field's characters with each double quote doubled.
pub open spec fn escape(f: Seq<char>) -> Seq<char>
    decreases f.len(),
{
    if f.len() == 0 {
        Seq::empty()
    } else {
        escape(f.drop_last()) + escape_char(f.last())
    }
}

/// How one field is written.
pub open spec fn quote_field(f: Seq<char>) -> Seq<char> {
    if needs_quotes(f) {
        seq!['"'] + escape(f) + seq!['"']
    } else {
        f
    }
}

/// How a line of fields is written, without its line break.
pub open spec fn join_fields(fs: Seq<Seq<char>>) -> Seq<char>
    decreases fs.len(),
{
    if fs.len() == 0 {
        Seq::empty()
    } else if fs.len() == 1 {
        quote_field(fs[0])
    } else {
        join_fields(fs.drop_last()) + seq![','] + quote_field(fs.last())
    }
}

pub open spec fn texts(v: Seq<String>) -> Seq<Seq<char>> {
    v.map_values(|x: String| x@)
}

proof fn lemma_run_concat(st: SplitState, a: Seq<char>, b: Seq<char>)
    ensures
        run(st, a + b) == match run(st, a) {
            Some(t) => run(t, b),
            None => None,
        },
    decreases a.len(),
{
    if a.len() > 0 {
        assert((a + b)[0] == a[0]);
        assert((a + b).drop_first() =~= a.drop_first() + b);
        match step(st, a[0]) {
            Some(t) => lemma_run_concat(t, a.drop_first(), b),
            None => {},
        }
    } else {
        assert(a + b =~= b);
    }
}

proof fn lemma_run_one(st: SplitState, c: char)
    ensures
        run(st, seq![c]) == step(st, c),
{
    assert(seq![c].drop_first() =~= Seq::<char>::empty());
    match step(st, c) {
        Some(t) => assert(run(t, Seq::<char>::empty()) == Some(t)),
        None => {},
    }
}

/// A ready state is one from which a comma or the end of the line closes
/// the current field.
pub open spec fn ready(st: SplitState) -> bool {
    match st.mode {
        FieldMode::Quoted => false,
        _ => true,
    }
}

proof fn lemma_run_bare(d: Seq<Seq<char>>, c: Seq<char>, f: Seq<char>)
    requires
        !needs_quotes(f),
    ensures
        run(SplitState { done: d, cur: c, mode: FieldMode::Bare }, f)
            == Some(SplitState { done: d, cur: c + f, mode: FieldMode::Bare }),
    decreases f.len(),
{
    let st = SplitState { done: d, cur: c, mode: FieldMode::Bare };
    if f.len() == 0 {
        assert(c + f =~= c);
    } else {
        let g = f.drop_last();
        assert(!needs_quotes(g)) by {
            assert forall|i: int| 0 <= i < g.len() implies !is_special(#[trigger] g[i]) by {
                assert(g[i] == f[i]);
            }
        }
        lemma_run_bare(d, c, g);
        assert(f =~= g + seq![f.last()]);
        lemma_run_concat(st, g, seq![f.last()]);
        assert(!is_special(f[f.len() - 1]));
        lemma_run_one(SplitState { done: d, cur: c + g, mode: FieldMode::Bare }, f.last());
        assert((c + g).push(f.last()) =~= c + f);
    }
}

proof fn lemma_run_escape(d: Seq<Seq<char>>, c: Seq<char>, f: Seq<char>)
    ensures
        run(SplitState { done: d, cur: c, mode: FieldMode::Quoted }, escape(f))
            == Some(SplitState { done: d, cur: c + f, mode: FieldMode::Quoted }),
    decreases f.len(),
{
    let st = SplitState { done: d, cur: c, mode: FieldMode::Quoted };
    if f.len() == 0 {
        assert(c + f =~= c);
        assert(escape(f) =~= Seq::<char>::empty());
    } else {
        let g = f.drop_last();
        let x = f.last();
        lemma_run_escape(d, c, g);
        lemma_run_concat(st, escape(g), escape_char(x));
        let mid = SplitState { done: d, cur: c + g, mode: FieldMode::Quoted };
        if x == '"' {
            assert(seq!['"', '"'] =~= seq!['"'] + seq!['"']);
            lemma_run_concat(mid, seq!['"'], seq!['"']);
            lemma_run_one(mid, '"');
            lemma_run_one(with_mode(mid, FieldMode::QuoteSeen), '"');
        } else {
            lemma_run_one(mid, x);
        }
        assert((c + g).push(x) =~= c + f);
    }
}

proof fn lemma_run_field(d: Seq<Seq<char>>, f: Seq<char>)
    ensures
        ({
            let r = run(SplitState { done: d, cur: Seq::empty(), mode: FieldMode::Start }, quote_field(f));
            &&& r is Some
            &&& ready(r->0)
            &&& r->0.done == d
            &&& r->0.cur == f
        }),
{
    let st = SplitState { done: d, cur: Seq::empty(), mode: FieldMode::Start };
    if needs_quotes(f) {
        let open = with_mode(st, FieldMode::Quoted);
        lemma_run_concat(st, seq!['"'], escape(f));
        lemma_run_concat(st, seq!['"'] + escape(f), seq!['"']);
        lemma_run_one(st, '"');
        lemma_run_escape(d, Seq::empty(), f);
        assert(Seq::<char>::empty() + f =~= f);
        lemma_run_one(SplitState { done: d, cur: f, mode: FieldMode::Quoted }, '"');
    } else if f.len() == 0 {
    } else {
        assert(!is_special(f[0]));
        assert(f =~= seq![f[0]] + f.drop_first());
        lemma_run_concat(st, seq![f[0]], f.drop_first());
        lemma_run_one(st, f[0]);
        assert(!needs_quotes(f.drop_first())) by {
            assert forall|i: int| 0 <= i < f.drop_first().len() implies !is_special(
                #[trigger] f.drop_first()[i],
            ) by {
                assert(f.drop_first()[i] == f[i + 1]);
            }
        }
        lemma_run_bare(d, seq![f[0]], f.drop_first());
    }
}

proof fn lemma_run_join(fs: Seq<Seq<char>>)
    requires
        fs.len() >= 1,
    ensures
        ({
            let r = run(start_state(), join_fields(fs));
            &&& r is Some
            &&& ready(r->0)
            &&& r->0.done == fs.drop_last()
            &&& r->0.cur == fs.last()
        }),
    decreases fs.len(),
{
    if fs.len() == 1 {
        lemma_run_field(Seq::empty(), fs[0]);
        assert(fs.drop_last() =~= Seq::<Seq<char>>::empty());
    } else {
        let g = fs.drop_last();
        lemma_run_join(g);
        let mid = run(start_state(), join_fields(g))->0;
        lemma_run_concat(start_state(), join_fields(g), seq![',']);
        lemma_run_one(mid, ',');
        lemma_run_concat(start_state(), join_fields(g) + seq![','], quote_field(fs.last()));
        assert(g.drop_last().push(g.last()) =~= g);
        lemma_run_field(g, fs.last());
    }
}

/// Reading a written line gives back its fields.
pub proof fn lemma_split_join(fs: Seq<Seq<char>>)
    requires
        fs.len() >= 1,
    ensures
        split_spec(join_fields(fs)) == Some(fs),
{
    lemma_run_join(fs);
    assert(fs.drop_last().push(fs.last()) =~= fs);
}


fn has_special(f: &[char]) -> (r: bool)
    ensures
        r == needs_quotes(f@),
{
    let mut i: usize = 0;
    while i < f.len()
        invariant
            i <= f@.len(),
            forall|j: int| 0 <= j < i ==> !is_special(#[trigger] f@[j]),
        decreases f.len() - i,
    {
        let c = f[i];
        if c == ',' || c == '"' || c == '\n' || c == '\r' {
            return true;
        }
        i = i + 1;
    }
    false
}

/// Appends the written form of one field to `out`.
fn push_field(f: &[char], out: &mut Vec<char>)
    ensures
        final(out)@ == old(out)@ + quote_field(f@),
{
    if !has_special(f) {
        let mut i: usize = 0;
        while i < f.len()
            invariant
                i <= f@.len(),
                out@ == old(out)@ + f@.take(i as int),
            decreases f.len() - i,
        {
            out.push(f[i]);
            assert(f@.take(i + 1) =~= f@.take(i as int).push(f@[i as int]));
            i = i + 1;
        }
        assert(f@.take(f@.len() as int) =~= f@);
        return;
    }
    out.push('"');
    let mut i: usize = 0;
    while i < f.len()
        invariant
            i <= f@.len(),
            out@ == old(out)@ + seq!['"'] + escape(f@.take(i as int)),
        decreases f.len() - i,
    {
        let c = f[i];
        if c == '"' {
            out.push('"');
            out.push('"');
        } else {
            out.push(c);
        }
        assert(f@.take(i + 1).drop_last() =~= f@.take(i as int));
        assert(out@ =~= old(out)@ + seq!['"'] + escape(f@.take(i + 1)));
        i = i + 1;
    }
    out.push('"');
    assert(f@.take(f@.len() as int) =~= f@);
    assert(out@ =~= old(out)@ + (seq!['"'] + escape(f@) + seq!['"']));
}

/// Writes fields as one line, without its line break.
pub fn join_line(fields: &Vec<String>) -> (r: String)
    ensures
        r@ == join_fields(texts(fields@)),
{
    let mut out: Vec<char> = Vec::new();
    let mut i: usize = 0;
    while i < fields.len()
        invariant
            i <= fields@.len(),
            out@ == join_fields(texts(fields@).take(i as int)),
        decreases fields.len() - i,
    {
        let ghost ts = texts(fields@);
        assert(ts.take(i + 1).drop_last() =~= ts.take(i as int));
        if i > 0 {
            out.push(',');
        }
        let f = chars_of(fields[i].as_str());
        push_field(f.as_slice(), &mut out);
        if i == 0 {
            assert(out@ =~= join_fields(ts.take(1)));
        } else {
            assert(out@ =~= join_fields(ts.take(i + 1)));
        }
        i = i + 1;
    }
    assert(texts(fields@).take(fields@.len() as int) =~= texts(fields@));
    string_of(out.as_slice())
}

/// Splits a line (without its line break) into its fields; `None` where a
/// quoted field is left open or a closing quote is followed by anything but
/// a comma.
pub fn split_line(line: &[char]) -> (r: Option<Vec<String>>)
    ensures
        match r {
            Some(v) => split_spec(line@) == Some(texts(v@)),
            None => split_spec(line@) is None,
        },
{
    let mut done: Vec<String> = Vec::new();
    let mut cur: Vec<char> = Vec::new();
    let mut mode = FieldMode::Start;
    let mut i: usize = 0;
    assert(line@.skip(0) =~= line@);
    assert(texts(done@) =~= Seq::<Seq<char>>::empty());
    assert(SplitState { done: texts(done@), cur: cur@, mode } == start_state());
    while i < line.len()
        invariant
            i <= line@.len(),
            run(start_state(), line@) == run(
                SplitState { done: texts(done@), cur: cur@, mode },
                line@.skip(i as int),
            ),
        decreases line.len() - i,
    {
        let ghost st = SplitState { done: texts(done@), cur: cur@, mode };
        let c = line[i];
        assert(line@.skip(i as int).drop_first() =~= line@.skip(i + 1));
        assert(line@.skip(i as int)[0] == c);
        let close = match mode {
            FieldMode::Start => {
                if c == '"' {
                    mode = FieldMode::Quoted;
                    false
                } else if c == ',' {
                    true
                } else {
                    cur.push(c);
                    mode = FieldMode::Bare;
                    false
                }
            },
            FieldMode::Bare => {
                if c == ',' {
                    true
                } else {
                    cur.push(c);
                    false
                }
            },
            FieldMode::Quoted => {
                if c == '"' {
                    mode = FieldMode::QuoteSeen;
                } else {
                    cur.push(c);
                }
                false
            },
            FieldMode::QuoteSeen => {
                if c == '"' {
                    cur.push('"');
                    mode = FieldMode::Quoted;
                    false
                } else if c == ',' {
                    true
                } else {
                    return None;
                }
            },
        };
        if close {
            let s = string_of(cur.as_slice());
            done.push(s);
            cur = Vec::new();
            mode = FieldMode::Start;
            assert(texts(done@) =~= st.done.push(st.cur));
        }
        assert(step(st, c) == Some(SplitState { done: texts(done@), cur: cur@, mode }));
        i = i + 1;
    }
    assert(line@.skip(i as int) =~= Seq::<char>::empty());
    match mode {
        FieldMode::Quoted => None,
        _ => {
            let ghost st = SplitState { done: texts(done@), cur: cur@, mode };
            let s = string_of(cur.as_slice());
            done.push(s);
            assert(texts(done@) =~= st.done.push(st.cur));
            Some(done)
        },
    }
}

} // verus!
