//! Non-negative decimal numbers held as thousandths, written with three
//! fractional digits.

use vstd::prelude::*;
use crate::text::string_of;

verus! {

pub open spec fn is_digit(c: char) -> bool {
    '0' <= c && c <= '9'
}

pub open spec fn digit_value(c: char) -> nat {
    (c as nat - '0' as nat) as nat
}

pub open spec fn digit_char(d: nat) -> char {
    ((d + '0' as nat) as u8) as char
}

pub open spec fn all_digits(s: Seq<char>) -> bool {
    forall|i: int| 0 <= i < s.len() ==> is_digit(#[trigger] s[i])
}

/// The number that a run of decimal digits denotes.
pub open spec fn digits_value(s: Seq<char>) -> nat
    decreases s.len(),
{
    if s.len() == 0 {
        0
    } else {
        digits_value(s.drop_last()) * 10 + digit_value(s.last())
    }
}

/// The shortest decimal digits of `n`.
pub open spec fn nat_digits(n: nat) -> Seq<char>
    decreases n,
{
    if n < 10 {
        seq![digit_char(n)]
    } else {
        nat_digits(n / 10).push(digit_char(n % 10))
    }
}


/// The three fractional digits of a number of thousandths, read as
/// thousandths; missing trailing digits count as zeros and digits past the
/// third are dropped.
pub open spec fn frac_milli(f: Seq<char>) -> nat {
    (if f.len() > 0 { digit_value(f[0]) * 100 } else { 0 })
        + (if f.len() > 1 { digit_value(f[1]) * 10 } else { 0 })
        + (if f.len() > 2 { digit_value(f[2]) } else { 0 })
}

/// `s` splits at `k` into an integer part, a point, and a fractional
/// part, which are not both empty.
pub open spec fn point_at(s: Seq<char>, k: int) -> bool {
    &&& 0 <= k < s.len()
    &&& s.len() > 1
    &&& s[k] == '.'
    &&& all_digits(s.take(k))
    &&& all_digits(s.skip(k + 1))
}

/// The value, in thousandths, of an unsigned decimal text: `ddd`,
/// `ddd.ddd`, `.ddd` or `ddd.`.
pub open spec fn unsigned_milli(s: Seq<char>) -> Option<nat> {
    if s.len() > 0 && all_digits(s) {
        Some(digits_value(s) * 1000)
    } else if exists|k: int| point_at(s, k) {
        let k = choose|k: int| point_at(s, k);
        Some(digits_value(s.take(k)) * 1000 + frac_milli(s.skip(k + 1)))
    } else {
        None
    }
}

/// The value, in thousandths, of a decimal text: an unsigned one, with or
/// without a leading `+`.
pub open spec fn decimal_milli(s: Seq<char>) -> Option<nat> {
    if s.len() > 0 && s[0] == '+' {
        unsigned_milli(s.drop_first())
    } else {
        unsigned_milli(s)
    }
}

pub open spec fn fitting(v: Option<nat>) -> Option<u64> {
    match v {
        Some(v) => if v <= u64::MAX { Some(v as u64) } else { None },
        None => None,
    }
}

/// How a number of thousandths is written: its integer part, a point, and
/// exactly three fractional digits.
pub open spec fn milli_text(v: nat) -> Seq<char> {
    nat_digits(v / 1000) + seq!['.', digit_char(v / 100 % 10), digit_char(v / 10 % 10), digit_char(v % 10)]
}

/// What `parse_milli` gives for a text: the value, when it is well formed
/// and fits in a `u64`.
pub open spec fn parsed_milli(s: Seq<char>) -> Option<u64> {
    fitting(decimal_milli(s))
}

proof fn lemma_digit_char(d: nat)
    requires
        d < 10,
    ensures
        is_digit(digit_char(d)),
        digit_value(digit_char(d)) == d,
{
}

proof fn lemma_nat_digits(n: nat)
    ensures
        nat_digits(n).len() > 0,
        all_digits(nat_digits(n)),
        digits_value(nat_digits(n)) == n,
    decreases n,
{
    if n < 10 {
        lemma_digit_char(n);
        assert(nat_digits(n).drop_last() =~= Seq::<char>::empty());
        assert(digits_value(Seq::<char>::empty()) == 0);
        assert(digits_value(nat_digits(n)) == n);
    } else {
        lemma_nat_digits(n / 10);
        lemma_digit_char(n % 10);
        let s = nat_digits(n);
        assert(s.drop_last() =~= nat_digits(n / 10));
        assert(s.last() == digit_char(n % 10));
        assert(n == (n / 10) * 10 + n % 10) by (nonlinear_arith);
        assert(digits_value(s) == digits_value(nat_digits(n / 10)) * 10 + digit_value(digit_char(n % 10)));
        assert(all_digits(s)) by {
            assert forall|i: int| 0 <= i < s.len() implies is_digit(#[trigger] s[i]) by {
                if i < s.len() - 1 {
                    assert(s[i] == nat_digits(n / 10)[i]);
                }
            }
        }
    }
}

/// The shortest decimal digits of a number are all digits.
pub proof fn lemma_nat_digits_all(n: nat)
    ensures
        all_digits(nat_digits(n)),
{
    lemma_nat_digits(n);
}

/// Writing a number of thousandths and reading it back gives the number.
pub proof fn lemma_milli_round_trip(v: nat)
    ensures
        decimal_milli(milli_text(v)) == Some(v),
{
    let s = milli_text(v);
    let ip = nat_digits(v / 1000);
    let k = ip.len() as int;
    lemma_nat_digits(v / 1000);
    lemma_digit_char(v / 100 % 10);
    lemma_digit_char(v / 10 % 10);
    lemma_digit_char(v % 10);
    assert(s.take(k) =~= ip);
    let fp = s.skip(k + 1);
    assert(fp =~= seq![digit_char(v / 100 % 10), digit_char(v / 10 % 10), digit_char(v % 10)]);
    assert(point_at(s, k));
    assert(!all_digits(s)) by {
        assert(!is_digit(s[k]));
    }
    assert forall|j: int| point_at(s, j) implies j == k by {
        if j < k {
            assert(s.take(k)[j] == s[j]);
        } else if j > k {
            assert(s.take(j)[k] == s[k]);
        }
    }
    assert(v / 1000 * 1000 + (v / 100 % 10) * 100 + (v / 10 % 10) * 10 + v % 10 == v) by (nonlinear_arith);
}

/// Appends the decimal digits of `n` to `out`.
fn push_digits(n: u64, out: &mut Vec<char>)
    ensures
        final(out)@ == old(out)@ + nat_digits(n as nat),
    decreases n,
{
    if n >= 10 {
        push_digits(n / 10, out);
    }
    let d = (n % 10) as u8;
    out.push((d + 48) as char);
    proof {
        if n < 10 {
            assert(nat_digits(n as nat) == seq![digit_char(n as nat)]);
        }
    }
}

/// The text of a number of thousandths: `milli_string(20000)` is `20.000`.
pub fn milli_string(v: u64) -> (r: String)
    ensures
        r@ == milli_text(v as nat),
{
    let mut out: Vec<char> = Vec::new();
    push_digits(v / 1000, &mut out);
    out.push('.');
    out.push((((v / 100) % 10) as u8 + 48) as char);
    out.push((((v / 10) % 10) as u8 + 48) as char);
    out.push(((v % 10) as u8 + 48) as char);
    assert(out@ =~= milli_text(v as nat));
    string_of(out.as_slice())
}


fn char_digit(c: char) -> (r: Option<u64>)
    ensures
        match r {
            Some(d) => is_digit(c) && d as nat == digit_value(c),
            None => !is_digit(c),
        },
{
    if '0' <= c && c <= '9' {
        Some(((c as u32) - 48) as u64)
    } else {
        None
    }
}

/// Reads a decimal text `ddd`, `ddd.ddd`, `.ddd` or `ddd.`, with or without
/// a leading `+`, as thousandths: fractional digits past the third are
/// dropped. Gives `None` for any other text and for a value that does not
/// fit in a `u64`.
pub fn parse_milli(s: &[char]) -> (r: Option<u64>)
    ensures
        r == parsed_milli(s@),
{
    if s.len() > 0 && s[0] == '+' {
        let mut rest: Vec<char> = Vec::new();
        let mut i: usize = 1;
        while i < s.len()
            invariant
                1 <= i <= s@.len(),
                rest@ == s@.subrange(1, i as int),
            decreases s.len() - i,
        {
            rest.push(s[i]);
            assert(s@.subrange(1, i + 1) =~= s@.subrange(1, i as int).push(s@[i as int]));
            i = i + 1;
        }
        assert(rest@ =~= s@.drop_first());
        parse_unsigned(rest.as_slice())
    } else {
        parse_unsigned(s)
    }
}

fn parse_unsigned(s: &[char]) -> (r: Option<u64>)
    ensures
        r == fitting(unsigned_milli(s@)),
{
    let n = s.len();
    let mut i: usize = 0;
    let mut acc: u64 = 0;
    let mut overflow = false;
    while i < n && '0' <= s[i] && s[i] <= '9'
        invariant
            i <= n == s@.len(),
            all_digits(s@.take(i as int)),
            !overflow ==> acc as nat == digits_value(s@.take(i as int)),
            overflow ==> digits_value(s@.take(i as int)) > u64::MAX,
        decreases n - i,
    {
        let d = ((s[i] as u32) - 48) as u64;
        assert(s@.take(i + 1).drop_last() =~= s@.take(i as int));
        if !overflow {
            if acc <= (u64::MAX - d) / 10 {
                acc = acc * 10 + d;
            } else {
                overflow = true;
            }
        }
        i = i + 1;
    }
    let k = i;
    let ghost sv = s@;
    if n == 0 {
        return None;
    }
    if k == n {
        assert(sv.take(k as int) =~= sv);
        if overflow || acc > u64::MAX / 1000 {
            return None;
        }
        return Some(acc * 1000);
    }
    proof {
        assert(!all_digits(sv)) by {
            assert(!is_digit(sv[k as int]));
        }
        assert forall|j: int| point_at(sv, j) implies j == k by {
            if j < k {
                assert(sv.take(k as int)[j] == sv[j]);
            } else if j > k {
                assert(sv.take(j)[k as int] == sv[k as int]);
            }
        }
    }
    if s[k] != '.' || n == 1 {
        return None;
    }
    let mut j: usize = k + 1;
    let mut frac: u64 = 0;
    while j < n
        invariant
            k + 1 <= j <= n == sv.len(),
            sv == s@,
            !all_digits(sv),
            forall|x: int| point_at(sv, x) ==> x == k,
            all_digits(sv.skip(k + 1).take(j - k - 1)),
            frac as nat == frac_milli(sv.skip(k + 1).take(j - k - 1)),
        decreases n - j,
    {
        let d = match char_digit(s[j]) {
            Some(d) => d,
            None => {
                proof {
                    assert(sv.skip(k + 1)[j - k - 1] == sv[j as int]);
                    assert(!point_at(sv, k as int));
                }
                return None;
            },
        };
        let ghost f = sv.skip(k + 1).take(j - k - 1);
        let ghost f2 = sv.skip(k + 1).take(j - k);
        assert(f2 =~= f.push(sv[j as int]));
        if j - k == 1 {
            frac = d * 100;
        } else if j - k == 2 {
            frac = frac + d * 10;
        } else if j - k == 3 {
            frac = frac + d;
        }
        j = j + 1;
    }
    assert(sv.skip(k + 1).take(n - k - 1) =~= sv.skip(k + 1));
    assert(point_at(sv, k as int));
    if overflow || acc > u64::MAX / 1000 || acc * 1000 > u64::MAX - frac {
        return None;
    }
    Some(acc * 1000 + frac)
}

} // verus!
