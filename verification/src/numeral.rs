//! Numerals as single-precision numbers print them.
//!
//! A decimal of at most six digits that is neither tiny nor huge survives being
//! read as a single-precision number and printed again, so its printed form is
//! its own in plain notation. What any other numeral prints as, the caller says.
use vstd::prelude::*;
use vstd::string::{StrSliceExecFns, StringExecFns};

use crate::importer::{
    exponent_at, is_float_numeral, is_fraction, reads_as_float, reads_as_fraction, strip_end,
    strip_start,
};
use crate::model::{digits_end, end_of_digits, lemma_digits_end};
use crate::text::{
    digits_number, is_digit, lemma_digits_grow, opt_text, owned, same, slice_string, to_chars, zeros,
};

verus! {

/// The end of the digits of a numeral, the point among them.
pub open spec fn mantissa_end(b: Seq<char>) -> int {
    let i = digits_end(b, 0);
    if i < b.len() && b[i] == '.' {
        digits_end(b, i + 1)
    } else {
        i
    }
}

/// The digits of a numeral, without the point.
pub open spec fn mantissa(b: Seq<char>) -> Seq<char> {
    let i = digits_end(b, 0);
    if i < b.len() && b[i] == '.' {
        b.take(i) + b.subrange(i + 1, mantissa_end(b))
    } else {
        b.take(i)
    }
}

/// The exponent that a numeral states, or zero.
pub open spec fn exponent(b: Seq<char>) -> int {
    let k = mantissa_end(b);
    if k >= b.len() {
        0
    } else if k + 1 < b.len() && b[k + 1] == '-' {
        -(digits_number(b.skip(k + 2))->0 as int)
    } else if k + 1 < b.len() && b[k + 1] == '+' {
        digits_number(b.skip(k + 2))->0 as int
    } else {
        digits_number(b.skip(k + 1))->0 as int
    }
}

/// The digits of a numeral that count: none but zeros are left out at either
/// end.
pub open spec fn significant(b: Seq<char>) -> Seq<char> {
    strip_end(strip_start(mantissa(b), '0'), '0')
}

/// How many of the digits that count stand before the point.
pub open spec fn point(b: Seq<char>) -> int {
    digits_end(b, 0) + exponent(b) - (mantissa(b).len() - strip_start(mantissa(b), '0').len())
}

/// Digits in plain notation, with so many before the point.
pub open spec fn plain_form(sig: Seq<char>, point: int) -> Seq<char> {
    if sig.len() == 0 {
        seq!['0']
    } else if point <= 0 {
        seq!['0', '.'] + zeros(-point) + sig
    } else if point >= sig.len() {
        sig + zeros(point - sig.len())
    } else {
        sig.take(point) + seq!['.'] + sig.skip(point)
    }
}

/// The digits are few enough, and the number neither tiny nor huge.
pub open spec fn is_exact(sig: Seq<char>, point: int) -> bool {
    sig.len() == 0 || (sig.len() <= 6 && -36 <= point <= 38)
}

/// What a numeral prints as, where that can be told from its digits.
pub open spec fn printed(s: Seq<char>) -> Option<Seq<char>> {
    let signed = s.len() > 0 && (s[0] == '+' || s[0] == '-');
    let body = if signed {
        s.drop_first()
    } else {
        s
    };
    if is_fraction(body) && is_exact(significant(body), point(body)) {
        let plain = plain_form(significant(body), point(body));
        Some(
            if signed && s[0] == '-' {
                seq!['-'] + plain
            } else {
                plain
            },
        )
    } else {
        None
    }
}

/// A numeral as it is written, and what it prints as.
pub type Reading = (String, String);

/// What the first reading of a numeral says.
pub open spec fn reading_of(readings: Seq<Reading>, s: Seq<char>, i: int) -> Option<Seq<char>>
    decreases readings.len() - i,
{
    if i < 0 || i >= readings.len() {
        None
    } else if readings[i].0@ == s {
        Some(readings[i].1@)
    } else {
        reading_of(readings, s, i + 1)
    }
}

/// What a numeral prints as: by its digits, else as its reading says.
pub open spec fn shown(readings: Seq<Reading>, s: Seq<char>) -> Option<Seq<char>> {
    match printed(s) {
        Some(t) => Some(t),
        None => reading_of(readings, s, 0),
    }
}

/// A numeral whose digits do not tell what it prints as.
pub open spec fn needs_reading(s: Seq<char>) -> bool {
    is_float_numeral(s) && printed(s) is None
}

/// No exponent that is read is larger.
const LARGE: i128 = 1_000_000_000_000_000_000_000_000_000_000;

/// The number that the digits from `m` on denote, or one that is larger than
/// any length.
fn read_exponent(v: &Vec<char>, m: usize) -> (r: i128)
    requires
        m <= v@.len(),
        digits_number(v@.skip(m as int)) is Some,
    ensures
        0 <= r <= LARGE,
        r < LARGE ==> r == digits_number(v@.skip(m as int))->0,
        r == LARGE ==> digits_number(v@.skip(m as int))->0 >= LARGE,
{
    let ghost d = v@.skip(m as int);
    let mut r: i128 = 0;
    let mut i: usize = m;
    assert(d.take(0) =~= Seq::<char>::empty());
    while i < v.len()
        invariant
            d == v@.skip(m as int),
            digits_number(d) is Some,
            m <= i <= v@.len(),
            0 <= r < LARGE,
            digits_number(d.take(i - m)) == Some(r as nat),
        decreases v@.len() - i,
    {
        let ghost k = i - m;
        proof {
            lemma_digits_grow(d, k + 1);
            assert(d.take(k + 1).drop_last() =~= d.take(k));
            assert(d.take(k + 1).last() == v@[i as int]);
            assert(is_digit(v@[i as int]));
        }
        let c: i128 = (v[i] as u32 - '0' as u32) as i128;
        r = 10 * r + c;
        assert(digits_number(d.take(k + 1)) == Some(r as nat));
        if r >= LARGE {
            return LARGE;
        }
        i = i + 1;
    }
    assert(d.take(i - m) =~= d);
    r
}

proof fn lemma_digits_denote(s: Seq<char>)
    requires
        forall|i: int| 0 <= i < s.len() ==> is_digit(#[trigger] s[i]),
    ensures
        digits_number(s) is Some,
    decreases s.len(),
{
    if s.len() > 0 {
        assert forall|i: int| 0 <= i < s.drop_last().len() implies is_digit(
            #[trigger] s.drop_last()[i],
        ) by {
            assert(s.drop_last()[i] == s[i]);
        }
        lemma_digits_denote(s.drop_last());
        assert(is_digit(s[s.len() - 1]));
    }
}

/// A run of digits that reaches the end denotes a number.
proof fn lemma_run_denotes(s: Seq<char>, m: int)
    requires
        0 <= m <= s.len(),
        digits_end(s, m) == s.len(),
    ensures
        digits_number(s.skip(m)) is Some,
{
    assert forall|i: int| 0 <= i < s.skip(m).len() implies is_digit(#[trigger] s.skip(m)[i]) by {
        lemma_run_digits(s, m, m + i);
    }
    lemma_digits_denote(s.skip(m));
}

proof fn lemma_run_digits(s: Seq<char>, m: int, i: int)
    requires
        0 <= m <= i < digits_end(s, m),
        m <= s.len(),
    ensures
        i < s.len(),
        is_digit(s[i]),
    decreases i - m,
{
    lemma_digits_end(s, m);
    if m < s.len() && is_digit(s[m]) && i > m {
        lemma_run_digits(s, m + 1, i);
    }
}

/// The exponent of a numeral, or one that is larger in size than any length.
fn exponent_of(v: &Vec<char>, k: usize) -> (r: i128)
    requires
        k == mantissa_end(v@),
        k <= v@.len(),
        exponent_at(v@, k as int),
    ensures
        -LARGE <= r <= LARGE,
        -LARGE < r < LARGE ==> r == exponent(v@),
        r == LARGE ==> exponent(v@) >= LARGE,
        r == -LARGE ==> exponent(v@) <= -LARGE,
{
    if k == v.len() {
        return 0;
    }
    if k + 1 < v.len() && (v[k + 1] == '-' || v[k + 1] == '+') {
        proof {
            lemma_run_denotes(v@, k + 2);
        }
        let e = read_exponent(v, k + 2);
        if v[k + 1] == '-' {
            -e
        } else {
            e
        }
    } else {
        proof {
            lemma_run_denotes(v@, k + 1);
        }
        read_exponent(v, k + 1)
    }
}

/// The digits of a numeral, without the point, and where they end.
fn mantissa_of(v: &Vec<char>) -> (r: (Vec<char>, usize))
    ensures
        r.0@ == mantissa(v@),
        r.1 == mantissa_end(v@),
        r.1 <= v@.len(),
{
    let i = end_of_digits(v, 0);
    let mut ds: Vec<char> = Vec::new();
    let mut k: usize = 0;
    while k < i
        invariant
            k <= i <= v@.len(),
            ds@ == v@.take(k as int),
        decreases i - k,
    {
        ds.push(v[k]);
        assert(v@.take(k + 1) =~= v@.take(k as int).push(v@[k as int]));
        k = k + 1;
    }
    if i < v.len() && v[i] == '.' {
        let j = end_of_digits(v, i + 1);
        k = i + 1;
        assert(ds@ =~= v@.take(i as int) + v@.subrange(i + 1, k as int));
        while k < j
            invariant
                i < k <= j <= v@.len(),
                ds@ == v@.take(i as int) + v@.subrange(i + 1, k as int),
            decreases j - k,
        {
            ds.push(v[k]);
            assert(ds@ =~= v@.take(i as int) + v@.subrange(i + 1, k + 1));
            k = k + 1;
        }
        (ds, j)
    } else {
        (ds, i)
    }
}

fn push_zeros(r: &mut String, n: usize)
    ensures
        final(r)@ == old(r)@ + zeros(n as int),
{
    let ghost before = r@;
    let mut i: usize = 0;
    assert(r@ =~= before + zeros(0));
    while i < n
        invariant
            i <= n,
            r@ == before + zeros(i as int),
        decreases n - i,
    {
        r.push('0');
        assert(r@ =~= before + zeros(i + 1));
        i = i + 1;
    }
}

/// Digits in plain notation, with so many before the point.
fn write_plain(sig: &Vec<char>, point: i128) -> (r: String)
    requires
        sig@.len() <= 6,
        -36 <= point <= 38,
    ensures
        r@ == plain_form(sig@, point as int),
{
    let n = sig.len();
    let mut r = String::new();
    assert(r@ =~= Seq::<char>::empty());
    if n == 0 {
        r.push('0');
    } else if point <= 0 {
        r.push('0');
        r.push('.');
        assert(r@ =~= seq!['0', '.']);
        push_zeros(&mut r, (-point) as usize);
        let tail = slice_string(sig, 0, n);
        r.append(tail.as_str());
        assert(tail@ =~= sig@);
    } else if point >= n as i128 {
        let head = slice_string(sig, 0, n);
        r.append(head.as_str());
        assert(r@ =~= sig@);
        push_zeros(&mut r, (point - n as i128) as usize);
    } else {
        let at = point as usize;
        let head = slice_string(sig, 0, at);
        let tail = slice_string(sig, at, n);
        r.append(head.as_str());
        r.push('.');
        r.append(tail.as_str());
        assert(head@ =~= sig@.take(at as int));
        assert(tail@ =~= sig@.skip(at as int));
    }
    assert(r@ =~= plain_form(sig@, point as int));
    r
}

/// What a numeral without a sign prints as, where its digits tell it.
fn print_body(v: &Vec<char>) -> (r: Option<String>)
    requires
        is_fraction(v@),
    ensures
        opt_text(r) == if is_exact(significant(v@), point(v@)) {
            Some(plain_form(significant(v@), point(v@)))
        } else {
            None
        },
{
    let whole = end_of_digits(v, 0);
    let (ds, k) = mantissa_of(v);
    let ghost all = ds@;
    let n = ds.len();
    let mut lo: usize = 0;
    assert(all.subrange(0, n as int) =~= all);
    while lo < n && ds[lo] == '0'
        invariant
            all == ds@,
            n == all.len(),
            lo <= n,
            strip_start(all, '0') == strip_start(all.subrange(lo as int, n as int), '0'),
        decreases n - lo,
    {
        assert(all.subrange(lo as int, n as int).drop_first() =~= all.subrange(lo + 1, n as int));
        lo = lo + 1;
    }
    assert(strip_start(all, '0') == all.subrange(lo as int, n as int));
    let mut hi: usize = n;
    while lo < hi && ds[hi - 1] == '0'
        invariant
            all == ds@,
            n == all.len(),
            lo <= hi <= n,
            strip_end(all.subrange(lo as int, n as int), '0') == strip_end(
                all.subrange(lo as int, hi as int),
                '0',
            ),
        decreases hi,
    {
        assert(all.subrange(lo as int, hi as int).drop_last() =~= all.subrange(lo as int, hi - 1));
        hi = hi - 1;
    }
    assert(significant(v@) == all.subrange(lo as int, hi as int));
    if lo == hi {
        let none: Vec<char> = Vec::new();
        assert(significant(v@) =~= none@);
        assert(plain_form(none@, point(v@)) == plain_form(none@, 0));
        return Some(write_plain(&none, 0));
    }
    if hi - lo > 6 {
        return None;
    }
    let e = exponent_of(v, k);
    let at: i128 = whole as i128 + e - lo as i128;
    if at < -36 || at > 38 {
        return None;
    }
    assert(at == point(v@));
    let mut sig: Vec<char> = Vec::new();
    let mut i: usize = lo;
    while i < hi
        invariant
            all == ds@,
            n == all.len(),
            lo <= i <= hi <= n,
            sig@ == all.subrange(lo as int, i as int),
        decreases hi - i,
    {
        sig.push(ds[i]);
        assert(sig@ =~= all.subrange(lo as int, i + 1));
        i = i + 1;
    }
    Some(write_plain(&sig, at))
}

/// What a numeral prints as, where its digits tell it.
pub fn print_numeral(s: &str) -> (r: Option<String>)
    ensures
        opt_text(r) == printed(s@),
{
    let n = s.unicode_len();
    let signed = n > 0 && (s.get_char(0) == '+' || s.get_char(0) == '-');
    let from: usize = if signed {
        1
    } else {
        0
    };
    let body = s.substring_char(from, n);
    proof {
        if signed {
            assert(body@ =~= s@.drop_first());
        } else {
            assert(body@ =~= s@);
        }
    }
    let v = to_chars(body);
    if !reads_as_fraction(&v) {
        return None;
    }
    match print_body(&v) {
        Some(t) => {
            if signed && s.get_char(0) == '-' {
                let mut r = String::new();
                r.push('-');
                r.append(t.as_str());
                assert(r@ =~= seq!['-'] + t@);
                Some(r)
            } else {
                Some(t)
            }
        },
        None => None,
    }
}

/// What a numeral prints as: by its digits, else as its reading says.
pub fn show_numeral(readings: &Vec<Reading>, s: &str) -> (r: Option<String>)
    ensures
        opt_text(r) == shown(readings@, s@),
{
    match print_numeral(s) {
        Some(t) => {
            return Some(t);
        },
        None => {},
    }
    let mut i: usize = 0;
    while i < readings.len()
        invariant
            i <= readings@.len(),
            reading_of(readings@, s@, 0) == reading_of(readings@, s@, i as int),
            shown(readings@, s@) == reading_of(readings@, s@, 0),
        decreases readings@.len() - i,
    {
        if same(readings[i].0.as_str(), s) {
            return Some(owned(readings[i].1.as_str()));
        }
        i = i + 1;
    }
    None
}

/// Whether the digits of a numeral do not tell what it prints as.
pub fn is_unread(s: &str) -> (r: bool)
    ensures
        r == needs_reading(s@),
{
    reads_as_float(s) && print_numeral(s).is_none()
}

} // verus!
