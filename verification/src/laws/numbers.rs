//! Numerals, quotes and the integer parts of doubles.
use vstd::arithmetic::power2::pow2;
use vstd::prelude::*;

use crate::importer::{is_fraction, reads_as_float, str_strip, strip_end, strip_start, unquote};
use crate::measure::Measure;
use crate::model::digits_end;
use crate::numeral::{
    mantissa, mantissa_end, plain_form, point, print_numeral, printed, reading_of, show_numeral,
    significant, Reading,
};
use crate::text::{is_digit, opt_text};

verus! {

/// So many of one character.
pub open spec fn many(c: char, n: nat) -> Seq<char> {
    Seq::new(n, |i: int| c)
}

proof fn lemma_strip_start(c: char, n: nat, t: Seq<char>)
    requires
        t.len() == 0 || t[0] != c,
    ensures
        strip_start(many(c, n) + t, c) == t,
    decreases n,
{
    let s = many(c, n) + t;
    if n == 0 {
        assert(s =~= t);
    } else {
        assert(s[0] == c);
        assert(s.drop_first() =~= many(c, (n - 1) as nat) + t);
        lemma_strip_start(c, (n - 1) as nat, t);
    }
}

proof fn lemma_strip_end(c: char, n: nat, t: Seq<char>)
    requires
        t.len() == 0 || t.last() != c,
    ensures
        strip_end(t + many(c, n), c) == t,
    decreases n,
{
    let s = t + many(c, n);
    if n == 0 {
        assert(s =~= t);
    } else {
        assert(s.last() == c);
        assert(s.drop_last() =~= t + many(c, (n - 1) as nat));
        lemma_strip_end(c, (n - 1) as nat, t);
    }
}

/// Stripping takes a character off both ends, however often it stands there,
/// and nothing else.
pub proof fn law_stripping(s: &str, c: char, r: String, n: nat, t: Seq<char>, m: nat)
    requires
        call_ensures(str_strip, (s, c), r),
        s@ == many(c, n) + t + many(c, m),
        t.len() > 0,
        t[0] != c,
        t.last() != c,
    ensures
        r@ == t,
{
    assert(s@ =~= many(c, n) + (t + many(c, m)));
    lemma_strip_start(c, n, t + many(c, m));
    lemma_strip_end(c, m, t);
}

/// Quotes around a text are taken off, the double ones and then the single.
pub proof fn law_unquoting(s: &str, r: String, t: Seq<char>)
    requires
        call_ensures(unquote, (s,), r),
        t.len() > 0,
        t[0] != '"' && t[0] != '\'',
        t.last() != '"' && t.last() != '\'',
    ensures
        s@ == t ==> r@ == t,
        s@ == seq!['"'] + t + seq!['"'] ==> r@ == t,
        s@ == seq!['\''] + t + seq!['\''] ==> r@ == t,
{
    let q = seq!['\''] + t + seq!['\''];
    lemma_strip_start('"', 0, t);
    lemma_strip_end('"', 0, t);
    lemma_strip_start('\'', 0, t);
    lemma_strip_end('\'', 0, t);
    assert(many('"', 0) + t =~= t && t + many('"', 0) =~= t);
    assert(many('\'', 0) + t =~= t && t + many('\'', 0) =~= t);
    let d = seq!['"'] + t + seq!['"'];
    assert(d =~= many('"', 1) + (t + many('"', 1)));
    lemma_strip_start('"', 1, t + many('"', 1));
    lemma_strip_end('"', 1, t);
    lemma_strip_start('"', 0, q);
    lemma_strip_end('"', 0, q);
    assert(many('"', 0) + q =~= q && q + many('"', 0) =~= q);
    assert(q =~= many('\'', 1) + (t + many('\'', 1)));
    lemma_strip_start('\'', 1, t + many('\'', 1));
    lemma_strip_end('\'', 1, t);
}

/// Nothing but digits.
pub open spec fn is_digits(s: Seq<char>) -> bool {
    forall|i: int| 0 <= i < s.len() ==> is_digit(#[trigger] s[i])
}

proof fn lemma_digits_end(a: Seq<char>, b: Seq<char>, s: Seq<char>, i: int)
    requires
        is_digits(a),
        b.len() == 0 || !is_digit(b[0]),
        s == a + b,
        0 <= i <= a.len(),
    ensures
        digits_end(s, i) == a.len(),
    decreases a.len() - i,
{
    if i < a.len() {
        assert(is_digit(a[i]) && s[i] == a[i]);
        lemma_digits_end(a, b, s, i + 1);
    } else if i < s.len() {
        assert(s[i] == b[0]);
    }
}

proof fn lemma_fraction(a: Seq<char>, b: Seq<char>)
    requires
        is_digits(a),
        is_digits(b),
    ensures
        a.len() > 0 ==> is_fraction(a),
        a.len() > 0 || b.len() > 0 ==> is_fraction(a + seq!['.'] + b),
        digits_end(a, 0) == a.len(),
        digits_end(a + seq!['.'] + b, 0) == a.len(),
        digits_end(a + seq!['.'] + b, a.len() as int + 1) == (a + seq!['.'] + b).len(),
{
    let none = Seq::<char>::empty();
    assert(a =~= a + none);
    lemma_digits_end(a, none, a, 0);
    let s = a + seq!['.'] + b;
    assert(s =~= a + (seq!['.'] + b));
    assert(!is_digit('.')) by {
        assert('.' as u32 == 46);
    }
    lemma_digits_end(a, seq!['.'] + b, s, 0);
    assert(s[a.len() as int] == '.');
    lemma_tail(s, a.len() as int + 1);
}

proof fn lemma_tail(s: Seq<char>, i: int)
    requires
        0 <= i <= s.len(),
        forall|k: int| i <= k < s.len() ==> is_digit(#[trigger] s[k]),
    ensures
        digits_end(s, i) == s.len(),
    decreases s.len() - i,
{
    if i < s.len() {
        lemma_tail(s, i + 1);
    }
}

/// Digits are a number, with a point among them or without, with a sign
/// before them or without.
pub proof fn law_what_reads_as_a_number(s: &str, r: bool, a: Seq<char>, b: Seq<char>)
    requires
        call_ensures(reads_as_float, (s,), r),
        is_digits(a),
        is_digits(b),
        a.len() > 0,
    ensures
        s@ == a ==> r,
        s@ == a + seq!['.'] + b ==> r,
        s@ == seq!['-'] + a ==> r,
        s@ == seq!['-'] + (a + seq!['.'] + b) ==> r,
{
    lemma_fraction(a, b);
    assert('+' as u32 == 43 && '-' as u32 == 45);
    assert(is_digit(a[0]));
    if s@ == a + seq!['.'] + b {
        assert(s@[0] == a[0]);
    }
    if s@ == seq!['-'] + a {
        assert(s@.drop_first() =~= a);
    }
    if s@ == seq!['-'] + (a + seq!['.'] + b) {
        assert(s@.drop_first() =~= a + seq!['.'] + b);
    }
}

/// A number of at most six digits that begins and ends with others than zero
/// is printed as it is written.
pub proof fn law_numbers_print_as_written(s: &str, r: Option<String>, a: Seq<char>, b: Seq<char>)
    requires
        call_ensures(print_numeral, (s,), r),
        is_digits(a),
        is_digits(b),
        a.len() > 0,
        b.len() > 0,
        a[0] != '0',
        b.last() != '0',
        a.len() + b.len() <= 6,
    ensures
        s@ == a + seq!['.'] + b ==> opt_text(r) == Some(s@),
        s@ == seq!['-'] + (a + seq!['.'] + b) ==> opt_text(r) == Some(s@),
{
    let t = a + seq!['.'] + b;
    lemma_fraction(a, b);
    let n = a.len() as int;
    assert(t[n] == '.');
    assert(t.take(n) =~= a);
    assert(mantissa_end(t) == t.len());
    assert(t.subrange(n + 1, t.len() as int) =~= b);
    let m = a + b;
    assert(mantissa(t) == m);
    lemma_strip_start('0', 0, m);
    assert(many('0', 0) + m =~= m);
    lemma_strip_end('0', 0, m);
    assert(m.last() == b.last());
    assert(m + many('0', 0) =~= m);
    assert(significant(t) == m);
    assert(point(t) == n);
    assert(m.take(n) =~= a && m.skip(n) =~= b);
    assert(plain_form(m, n) == t);
    assert('+' as u32 == 43 && '-' as u32 == 45);
    assert(is_digit(a[0]));
    assert(t[0] == a[0]);
    if s@ == seq!['-'] + t {
        assert(s@.drop_first() =~= t);
    }
}

proof fn lemma_reading(rs: Seq<Reading>, s: Seq<char>, k: int, i: int)
    requires
        0 <= k <= i < rs.len(),
        rs[i].0@ == s,
        forall|j: int| 0 <= j < i ==> (#[trigger] rs[j]).0@ != s,
    ensures
        reading_of(rs, s, k) == Some(rs[i].1@),
    decreases i - k,
{
    if k < i {
        assert(rs[k].0@ != s);
        lemma_reading(rs, s, k + 1, i);
    }
}

/// A numeral is shown as it prints; where it does not, as it was first read.
pub proof fn law_numerals_are_shown(
    rs: &Vec<Reading>,
    s: &str,
    r: Option<String>,
    p: Option<String>,
    i: int,
)
    requires
        call_ensures(show_numeral, (rs, s), r),
        call_ensures(print_numeral, (s,), p),
    ensures
        p is Some ==> opt_text(r) == opt_text(p),
        p is None && 0 <= i < rs@.len() && rs@[i].0@ == s@ && (forall|j: int|
            0 <= j < i ==> (#[trigger] rs@[j]).0@ != s@) ==> opt_text(r) == Some(rs@[i].1@),
{
    if 0 <= i < rs@.len() && rs@[i].0@ == s@ && (forall|j: int|
        0 <= j < i ==> (#[trigger] rs@[j]).0@ != s@) {
        lemma_reading(rs@, s@, 0, i);
    }
}

/// The integer part of a double: of its digits, as an integer, what the
/// exponent leaves of them; nothing of what is below one, negative or no
/// number.
pub proof fn law_integer_parts(m: Measure, r: u64, e: int, digits: int)
    requires
        call_ensures(Measure::truncate, (m,), r),
        e == m.bits / 0x10_0000_0000_0000,
        digits == 0x10_0000_0000_0000 + m.bits % 0x10_0000_0000_0000,
    ensures
        m.bits >= 0x8000_0000_0000_0000 ==> r == 0,
        e < 1023 ==> r == 0,
        1023 <= e < 1075 ==> r * pow2((1075 - e) as nat) <= digits < (r + 1) * pow2(
            (1075 - e) as nat,
        ),
        e == 1075 ==> r == digits,
        1087 <= e < 2047 ==> r == u64::MAX,
{
    if 1023 <= e < 1075 && m.bits < 0x8000_0000_0000_0000 {
        let k = (1075 - e) as nat;
        vstd::arithmetic::power2::lemma_pow2_pos(k);
        assert(m.exponent() == e);
        assert(m.significand() == digits);
        let p = pow2(k) as int;
        let q = digits / p;
        vstd::arithmetic::div_mod::lemma_fundamental_div_mod(digits, p);
        vstd::arithmetic::div_mod::lemma_mod_bound(digits, p);
        assert(p >= 1);
        assert(0 <= q <= digits) by (nonlinear_arith)
            requires
                p >= 1,
                digits >= 0,
                q == digits / p,
        ;
        assert(r == q);
        assert(q * p == p * q) by (nonlinear_arith);
        assert((q + 1) * p == p * q + p) by (nonlinear_arith);
    }
    if e == 1075 {
        vstd::arithmetic::power2::lemma2_to64();
        assert(m.bits < 0x8000_0000_0000_0000);
        assert(m.exponent() == 1075 && m.significand() == digits);
        let one = pow2(0) as int;
        assert(one == 1);
        assert(digits * one == digits) by (nonlinear_arith)
            requires
                one == 1,
        ;
    }
}

} // verus!
