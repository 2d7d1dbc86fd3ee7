//! Texts: finding, trimming, splitting and counting.
use vstd::prelude::*;

use crate::text::{
    char_is_digit, char_is_space, decimal_of, digits_number, is_space, join, lemma_until, lex_below,
    lines, parse_number_of, split, str_contains, str_find, str_has_prefix, str_has_suffix,
    str_lex_below, str_lines, str_split, str_trim, str_words, texts, trim_end, trim_start, until,
    word_len, words,
};

verus! {

/// A text is found exactly where its characters stand, and first of all places.
pub proof fn law_found_where_it_stands(s: &str, p: &str, at: Option<usize>, c: bool, i: int)
    requires
        call_ensures(str_find, (s, p), at),
        call_ensures(str_contains, (s, p), c),
        0 <= i,
        i + p@.len() <= s@.len(),
        s@.subrange(i, i + p@.len()) == p@,
    ensures
        c,
        at is Some,
        at->0 <= i,
        s@.subrange(at->0 as int, at->0 + p@.len()) == p@,
{
    assert(crate::text::occurs_at(s@, p@, i));
    crate::text::lemma_find_from(s@, p@, 0);
}

/// What is said to be found stands there.
pub proof fn law_not_found_where_it_is_not(s: &str, p: &str, at: Option<usize>, c: bool)
    requires
        call_ensures(str_find, (s, p), at),
        call_ensures(str_contains, (s, p), c),
    ensures
        at is Some <==> c,
        at is Some ==> at->0 + p@.len() <= s@.len() && s@.subrange(
            at->0 as int,
            at->0 + p@.len(),
        ) == p@,
{
    crate::text::lemma_find_contains(s@, p@);
    crate::text::lemma_find_from(s@, p@, 0);
}

/// Beginnings and ends are those of the characters.
pub proof fn law_beginnings_and_ends(s: &str, p: &str, begins: bool, ends: bool, rest: Seq<char>)
    requires
        call_ensures(str_has_prefix, (s, p), begins),
        call_ensures(str_has_suffix, (s, p), ends),
    ensures
        s@ == p@ + rest ==> begins,
        s@ == rest + p@ ==> ends,
        begins ==> p@.len() <= s@.len() && s@ == p@ + s@.skip(p@.len() as int),
        ends ==> p@.len() <= s@.len() && s@ == s@.take(s@.len() - p@.len()) + p@,
{
    if s@ == p@ + rest {
        assert(s@.subrange(0, p@.len() as int) =~= p@);
    }
    if s@ == rest + p@ {
        assert(s@.subrange(s@.len() - p@.len(), s@.len() as int) =~= p@);
    }
    if begins {
        assert(s@.subrange(0, p@.len() as int) == p@);
        assert(s@ =~= p@ + s@.skip(p@.len() as int));
    }
    if ends {
        assert(s@.subrange(s@.len() - p@.len(), s@.len() as int) == p@);
        assert(s@ =~= s@.take(s@.len() - p@.len()) + p@);
    }
}

/// Blanks, tabs and line ends are white space; letters and digits are not.
pub proof fn law_white_space(c: char, r: bool)
    requires
        call_ensures(char_is_space, (c,), r),
    ensures
        c == ' ' || c == '\t' || c == '\n' || c == '\r' ==> r,
        33 <= c as u32 <= 126 ==> !r,
        r ==> 9 <= c as u32 <= 13 || c == ' ' || c as u32 > 126,
{
}

proof fn lemma_trim_start(s: Seq<char>) -> (n: int)
    ensures
        0 <= n <= s.len(),
        trim_start(s) == s.skip(n),
        forall|i: int| 0 <= i < n ==> is_space(#[trigger] s[i]),
        n < s.len() ==> !is_space(s[n]),
    decreases s.len(),
{
    if s.len() > 0 && is_space(s[0]) {
        let m = lemma_trim_start(s.drop_first());
        assert(s.drop_first().skip(m) =~= s.skip(m + 1));
        assert forall|i: int| 0 <= i < m + 1 implies is_space(#[trigger] s[i]) by {
            if i > 0 {
                assert(s.drop_first()[i - 1] == s[i]);
            }
        }
        m + 1
    } else {
        assert(s.skip(0) =~= s);
        0
    }
}

proof fn lemma_trim_end(s: Seq<char>) -> (n: int)
    ensures
        0 <= n <= s.len(),
        trim_end(s) == s.take(n),
        forall|i: int| n <= i < s.len() ==> is_space(#[trigger] s[i]),
        n > 0 ==> !is_space(s[n - 1]),
    decreases s.len(),
{
    if s.len() > 0 && is_space(s.last()) {
        let m = lemma_trim_end(s.drop_last());
        assert(s.drop_last().take(m) =~= s.take(m));
        assert forall|i: int| m <= i < s.len() implies is_space(#[trigger] s[i]) by {
            if i < s.len() - 1 {
                assert(s.drop_last()[i] == s[i]);
            }
        }
        m
    } else {
        assert(s.take(s.len() as int) =~= s);
        s.len() as int
    }
}

/// Trimming takes white space off both ends and nothing else.
pub proof fn law_trimming(s: &str, r: String) -> (cut: (int, int))
    requires
        call_ensures(str_trim, (s,), r),
    ensures
        0 <= cut.0 <= cut.1 <= s@.len(),
        r@ == s@.subrange(cut.0, cut.1),
        forall|i: int| 0 <= i < cut.0 ==> is_space(#[trigger] s@[i]),
        forall|i: int| cut.1 <= i < s@.len() ==> is_space(#[trigger] s@[i]),
        r@.len() > 0 ==> !is_space(r@[0]) && !is_space(r@.last()),
{
    let a = lemma_trim_start(s@);
    let t = trim_start(s@);
    let b = lemma_trim_end(t);
    assert(t.take(b) =~= s@.subrange(a, a + b));
    assert forall|i: int| a + b <= i < s@.len() implies is_space(#[trigger] s@[i]) by {
        assert(t[i - a] == s@[i]);
    }
    if b > 0 {
        assert(t[0] == s@[a]);
        assert(r@.last() == t[b - 1]);
        assert(r@[0] == s@[a]);
    }
    (a, a + b)
}

proof fn lemma_word_len_all(s: Seq<char>)
    requires
        forall|i: int| 0 <= i < s.len() ==> !is_space(#[trigger] s[i]),
    ensures
        word_len(s) == s.len(),
    decreases s.len(),
{
    if s.len() > 0 {
        assert(!is_space(s[0]));
        assert forall|i: int| 0 <= i < s.drop_first().len() implies !is_space(
            #[trigger] s.drop_first()[i],
        ) by {
            assert(s.drop_first()[i] == s[i + 1]);
        }
        lemma_word_len_all(s.drop_first());
    }
}

/// A text without white space is one word; white space parts words and is in
/// none of them.
pub proof fn law_words(a: Seq<char>, c: char, b: Seq<char>)
    requires
        is_space(c),
    ensures
        a.len() > 0 && (forall|i: int| 0 <= i < a.len() ==> !is_space(#[trigger] a[i])) ==> words(a)
            == seq![a],
        words(a.push(c) + b) == words(a) + words(b),
        words(Seq::<char>::empty()).len() == 0,
    decreases a.len(),
{
    if a.len() == 0 {
        let s = a.push(c) + b;
        assert(s[0] == c);
        assert(s.drop_first() =~= b);
        assert(words(a) =~= Seq::<Seq<char>>::empty());
        assert(words(a) + words(b) =~= words(b));
    } else {
        let s = a.push(c) + b;
        if is_space(a[0]) {
            law_words(a.drop_first(), c, b);
            assert(s.drop_first() =~= a.drop_first().push(c) + b);
        } else {
            let n = word_len(a) as int;
            crate::text::lemma_word_len(a);
            lemma_word_len_parted(a, c, b);
            assert(0 < n);
            assert(s[0] == a[0]);
            assert(words(s) == seq![s.take(n)] + words(s.skip(n)));
            assert(words(a) == seq![a.take(n)] + words(a.skip(n)));
            assert(s.take(n) =~= a.take(n));
            if n < a.len() {
                law_words(a.skip(n), c, b);
                assert(s.skip(n) =~= a.skip(n).push(c) + b);
                assert(seq![a.take(n)] + (words(a.skip(n)) + words(b)) =~= (seq![a.take(n)]
                    + words(a.skip(n))) + words(b));
            } else {
                let tail = s.skip(n);
                assert(tail =~= seq![c] + b);
                assert(tail[0] == c);
                assert(tail.drop_first() =~= b);
                assert(words(tail) == words(b));
                assert(a.skip(n) =~= Seq::<char>::empty());
                assert(words(a) =~= seq![a.take(n)]);
                assert(seq![a.take(n)] + words(b) =~= words(a) + words(b));
            }
        }
        if forall|i: int| 0 <= i < a.len() ==> !is_space(#[trigger] a[i]) {
            lemma_word_len_all(a);
            assert(a.take(a.len() as int) =~= a);
            assert(a.skip(a.len() as int) =~= Seq::<char>::empty());
            assert(!is_space(a[0]));
            assert(words(a) =~= seq![a]);
        }
    }
}

proof fn lemma_word_len_parted(a: Seq<char>, c: char, b: Seq<char>)
    requires
        is_space(c),
    ensures
        word_len(a.push(c) + b) == word_len(a),
    decreases a.len(),
{
    if a.len() > 0 && !is_space(a[0]) {
        lemma_word_len_parted(a.drop_first(), c, b);
        assert((a.push(c) + b).drop_first() =~= a.drop_first().push(c) + b);
    }
}

/// The parts of a text have the character in none of them, and put together with
/// it between them they are the text.
pub proof fn law_splitting(s: Seq<char>, c: char)
    ensures
        split(s, c).len() > 0,
        forall|k: int, i: int|
            0 <= k < split(s, c).len() && 0 <= i < split(s, c)[k].len() ==> #[trigger] split(
                s,
                c,
            )[k][i] != c,
        join(split(s, c), seq![c]) == s,
    decreases s.len(),
{
    lemma_until(s, c);
    let n = until(s, c) as int;
    if n < s.len() {
        let rest = split(s.skip(n + 1), c);
        law_splitting(s.skip(n + 1), c);
        let all = split(s, c);
        assert(all =~= seq![s.take(n)] + rest);
        assert forall|k: int, i: int|
            0 <= k < all.len() && 0 <= i < all[k].len() implies #[trigger] all[k][i] != c by {
            if k > 0 {
                assert(all[k] == rest[k - 1]);
                assert(rest[k - 1][i] != c);
            } else {
                assert(all[k][i] == s[i]);
            }
        }
        lemma_join_front(s.take(n), rest, seq![c]);
        assert(s.take(n) + seq![c] + s.skip(n + 1) =~= s);
    } else {
        assert forall|k: int, i: int|
            0 <= k < split(s, c).len() && 0 <= i < split(s, c)[k].len() implies #[trigger] split(
            s,
            c,
        )[k][i] != c by {
            assert(s[i] != c);
        }
    }
}

/// The first of joined texts stands in front.
pub proof fn lemma_join_front(a: Seq<char>, rest: Seq<Seq<char>>, sep: Seq<char>)
    requires
        rest.len() > 0,
    ensures
        join(seq![a] + rest, sep) == a + sep + join(rest, sep),
    decreases rest.len(),
{
    let all = seq![a] + rest;
    assert(all.drop_last() =~= seq![a] + rest.drop_last());
    assert(all.last() == rest.last());
    if rest.len() == 1 {
        assert(all.drop_last() =~= seq![a]);
        assert(join(seq![a], sep) == a);
        assert(join(rest, sep) == rest.last());
        assert(join(all, sep) == join(all.drop_last(), sep) + sep + all.last());
    } else {
        lemma_join_front(a, rest.drop_last(), sep);
        assert(a + sep + join(rest.drop_last(), sep) + sep + rest.last() =~= a + sep + (join(
            rest.drop_last(),
            sep,
        ) + sep + rest.last()));
    }
}

/// A line ends at its line feed, before which a carriage return is left out;
/// the lines of the rest follow.
pub proof fn law_lines(a: Seq<char>, b: Seq<char>)
    requires
        forall|i: int| 0 <= i < a.len() ==> #[trigger] a[i] != '\n',
    ensures
        lines(a.push('\n') + b) == seq![
            if a.len() > 0 && a.last() == '\r' {
                a.drop_last()
            } else {
                a
            },
        ] + lines(b),
        a.len() > 0 ==> lines(a) == seq![a],
        lines(Seq::<char>::empty()).len() == 0,
{
    let s = a.push('\n') + b;
    lemma_until(s, '\n');
    lemma_until(a, '\n');
    let n = until(s, '\n') as int;
    assert(s[a.len() as int] == '\n');
    if n < a.len() {
        assert(s[n] == a[n]);
    }
    if n > a.len() {
        assert(s[a.len() as int] != '\n');
    }
    assert(s.take(n) =~= a);
    assert(s.skip(n + 1) =~= b);
    if until(a, '\n') < a.len() {
        assert(a[until(a, '\n') as int] != '\n');
    }
}

/// The executables give these words, parts and lines.
pub proof fn law_executables_split_so(
    s: &str,
    c: char,
    ws: Vec<String>,
    parts: Vec<String>,
    ls: Vec<String>,
)
    requires
        call_ensures(str_words, (s,), ws),
        call_ensures(str_split, (s, c), parts),
        call_ensures(str_lines, (s,), ls),
    ensures
        texts(ws@) == words(s@),
        texts(parts@) == split(s@, c),
        texts(ls@) == lines(s@),
{
}

/// The numeral of a number below ten is its digit; that of a larger one is the
/// numeral of a tenth of it and its last digit.
pub proof fn law_numerals(n: u64, s: String, tenth: String)
    requires
        call_ensures(decimal_of, (n,), s),
        call_ensures(decimal_of, (n / 10,), tenth),
    ensures
        n < 10 ==> s@.len() == 1 && s@[0] as u32 == 48 + n,
        n >= 10 ==> s@.len() == tenth@.len() + 1 && s@.drop_last() == tenth@ && s@.last() as u32 == 48
            + n % 10,
{
    if n >= 10 {
        assert(s@.drop_last() =~= tenth@);
    }
}

/// A numeral is read digit by digit: one more digit makes it ten times as large
/// and adds the digit. What is not a digit, or would be too large, is refused.
pub proof fn law_reading_numerals(
    a: &str,
    b: &str,
    max: u64,
    ra: Option<u64>,
    rb: Option<u64>,
)
    requires
        call_ensures(parse_number_of, (a, max), ra),
        call_ensures(parse_number_of, (b, max), rb),
        a@.len() > 0,
        a@[0] != '+',
        b@ == a@.push(b@.last()),
    ensures
        rb is Some ==> ra is Some && 48 <= b@.last() as u32 <= 57 && rb->0 == 10 * ra->0
            + (b@.last() as u32 - 48) && rb->0 <= max,
        ra is Some && 48 <= b@.last() as u32 <= 57 && 10 * ra->0 + (b@.last() as u32 - 48) <= max
            ==> rb is Some,
{
    assert(b@.drop_last() =~= a@);
    assert(b@[0] == a@[0]);
    crate::text::lemma_digits_grow(b@, a@.len() as int);
    assert(b@.take(a@.len() as int) =~= a@);
}

/// A single digit is read as itself; nothing and a lone sign are refused; a plus
/// before a numeral does not matter.
pub proof fn law_reading_short_numerals(
    a: &str,
    b: &str,
    max: u64,
    ra: Option<u64>,
    rb: Option<u64>,
)
    requires
        call_ensures(parse_number_of, (a, max), ra),
        call_ensures(parse_number_of, (b, max), rb),
    ensures
        a@.len() == 0 ==> ra is None,
        a@ == seq!['+'] ==> ra is None,
        a@ == seq!['-'] ==> ra is None,
        a@.len() == 1 && 48 <= a@[0] as u32 <= 57 && a@[0] as u32 - 48 <= max ==> ra == Some(
            (a@[0] as u32 - 48) as u64,
        ),
        b@ == seq!['+'] + a@ && a@.len() > 0 && a@[0] != '+' ==> ra == rb,
{
    if a@ == seq!['-'] {
        assert(!crate::text::is_digit(a@.last()));
    }
    if a@ == seq!['+'] {
        assert(a@.drop_first() =~= Seq::<char>::empty());
    }
    if a@.len() == 1 {
        assert(a@.drop_last() =~= Seq::<char>::empty());
        assert(digits_number(a@.drop_last()) == Some(0nat));
        assert(a@.last() == a@[0]);
    }
    if b@ == seq!['+'] + a@ {
        assert(b@.drop_first() =~= a@);
    }
}

/// Digits are those from zero to nine.
pub proof fn law_digits(c: char, r: bool)
    requires
        call_ensures(char_is_digit, (c,), r),
    ensures
        r <==> 48 <= c as u32 <= 57,
{
}

/// Of two texts with a common beginning the next characters decide which comes
/// first; a beginning comes before what it begins.
pub proof fn law_order_of_texts(p: Seq<char>, x: char, a: Seq<char>, y: char, b: Seq<char>)
    ensures
        (x as u32) < (y as u32) ==> lex_below(p + seq![x] + a, p + seq![y] + b) && !lex_below(
            p + seq![y] + b,
            p + seq![x] + a,
        ),
        lex_below(p, p + seq![x] + a),
        !lex_below(p + seq![x] + a, p),
    decreases p.len(),
{
    let s = p + seq![x] + a;
    let t = p + seq![y] + b;
    if p.len() == 0 {
        assert(s[0] == x && t[0] == y);
    } else {
        law_order_of_texts(p.drop_first(), x, a, y, b);
        assert(s.drop_first() =~= p.drop_first() + seq![x] + a);
        assert(t.drop_first() =~= p.drop_first() + seq![y] + b);
        assert(s[0] == t[0]);
    }
}

/// The executable compares so.
pub proof fn law_executable_compares_so(a: &str, b: &str, r: bool)
    requires
        call_ensures(str_lex_below, (a, b), r),
    ensures
        r == lex_below(a@, b@),
{
}

/// What stands before the first of a character is found so long.
pub proof fn lemma_parted(a: Seq<char>, c: char, b: Seq<char>)
    requires
        !a.contains(c),
    ensures
        until(a + seq![c] + b, c) == a.len(),
        until(a, c) == a.len(),
    decreases a.len(),
{
    let s = a + seq![c] + b;
    if a.len() > 0 {
        assert(s[0] == a[0] && a.contains(a[0]));
        let t = a.drop_first();
        assert(!t.contains(c)) by {
            if t.contains(c) {
                let i = choose|i: int| 0 <= i < t.len() && t[i] == c;
                assert(a[i + 1] == c);
            }
        }
        lemma_parted(t, c, b);
        assert(s.drop_first() =~= t + seq![c] + b);
    } else {
        assert(s[0] == c);
    }
}

} // verus!
