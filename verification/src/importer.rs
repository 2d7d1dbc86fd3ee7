//! Imports existing launch scripts into loadouts.
//!
//! A script sets shell variables (`MODEL=/path`) and starts an engine with
//! flags that may refer to them (`-m "$MODEL"`).
use vstd::prelude::*;
use vstd::string::{StrSliceExecFns, StringExecFns};

use crate::model::{digits_end, end_of_digits};
use crate::numeral::{is_unread, needs_reading, reading_of, show_numeral, shown, Reading};
use crate::params::{value_of, with_value, Params};
use crate::profile::{default_bin, has_default_flags, Engine, Profile};
use crate::text::{
    ascii_lower, char_is_space, find, has_prefix, is_space, lines, opt_text, owned,
    parse_number, parse_number_of, same, same_ignoring_ascii_case, slice_string, split, str_find,
    str_has_prefix, str_lines, str_split, str_trim, str_words, texts, to_chars, trim, until, words,
};

verus! {

/// What `char::is_alphabetic` of the standard library says of a character.
pub uninterp spec fn alphabetic(c: char) -> bool;

/// `char::is_alphabetic` of the standard library: Unicode's Alphabetic
/// property, of which only the ASCII part is spelled out here.
pub assume_specification[ char::is_alphabetic ](c: char) -> (r: bool)
    ensures
        r == alphabetic(c),
        c as u32 <= 127 ==> r == ('a' as u32 <= c as u32 <= 'z' as u32 || 'A' as u32 <= c as u32
            <= 'Z' as u32),
;

/// The tokens of a script at `i`, after the beginning `cur` of a token, inside
/// or outside of double quotes.
pub open spec fn tokens_from(s: Seq<char>, i: int, cur: Seq<char>, quoted: bool) -> Seq<Seq<char>>
    decreases s.len() - i,
{
    if i < 0 || i >= s.len() {
        if cur.len() > 0 {
            seq![cur]
        } else {
            Seq::empty()
        }
    } else if s[i] == '"' {
        tokens_from(s, i + 1, cur.push(s[i]), !quoted)
    } else if is_space(s[i]) && !quoted {
        if cur.len() > 0 {
            seq![cur] + tokens_from(s, i + 1, Seq::empty(), quoted)
        } else {
            tokens_from(s, i + 1, cur, quoted)
        }
    } else {
        tokens_from(s, i + 1, cur.push(s[i]), quoted)
    }
}

/// The tokens of a script: what stands between white space, where white space
/// inside double quotes separates nothing.
pub open spec fn tokens(s: Seq<char>) -> Seq<Seq<char>> {
    tokens_from(s, 0, Seq::empty(), false)
}

/// Splits a script into tokens.
pub fn tokenize(text: &str) -> (r: Vec<String>)
    ensures
        texts(r@) == tokens(text@),
{
    let v = to_chars(text);
    let mut r: Vec<String> = Vec::new();
    let mut cur = String::new();
    let mut quoted = false;
    let mut i: usize = 0;
    assert(texts(r@) + tokens_from(v@, 0, cur@, quoted) =~= tokens(text@));
    while i < v.len()
        invariant
            v@ == text@,
            i <= v@.len(),
            texts(r@) + tokens_from(v@, i as int, cur@, quoted) == tokens(text@),
        decreases v@.len() - i,
    {
        let c = v[i];
        if c == '"' {
            quoted = !quoted;
            cur.push(c);
        } else if char_is_space(c) && !quoted {
            if !cur.as_str().is_empty() {
                let ghost before = texts(r@);
                let ghost token = cur@;
                r.push(cur);
                cur = String::new();
                assert(texts(r@) =~= before + seq![token]);
                assert(texts(r@) + tokens_from(v@, i + 1, cur@, quoted) =~= before + (seq![token]
                    + tokens_from(v@, i + 1, cur@, quoted)));
            }
        } else {
            cur.push(c);
        }
        i = i + 1;
    }
    let ghost before = texts(r@);
    let ghost token = cur@;
    if !cur.as_str().is_empty() {
        r.push(cur);
        assert(texts(r@) =~= before + seq![token]);
    } else {
        assert(before + Seq::<Seq<char>>::empty() =~= before);
    }
    r
}

/// `s` without the `c` at its start.
pub open spec fn strip_start(s: Seq<char>, c: char) -> Seq<char>
    decreases s.len(),
{
    if s.len() > 0 && s[0] == c {
        strip_start(s.drop_first(), c)
    } else {
        s
    }
}

/// `s` without the `c` at its end.
pub open spec fn strip_end(s: Seq<char>, c: char) -> Seq<char>
    decreases s.len(),
{
    if s.len() > 0 && s.last() == c {
        strip_end(s.drop_last(), c)
    } else {
        s
    }
}

/// `s` without the `c` at either end.
pub open spec fn strip(s: Seq<char>, c: char) -> Seq<char> {
    strip_end(strip_start(s, c), c)
}

/// A string without a character at either end.
pub fn str_strip(s: &str, c: char) -> (r: String)
    ensures
        r@ == strip(s@, c),
{
    let v = to_chars(s);
    let mut lo: usize = 0;
    assert(v@.subrange(0, v@.len() as int) =~= v@);
    while lo < v.len() && v[lo] == c
        invariant
            v@ == s@,
            lo <= v@.len(),
            strip_start(s@, c) == strip_start(v@.subrange(lo as int, v@.len() as int), c),
        decreases v@.len() - lo,
    {
        assert(v@.subrange(lo as int, v@.len() as int).drop_first() =~= v@.subrange(
            lo + 1,
            v@.len() as int,
        ));
        lo = lo + 1;
    }
    let mut hi: usize = v.len();
    while lo < hi && v[hi - 1] == c
        invariant
            lo <= hi <= v@.len(),
            strip_end(v@.subrange(lo as int, v@.len() as int), c) == strip_end(
                v@.subrange(lo as int, hi as int),
                c,
            ),
        decreases hi,
    {
        assert(v@.subrange(lo as int, hi as int).drop_last() =~= v@.subrange(lo as int, hi - 1));
        hi = hi - 1;
    }
    slice_string(&v, lo, hi)
}

/// A token without its quotes.
pub open spec fn unquoted(s: Seq<char>) -> Seq<char> {
    strip(strip(s, '"'), '\'')
}

/// A token without its quotes.
pub fn unquote(s: &str) -> (r: String)
    ensures
        r@ == unquoted(s@),
{
    let inner = str_strip(s, '"');
    str_strip(inner.as_str(), '\'')
}

/// The value that token `i` gives a flag, spelled `pat`: the token after it, or
/// what follows an equals sign.
pub open spec fn value_at(toks: Seq<Seq<char>>, i: int, pat: Seq<char>) -> Option<Seq<char>> {
    if toks[i] == pat {
        if i + 1 < toks.len() {
            Some(unquoted(toks[i + 1]))
        } else {
            None
        }
    } else if has_prefix(toks[i], pat + "="@) {
        Some(unquoted(toks[i].skip((pat + "="@).len() as int)))
    } else {
        None
    }
}

/// The value that the first token at or after `i` gives a flag.
pub open spec fn value_from(toks: Seq<Seq<char>>, flag: Seq<char>, i: int) -> Option<Seq<char>>
    decreases toks.len() - i,
{
    if i < 0 || i >= toks.len() {
        None
    } else {
        match value_at(toks, i, "--"@ + flag) {
            Some(v) => Some(v),
            None => match value_at(toks, i, "-"@ + flag) {
                Some(v) => Some(v),
                None => value_from(toks, flag, i + 1),
            },
        }
    }
}

/// The value that a command line gives a flag.
pub open spec fn flag_value(text: Seq<char>, flag: Seq<char>) -> Option<Seq<char>> {
    value_from(tokens(text), flag, 0)
}

fn token_value(toks: &Vec<String>, i: usize, pat: &str) -> (r: Option<String>)
    requires
        i < toks@.len(),
    ensures
        opt_text(r) == value_at(texts(toks@), i as int, pat@),
{
    let t = toks[i].as_str();
    assert(texts(toks@)[i as int] == t@);
    if same(t, pat) {
        if toks.len() - i > 1 {
            assert(texts(toks@)[i + 1] == toks@[i + 1]@);
            return Some(unquote(toks[i + 1].as_str()));
        }
        return None;
    }
    let mut eq = owned(pat);
    eq.append("=");
    if str_has_prefix(t, eq.as_str()) {
        let n = eq.as_str().unicode_len();
        let len = t.unicode_len();
        let rest = t.substring_char(n, len);
        assert(rest@ =~= t@.skip(n as int));
        return Some(unquote(rest));
    }
    None
}

/// The value that a command line gives a flag: `--flag value`, `-flag value`
/// or with an equals sign. A flag is a whole token.
pub fn extract(text: &str, flag: &str) -> (r: Option<String>)
    ensures
        opt_text(r) == flag_value(text@, flag@),
{
    let toks = tokenize(text);
    let mut long = owned("--");
    long.append(flag);
    let mut short = owned("-");
    short.append(flag);
    let mut i: usize = 0;
    while i < toks.len()
        invariant
            texts(toks@) == tokens(text@),
            long@ == "--"@ + flag@,
            short@ == "-"@ + flag@,
            i <= toks@.len(),
            flag_value(text@, flag@) == value_from(texts(toks@), flag@, i as int),
        decreases toks@.len() - i,
    {
        match token_value(&toks, i, long.as_str()) {
            Some(v) => {
                return Some(v);
            },
            None => {},
        }
        match token_value(&toks, i, short.as_str()) {
            Some(v) => {
                return Some(v);
            },
            None => {},
        }
        i = i + 1;
    }
    None
}

/// The assignment on a line: a name that begins with a letter, and a value.
pub open spec fn assignment_on(line: Seq<char>) -> Option<(Seq<char>, Seq<char>)> {
    let code = split(line, '#')[0];
    let n = until(code, '=') as int;
    if n < code.len() {
        let k = trim(code.take(n));
        if k.len() > 0 && alphabetic(k[0]) {
            Some((k, unquoted(trim(code.skip(n + 1)))))
        } else {
            None
        }
    } else {
        None
    }
}

/// The variables that a list of lines sets; the last assignment counts.
pub open spec fn vars_of_lines(ls: Seq<Seq<char>>) -> Seq<(Seq<char>, Seq<char>)>
    decreases ls.len(),
{
    if ls.len() == 0 {
        Seq::empty()
    } else {
        let rest = vars_of_lines(ls.drop_last());
        match assignment_on(ls.last()) {
            Some((k, v)) => with_value(rest, k, v),
            None => rest,
        }
    }
}

/// The variables that a script sets.
pub open spec fn vars_of(text: Seq<char>) -> Seq<(Seq<char>, Seq<char>)> {
    vars_of_lines(lines(text))
}

fn read_assignment(line: &str) -> (r: Option<(String, String)>)
    ensures
        match r {
            Some((k, v)) => assignment_on(line@) == Some((k@, v@)),
            None => assignment_on(line@) is None,
        },
{
    let parts = str_split(line, '#');
    assert(texts(parts@).len() > 0);
    assert(texts(parts@)[0] == parts@[0]@);
    let code = to_chars(parts[0].as_str());
    let n = crate::text::chars_until(&code, '=', 0);
    assert(code@.skip(0) =~= code@);
    if n == code.len() {
        return None;
    }
    let before = slice_string(&code, 0, n);
    assert(before@ =~= code@.take(n as int));
    let after = slice_string(&code, n + 1, code.len());
    assert(after@ =~= code@.skip(n + 1));
    let k = str_trim(before.as_str());
    if k.as_str().unicode_len() > 0 && k.as_str().get_char(0).is_alphabetic() {
        let v = str_trim(after.as_str());
        Some((k, unquote(v.as_str())))
    } else {
        None
    }
}

/// Collects the variables that a script sets.
pub fn parse_vars(text: &str) -> (r: Params)
    ensures
        r@ == vars_of(text@),
{
    let ls = str_lines(text);
    let ghost all = texts(ls@);
    let mut r = Params::new();
    let mut i: usize = 0;
    assert(all.take(0) =~= Seq::<Seq<char>>::empty());
    while i < ls.len()
        invariant
            all == texts(ls@),
            i <= ls@.len(),
            r@ == vars_of_lines(all.take(i as int)),
        decreases ls@.len() - i,
    {
        assert(all.take(i + 1).drop_last() =~= all.take(i as int));
        assert(all.take(i + 1).last() == ls@[i as int]@);
        match read_assignment(ls[i].as_str()) {
            Some((k, v)) => {
                r.set(k.as_str(), v.as_str());
            },
            None => {},
        }
        i = i + 1;
    }
    assert(all.take(i as int) =~= all);
    r
}

/// A token with the variable that it names resolved.
pub open spec fn resolved(vars: Seq<(Seq<char>, Seq<char>)>, token: Seq<char>) -> Seq<char> {
    if token.len() > 0 && token[0] == '$' {
        match value_of(vars, token.drop_first()) {
            Some(v) => v,
            None => token,
        }
    } else {
        token
    }
}

/// Resolves the variable that a token names.
pub fn resolve(vars: &Params, token: &str) -> (r: String)
    ensures
        r@ == resolved(vars@, token@),
{
    let n = token.unicode_len();
    if n > 0 && token.get_char(0) == '$' {
        let name = token.substring_char(1, n);
        assert(name@ =~= token@.drop_first());
        match vars.get(name) {
            Some(v) => owned(v),
            None => owned(token),
        }
    } else {
        owned(token)
    }
}

/// The exponent of a numeral, at `k`: none, or `e`, an optional sign and
/// digits to the end.
pub open spec fn exponent_at(s: Seq<char>, k: int) -> bool {
    k == s.len() || (0 <= k < s.len() && (s[k] == 'e' || s[k] == 'E') && {
        let m = if k + 1 < s.len() && (s[k + 1] == '+' || s[k + 1] == '-') {
            k + 2
        } else {
            k + 1
        };
        m < s.len() && digits_end(s, m) == s.len()
    })
}

/// A numeral without a sign: digits with a point somewhere, at least one of
/// them, and an exponent.
pub open spec fn is_fraction(s: Seq<char>) -> bool {
    let i = digits_end(s, 0);
    if i < s.len() && s[i] == '.' {
        let j = digits_end(s, i + 1);
        (i > 0 || j > i + 1) && exponent_at(s, j)
    } else {
        i > 0 && exponent_at(s, i)
    }
}

/// A text that reads as a floating-point number.
pub open spec fn is_float_numeral(s: Seq<char>) -> bool {
    let body = if s.len() > 0 && (s[0] == '+' || s[0] == '-') {
        s.drop_first()
    } else {
        s
    };
    is_fraction(body) || ascii_lower(body) == "inf"@ || ascii_lower(body) == "infinity"@
        || ascii_lower(body) == "nan"@
}

fn has_exponent_at(v: &Vec<char>, k: usize) -> (r: bool)
    requires
        k <= v@.len(),
    ensures
        r == exponent_at(v@, k as int),
{
    if k == v.len() {
        return true;
    }
    if v[k] != 'e' && v[k] != 'E' {
        return false;
    }
    let m: usize = if k + 1 < v.len() && (v[k + 1] == '+' || v[k + 1] == '-') {
        k + 2
    } else {
        k + 1
    };
    m < v.len() && end_of_digits(v, m) == v.len()
}

/// Whether the characters are a numeral without a sign.
pub fn reads_as_fraction(v: &Vec<char>) -> (r: bool)
    ensures
        r == is_fraction(v@),
{
    let i = end_of_digits(v, 0);
    if i < v.len() && v[i] == '.' {
        let j = end_of_digits(v, i + 1);
        (i > 0 || j > i + 1) && has_exponent_at(v, j)
    } else {
        i > 0 && has_exponent_at(v, i)
    }
}

/// Lower-casing leaves a word in lower case as it is.
proof fn lemma_lower_words()
    ensures
        ascii_lower("inf"@) == "inf"@,
        ascii_lower("infinity"@) == "infinity"@,
        ascii_lower("nan"@) == "nan"@,
{
    reveal_strlit("inf");
    reveal_strlit("infinity");
    reveal_strlit("nan");
    assert(ascii_lower("inf"@) =~= "inf"@);
    assert(ascii_lower("infinity"@) =~= "infinity"@);
    assert(ascii_lower("nan"@) =~= "nan"@);
}

/// Whether a text reads as a floating-point number.
pub fn reads_as_float(s: &str) -> (r: bool)
    ensures
        r == is_float_numeral(s@),
{
    let n = s.unicode_len();
    let from: usize = if n > 0 && (s.get_char(0) == '+' || s.get_char(0) == '-') {
        1
    } else {
        0
    };
    let body = s.substring_char(from, n);
    proof {
        lemma_lower_words();
        if from == 1 {
            assert(body@ =~= s@.drop_first());
        } else {
            assert(body@ =~= s@);
        }
    }
    reads_as_fraction(&to_chars(body)) || same_ignoring_ascii_case(body, "inf")
        || same_ignoring_ascii_case(body, "infinity") || same_ignoring_ascii_case(body, "nan")
}


/// A flag's value, or what was there before.
pub open spec fn text_or(v: Option<Seq<char>>, before: Seq<char>) -> Seq<char> {
    match v {
        Some(s) => s,
        None => before,
    }
}

/// A flag's value, or what was there before.
pub open spec fn opt_or(v: Option<Seq<char>>, before: Option<Seq<char>>) -> Option<Seq<char>> {
    match v {
        Some(s) => Some(s),
        None => before,
    }
}

/// A flag's number, or what was there before where it is none.
pub open spec fn number_or(v: Option<Seq<char>>, max: nat, before: nat) -> nat {
    match v {
        Some(s) => match parse_number(s, max) {
            Some(n) => n,
            None => before,
        },
        None => before,
    }
}

/// A flag's floating-point numeral as it prints, or what was there before where
/// it is none.
pub open spec fn numeral_or(
    v: Option<Seq<char>>,
    before: Seq<char>,
    readings: Seq<Reading>,
) -> Seq<char> {
    match v {
        Some(s) => if is_float_numeral(s) {
            text_or(shown(readings, s), before)
        } else {
            before
        },
        None => before,
    }
}

/// The numeral of a flag, where its digits do not tell what it prints as.
pub open spec fn unread(v: Option<Seq<char>>) -> Seq<Seq<char>> {
    match v {
        Some(s) => if needs_reading(s) {
            seq![s]
        } else {
            Seq::empty()
        },
        None => Seq::empty(),
    }
}

/// The numerals on a command line of which a reading is needed.
pub open spec fn unread_in(text: Seq<char>) -> Seq<Seq<char>> {
    unread(flag_value(text, "temp"@)) + unread(flag_value(text, "top-p"@))
}

/// The readings hold each numeral of which one is needed.
pub open spec fn readings_cover(readings: Seq<Reading>, text: Seq<char>) -> bool {
    forall|i: int|
        0 <= i < unread_in(text).len() ==> reading_of(
            readings,
            #[trigger] unread_in(text)[i],
            0,
        ) is Some
}

/// The numerals on a command line of which a reading is needed.
pub fn flag_numerals(text: &str) -> (r: Vec<String>)
    ensures
        texts(r@) == unread_in(text@),
{
    let mut r: Vec<String> = Vec::new();
    assert(texts(r@) =~= Seq::<Seq<char>>::empty());
    match extract(text, "temp") {
        Some(s) => {
            if is_unread(s.as_str()) {
                r.push(s);
                assert(texts(r@) =~= seq![s@]);
            }
        },
        None => {},
    }
    let ghost first = texts(r@);
    assert(first == unread(flag_value(text@, "temp"@)));
    assert(first + Seq::<Seq<char>>::empty() =~= first);
    match extract(text, "top-p") {
        Some(s) => {
            if is_unread(s.as_str()) {
                r.push(s);
                assert(texts(r@) =~= first + seq![s@]);
            }
        },
        None => {},
    }
    r
}

/// The profile `q` is `p` with the flags of a command line applied.
pub open spec fn flags_applied(
    p: Profile,
    q: Profile,
    text: Seq<char>,
    readings: Seq<Reading>,
) -> bool {
    let f = |name: Seq<char>| flag_value(text, name);
    &&& q.alias@ == text_or(f("alias"@), p.alias@)
    &&& q.ctx_size == number_or(f("ctx-size"@), u32::MAX as nat, p.ctx_size as nat)
    &&& q.n_gpu_layers == number_or(f("n-gpu-layers"@), u32::MAX as nat, p.n_gpu_layers as nat)
    &&& q.ubatch_size == number_or(f("ubatch-size"@), u32::MAX as nat, p.ubatch_size as nat)
    &&& q.port == number_or(f("port"@), u16::MAX as nat, p.port as nat)
    &&& q.host@ == text_or(f("host"@), p.host@)
    &&& q.temperature@ == numeral_or(f("temp"@), p.temperature@, readings)
    &&& q.top_p@ == numeral_or(f("top-p"@), p.top_p@, readings)
    &&& q.top_k == number_or(f("top-k"@), u32::MAX as nat, p.top_k as nat)
    &&& q.parallel == number_or(f("parallel"@), u32::MAX as nat, p.parallel as nat)
    &&& opt_text(q.load_mode) == opt_or(f("load-mode"@), opt_text(p.load_mode))
    &&& opt_text(q.kv_cache_type_k) == opt_or(f("cache-type-k"@), opt_text(p.kv_cache_type_k))
    &&& opt_text(q.kv_cache_type_v) == opt_or(f("cache-type-v"@), opt_text(p.kv_cache_type_v))
    &&& q.flash_attn == match f("flash-attn"@) {
        Some(v) => v == "on"@,
        None => p.flash_attn,
    }
    &&& opt_text(q.reasoning) == opt_or(f("reasoning"@), opt_text(p.reasoning))
    &&& opt_text(q.reasoning_format) == opt_or(f("reasoning-format"@), opt_text(p.reasoning_format))
    &&& opt_text(q.reasoning_effort) == opt_or(f("reasoning-effort"@), opt_text(p.reasoning_effort))
    &&& q.reasoning_budget == match f("reasoning-budget"@) {
        Some(v) => match parse_number(v, u32::MAX as nat) {
            Some(n) => Some(n as u32),
            None => p.reasoning_budget,
        },
        None => p.reasoning_budget,
    }
    &&& same_other_fields(p, q)
}

/// The fields that a command line does not set are the same.
pub open spec fn same_other_fields(p: Profile, q: Profile) -> bool {
    &&& q.name == p.name
    &&& q.engine == p.engine
    &&& q.runtime_id == p.runtime_id
    &&& q.bin == p.bin
    &&& q.model == p.model
    &&& q.metrics == p.metrics
    &&& q.ctx_ladder == p.ctx_ladder
    &&& q.spec_type == p.spec_type
    &&& q.draft_model == p.draft_model
    &&& q.ft_backend == p.ft_backend
    &&& q.ft_moe_cache_size == p.ft_moe_cache_size
    &&& q.mem_max_mb == p.mem_max_mb
    &&& q.mem_swap_max_mb == p.mem_swap_max_mb
    &&& q.params == p.params
}

fn set_text(field: &mut String, v: Option<String>)
    ensures
        final(field)@ == text_or(opt_text(v), old(field)@),
{
    match v {
        Some(s) => {
            *field = s;
        },
        None => {},
    }
}

fn set_numeral(field: &mut String, v: Option<String>, readings: &Vec<Reading>)
    ensures
        final(field)@ == numeral_or(opt_text(v), old(field)@, readings@),
{
    match v {
        Some(s) => {
            if reads_as_float(s.as_str()) {
                set_text(field, show_numeral(readings, s.as_str()));
            }
        },
        None => {},
    }
}

fn set_opt(field: &mut Option<String>, v: Option<String>)
    ensures
        opt_text(*final(field)) == opt_or(opt_text(v), opt_text(*old(field))),
{
    match v {
        Some(s) => {
            *field = Some(s);
        },
        None => {},
    }
}

fn number_of(v: Option<String>, max: u64, before: u64) -> (r: u64)
    ensures
        r == number_or(opt_text(v), max as nat, before as nat),
        r <= max || r == before,
{
    match v {
        Some(s) => match parse_number_of(s.as_str(), max) {
            Some(n) => n,
            None => before,
        },
        None => before,
    }
}

/// Applies the flags of a command line to a profile. `readings` says what those
/// numerals print as of which the digits do not tell it.
pub fn parse_common(p: &mut Profile, text: &str, readings: &Vec<Reading>)
    requires
        readings_cover(readings@, text@),
    ensures
        flags_applied(*old(p), *final(p), text@, readings@),
{
    set_text(&mut p.alias, extract(text, "alias"));
    p.ctx_size = number_of(extract(text, "ctx-size"), 0xffff_ffff, p.ctx_size as u64) as u32;
    p.n_gpu_layers = number_of(extract(text, "n-gpu-layers"), 0xffff_ffff, p.n_gpu_layers as u64)
        as u32;
    p.ubatch_size = number_of(extract(text, "ubatch-size"), 0xffff_ffff, p.ubatch_size as u64) as u32;
    p.port = number_of(extract(text, "port"), 0xffff, p.port as u64) as u16;
    set_text(&mut p.host, extract(text, "host"));
    set_numeral(&mut p.temperature, extract(text, "temp"), readings);
    set_numeral(&mut p.top_p, extract(text, "top-p"), readings);
    p.top_k = number_of(extract(text, "top-k"), 0xffff_ffff, p.top_k as u64) as u32;
    p.parallel = number_of(extract(text, "parallel"), 0xffff_ffff, p.parallel as u64) as u32;
    set_opt(&mut p.load_mode, extract(text, "load-mode"));
    set_opt(&mut p.kv_cache_type_k, extract(text, "cache-type-k"));
    set_opt(&mut p.kv_cache_type_v, extract(text, "cache-type-v"));
    p.flash_attn = match extract(text, "flash-attn") {
        Some(v) => same(v.as_str(), "on"),
        None => p.flash_attn,
    };
    set_opt(&mut p.reasoning, extract(text, "reasoning"));
    set_opt(&mut p.reasoning_format, extract(text, "reasoning-format"));
    set_opt(&mut p.reasoning_effort, extract(text, "reasoning-effort"));
    p.reasoning_budget = match extract(text, "reasoning-budget") {
        Some(v) => match parse_number_of(v.as_str(), 0xffff_ffff) {
            Some(n) => Some(n as u32),
            None => p.reasoning_budget,
        },
        None => p.reasoning_budget,
    };
}

/// What stands between the first and the second occurrence of `p` in `s`, or
/// after the only one.
pub open spec fn after_first(s: Seq<char>, p: Seq<char>) -> Option<Seq<char>> {
    match find(s, p) {
        Some(i) => {
            let rest = s.skip(i + p.len());
            Some(
                match find(rest, p) {
                    Some(j) => rest.take(j),
                    None => rest,
                },
            )
        },
        None => None,
    }
}

fn part_after_first(s: &str, p: &str) -> (r: Option<String>)
    ensures
        opt_text(r) == after_first(s@, p@),
{
    match str_find(s, p) {
        Some(i) => {
            let n = s.unicode_len();
            let rest = s.substring_char(i + p.unicode_len(), n);
            assert(rest@ =~= s@.skip(i + p@.len()));
            match str_find(rest, p) {
                Some(j) => {
                    let part = rest.substring_char(0, j);
                    assert(part@ =~= rest@.take(j as int));
                    Some(owned(part))
                },
                None => Some(owned(rest)),
            }
        },
        None => None,
    }
}

/// The binary that a script starts: what stands in the first quotes after
/// `exec`.
pub open spec fn started_binary(text: Seq<char>) -> Option<Seq<char>> {
    match after_first(text, "exec"@) {
        Some(s) => after_first(s, "\""@),
        None => None,
    }
}

fn binary_started(text: &str) -> (r: Option<String>)
    ensures
        opt_text(r) == started_binary(text@),
{
    match part_after_first(text, "exec") {
        Some(s) => part_after_first(s.as_str(), "\""),
        None => None,
    }
}

/// The command line of a script: what follows `start`, or all of it.
pub open spec fn command_body(text: Seq<char>, start: Seq<char>) -> Seq<char> {
    match after_first(text, start) {
        Some(s) => s,
        None => text,
    }
}

/// The profile has these values, and otherwise the defaults.
pub open spec fn prepared(
    p: Profile,
    engine: Engine,
    name: Seq<char>,
    bin: Option<Seq<char>>,
    model: Option<Seq<char>>,
    vars: Seq<(Seq<char>, Seq<char>)>,
) -> bool {
    &&& p.engine == engine
    &&& p.name@ == name
    &&& p.bin@ == match bin {
        Some(b) => resolved(vars, b),
        None => default_bin(),
    }
    &&& p.model@ == match model {
        Some(m) => resolved(vars, m),
        None => Seq::empty(),
    }
    &&& has_default_flags(p)
}

/// The profile is that of a llama.cpp launch script: the binary after `exec`,
/// the model and the flags of the command line after it, else the defaults.
pub open spec fn is_llamacpp_import(
    p: Profile,
    text: Seq<char>,
    name: Seq<char>,
    readings: Seq<Reading>,
) -> bool {
    let body = command_body(text, "exec"@);
    exists|q: Profile|
        {
            &&& prepared(
                q,
                Engine::LlamaCpp,
                name,
                started_binary(text),
                flag_value(body, "m"@),
                vars_of(text),
            )
            &&& #[trigger] flags_applied(q, p, body, readings)
        }
}

fn command_of(text: &str, start: &str) -> (r: String)
    ensures
        r@ == command_body(text@, start@),
{
    match part_after_first(text, start) {
        Some(s) => s,
        None => owned(text),
    }
}

/// The numerals of a llama.cpp launch script of which a reading is needed.
pub fn llamacpp_numerals(text: &str) -> (r: Vec<String>)
    ensures
        texts(r@) == unread_in(command_body(text@, "exec"@)),
{
    flag_numerals(command_of(text, "exec").as_str())
}

/// The numerals of a FreeToken launch script of which a reading is needed.
pub fn freetoken_numerals(text: &str) -> (r: Vec<String>)
    ensures
        texts(r@) == unread_in(command_body(text@, "ft serve"@)),
{
    flag_numerals(command_of(text, "ft serve").as_str())
}

/// Reads the launch script of llama.cpp.
pub fn parse_llamacpp_script_text(text: &str, name: &str, readings: &Vec<Reading>) -> (p: Profile)
    requires
        readings_cover(readings@, command_body(text@, "exec"@)),
    ensures
        is_llamacpp_import(p, text@, name@, readings@),
{
    let vars = parse_vars(text);
    let mut p = Profile::default();
    p.name = owned(name);
    p.engine = Engine::LlamaCpp;
    match binary_started(text) {
        Some(b) => {
            p.bin = resolve(&vars, b.as_str());
        },
        None => {},
    }
    let body = command_of(text, "exec");
    match extract(body.as_str(), "m") {
        Some(m) => {
            p.model = resolve(&vars, m.as_str());
        },
        None => {
            assert(p.model@ =~= Seq::<char>::empty());
        },
    }
    let ghost q = p;
    parse_common(&mut p, body.as_str(), readings);
    assert(flags_applied(q, p, body@, readings@));
    p
}

/// The model that a FreeToken command line names: the word after `--model`.
pub open spec fn freetoken_model(body: Seq<char>) -> Option<Seq<char>> {
    match after_first(body, "--model"@) {
        Some(s) => Some(
            if words(s).len() > 0 {
                unquoted(words(s)[0])
            } else {
                unquoted(Seq::empty())
            },
        ),
        None => None,
    }
}

/// The profile is that of a FreeToken launch script.
pub open spec fn is_freetoken_import(
    p: Profile,
    text: Seq<char>,
    name: Seq<char>,
    readings: Seq<Reading>,
) -> bool {
    let body = command_body(text, "ft serve"@);
    exists|q: Profile, r: Profile|
        {
            &&& prepared(
                q,
                Engine::FreeToken,
                name,
                started_binary(text),
                freetoken_model(body),
                vars_of(text),
            )
            &&& #[trigger] flags_applied(q, r, body, readings)
            &&& opt_text(p.ft_backend) == flag_value(text, "moe-backend"@)
            &&& p.ft_moe_cache_size == match flag_value(text, "moe-cache-size"@) {
                Some(v) => match parse_number(v, u32::MAX as nat) {
                    Some(n) => Some(n as u32),
                    None => None,
                },
                None => None,
            }
            &&& p == Profile {
                ft_backend: p.ft_backend,
                ft_moe_cache_size: p.ft_moe_cache_size,
                ..r
            }
        }
}

/// Reads the launch script of FreeToken.
pub fn parse_freetoken_script_text(text: &str, name: &str, readings: &Vec<Reading>) -> (p: Profile)
    requires
        readings_cover(readings@, command_body(text@, "ft serve"@)),
    ensures
        is_freetoken_import(p, text@, name@, readings@),
{
    let vars = parse_vars(text);
    let mut p = Profile::default();
    p.name = owned(name);
    p.engine = Engine::FreeToken;
    let body = command_of(text, "ft serve");
    match part_after_first(body.as_str(), "--model") {
        Some(s) => {
            let ws = str_words(s.as_str());
            let word = if ws.len() > 0 {
                assert(texts(ws@)[0] == ws@[0]@);
                unquote(ws[0].as_str())
            } else {
                unquote(String::new().as_str())
            };
            assert(Some(word@) == freetoken_model(body@));
            p.model = resolve(&vars, word.as_str());
        },
        None => {
            assert(p.model@ =~= Seq::<char>::empty());
        },
    }
    match binary_started(text) {
        Some(b) => {
            p.bin = resolve(&vars, b.as_str());
        },
        None => {},
    }
    let ghost q = p;
    parse_common(&mut p, body.as_str(), readings);
    let ghost r = p;
    set_opt(&mut p.ft_backend, extract(text, "moe-backend"));
    p.ft_moe_cache_size = match extract(text, "moe-cache-size") {
        Some(v) => match parse_number_of(v.as_str(), 0xffff_ffff) {
            Some(n) => Some(n as u32),
            None => p.ft_moe_cache_size,
        },
        None => p.ft_moe_cache_size,
    };
    assert(flags_applied(q, r, body@, readings@));
    p
}

} // verus!
