//! A command line that the deck builds for llama.cpp is read back by the
//! importer.
use vstd::prelude::*;

use crate::engines::unit::{
    engine_args, llama_args, llama_flags, opt_decimal, opt_flag, quoted_arg, shell_text,
};
use crate::importer::{
    flag_value, flags_applied, is_float_numeral, opt_or, strip_end, strip_start,
    tokens, tokens_from, unquoted, value_from,
};
use crate::numeral::{shown, Reading};
use crate::profile::{Engine, Profile};
use crate::text::{
    contains, decimal, has_prefix, is_space, join, law_decimal_round_trip, occurs_at, opt_text,
    replace,
};

verus! {

/// One argument of a command line: a flag, with a value or without.
pub struct Arg {
    /// The flag without its dashes.
    pub name: Seq<char>,
    /// The flag as it is written.
    pub flag: Seq<char>,
    pub value: Option<Seq<char>>,
    /// Whether the argument is there at all.
    pub here: bool,
    /// Whether the importer reads it into a profile.
    pub read: bool,
}

/// An argument that is always there.
pub open spec fn given(name: Seq<char>, v: Seq<char>) -> Arg {
    Arg { name, flag: "--"@ + name, value: Some(v), here: true, read: true }
}

/// An argument that is there where it has a value.
pub open spec fn optional(name: Seq<char>, v: Option<Seq<char>>, read: bool) -> Arg {
    Arg { name, flag: "--"@ + name, value: v, here: v is Some, read }
}

/// The names of the flags of llama.cpp, in order.
pub open spec fn llama_names() -> Seq<Seq<char>> {
    seq![
        "m"@,
        "alias"@,
        "ctx-size"@,
        "n-gpu-layers"@,
        "ubatch-size"@,
        "parallel"@,
        "temp"@,
        "top-p"@,
        "top-k"@,
        "port"@,
        "host"@,
        "metrics"@,
        "flash-attn"@,
        "cache-type-k"@,
        "cache-type-v"@,
        "load-mode"@,
        "spec-type"@,
        "draft-model"@,
        "reasoning"@,
        "reasoning-format"@,
        "reasoning-effort"@,
        "reasoning-budget"@,
    ]
}

/// The arguments of llama.cpp, those that are not there among them.
pub open spec fn llama_list(p: Profile) -> Seq<Arg> {
    seq![
        Arg { name: "m"@, flag: "-m"@, value: Some(p.model@), here: true, read: false },
        given("alias"@, p.alias@),
        given("ctx-size"@, decimal(p.ctx_size as nat)),
        given("n-gpu-layers"@, decimal(p.n_gpu_layers as nat)),
        given("ubatch-size"@, decimal(p.ubatch_size as nat)),
        given("parallel"@, decimal(p.parallel as nat)),
        given("temp"@, p.temperature@),
        given("top-p"@, p.top_p@),
        given("top-k"@, decimal(p.top_k as nat)),
        given("port"@, decimal(p.port as nat)),
        given("host"@, p.host@),
        Arg {
            name: "metrics"@,
            flag: "--"@ + "metrics"@,
            value: None,
            here: p.metrics,
            read: false,
        },
        optional(
            "flash-attn"@,
            if p.flash_attn {
                Some("on"@)
            } else {
                None
            },
            true,
        ),
        optional("cache-type-k"@, opt_text(p.kv_cache_type_k), true),
        optional("cache-type-v"@, opt_text(p.kv_cache_type_v), true),
        optional("load-mode"@, opt_text(p.load_mode), true),
        optional("spec-type"@, opt_text(p.spec_type), false),
        optional("draft-model"@, opt_text(p.draft_model), false),
        optional("reasoning"@, opt_text(p.reasoning), true),
        optional("reasoning-format"@, opt_text(p.reasoning_format), true),
        optional("reasoning-effort"@, opt_text(p.reasoning_effort), true),
        optional("reasoning-budget"@, opt_decimal(p.reasoning_budget), true),
    ]
}

/// The words of an argument.
pub open spec fn words_of(a: Arg) -> Seq<Seq<char>> {
    if !a.here {
        Seq::empty()
    } else {
        match a.value {
            Some(v) => seq![a.flag, v],
            None => seq![a.flag],
        }
    }
}

/// The words of the arguments from `i` on.
pub open spec fn line_from(es: Seq<Arg>, i: int) -> Seq<Seq<char>>
    decreases es.len() - i,
{
    if i < 0 || i >= es.len() {
        Seq::empty()
    } else {
        words_of(es[i]) + line_from(es, i + 1)
    }
}

/// The words as a unit spells them.
pub open spec fn spelled(ws: Seq<Seq<char>>) -> Seq<Seq<char>> {
    Seq::new(ws.len(), |i: int| quoted_arg(ws[i]))
}

/// The word comes back when its spelling is read: it is not empty, has no
/// double quote, no other white space than within what a space puts in quotes,
/// and no single quote at either end.
pub open spec fn keeps(a: Seq<char>) -> bool {
    &&& a.len() > 0
    &&& forall|i: int| 0 <= i < a.len() ==> #[trigger] a[i] != '"'
    &&& contains(a, " "@) || forall|i: int| 0 <= i < a.len() ==> !is_space(#[trigger] a[i])
    &&& a[0] != '\''
    &&& a.last() != '\''
}

/// The token is not taken for a flag.
pub open spec fn silent(tok: Seq<char>, name: Seq<char>) -> bool {
    &&& tok != "--"@ + name
    &&& tok != "-"@ + name
    &&& !has_prefix(tok, "--"@ + name + "="@)
    &&& !has_prefix(tok, "-"@ + name + "="@)
}

/// The values of the arguments come back when their spelling is read.
pub open spec fn values_keep(es: Seq<Arg>) -> bool {
    forall|i: int|
        0 <= i < es.len() && (#[trigger] es[i]).here && es[i].value is Some ==> keeps(
            es[i].value->0,
        )
}

/// The value of argument `i` is not taken for flag `m`: neither before the flag
/// itself comes, nor where it does not come.
pub open spec fn value_silent(es: Seq<Arg>, i: int, m: int) -> bool {
    (i < m || !es[m].here) && es[i].here && es[i].value is Some && es[m].read ==> silent(
        quoted_arg(es[i].value->0),
        es[m].name,
    )
}

/// No value is taken for a flag that the importer looks for.
pub open spec fn values_silent(es: Seq<Arg>) -> bool {
    forall|i: int, m: int|
        0 <= i < es.len() && 0 <= m < es.len() ==> #[trigger] value_silent(es, i, m)
}

/// The name has nothing that would be read in another way.
pub open spec fn clean(name: Seq<char>) -> bool {
    &&& name.len() > 0
    &&& name[0] != '-'
    &&& forall|i: int|
        0 <= i < name.len() ==> #[trigger] name[i] != '=' && name[i] != '"' && name[i] != '\''
            && !is_space(name[i])
}

proof fn lemma_names()
    ensures
        llama_names().len() == 22,
        forall|i: int| 0 <= i < 22 ==> clean(#[trigger] llama_names()[i]),
        forall|i: int, j: int|
            0 <= i < 22 && 0 <= j < 22 && i != j ==> #[trigger] llama_names()[i]
                != #[trigger] llama_names()[j],
{
    let n = llama_names();
    reveal_strlit("m");
    reveal_strlit("alias");
    reveal_strlit("ctx-size");
    reveal_strlit("n-gpu-layers");
    reveal_strlit("ubatch-size");
    reveal_strlit("parallel");
    reveal_strlit("temp");
    reveal_strlit("top-p");
    reveal_strlit("top-k");
    reveal_strlit("port");
    reveal_strlit("host");
    reveal_strlit("metrics");
    reveal_strlit("flash-attn");
    reveal_strlit("cache-type-k");
    reveal_strlit("cache-type-v");
    reveal_strlit("load-mode");
    reveal_strlit("spec-type");
    reveal_strlit("draft-model");
    reveal_strlit("reasoning");
    reveal_strlit("reasoning-format");
    reveal_strlit("reasoning-effort");
    reveal_strlit("reasoning-budget");
    assert(n[0].len() == 1 && n[1].len() == 5 && n[2].len() == 8 && n[3].len() == 12);
    assert(n[4].len() == 11 && n[5].len() == 8 && n[6].len() == 4 && n[7].len() == 5);
    assert(n[8].len() == 5 && n[9].len() == 4 && n[10].len() == 4 && n[11].len() == 7);
    assert(n[12].len() == 10 && n[13].len() == 12 && n[14].len() == 12 && n[15].len() == 9);
    assert(n[16].len() == 9 && n[17].len() == 11 && n[18].len() == 9 && n[19].len() == 16);
    assert(n[20].len() == 16 && n[21].len() == 16);
    assert(n[6][0] == 't' && n[9][0] == 'p' && n[10][0] == 'h');
    assert(n[1][0] == 'a' && n[7][4] == 'p' && n[8][4] == 'k' && n[7][0] == 't' && n[8][0] == 't');
    assert(n[2][0] == 'c' && n[5][0] == 'p');
    assert(n[15][0] == 'l' && n[16][0] == 's' && n[18][0] == 'r');
    assert(n[4][0] == 'u' && n[17][0] == 'd');
    assert(n[3][0] == 'n' && n[13][11] == 'k' && n[14][11] == 'v');
    assert(n[13][0] == 'c' && n[14][0] == 'c');
    assert(n[19][10] == 'f' && n[20][10] == 'e' && n[21][10] == 'b');
    assert(clean(n[0]) && clean(n[1]) && clean(n[2]) && clean(n[3]) && clean(n[4]));
    assert(clean(n[5]) && clean(n[6]) && clean(n[7]) && clean(n[8]) && clean(n[9]));
    assert(clean(n[10]) && clean(n[11]) && clean(n[12]) && clean(n[13]) && clean(n[14]));
    assert(clean(n[15]) && clean(n[16]) && clean(n[17]) && clean(n[18]) && clean(n[19]));
    assert(clean(n[20]) && clean(n[21]));
}

/// A run of characters that ends no token and is no quote joins the token.
proof fn lemma_run(s: Seq<char>, i: int, j: int, cur: Seq<char>, quoted: bool)
    requires
        0 <= i <= j <= s.len(),
        forall|k: int|
            i <= k < j ==> #[trigger] s[k] != '"' && (quoted || !is_space(s[k])),
    ensures
        tokens_from(s, i, cur, quoted) == tokens_from(s, j, cur + s.subrange(i, j), quoted),
    decreases j - i,
{
    if i < j {
        lemma_run(s, i + 1, j, cur.push(s[i]), quoted);
        assert(cur.push(s[i]) + s.subrange(i + 1, j) =~= cur + s.subrange(i, j));
    } else {
        assert(cur + s.subrange(i, j) =~= cur);
    }
}

proof fn lemma_no_quote(a: Seq<char>)
    requires
        forall|i: int| 0 <= i < a.len() ==> #[trigger] a[i] != '"',
    ensures
        !contains(a, "\""@),
        replace(a, "\""@, "\\\""@) == a,
    decreases a.len(),
{
    reveal_strlit("\"");
    assert forall|i: int| !occurs_at(a, "\""@, i) by {
        if occurs_at(a, "\""@, i) {
            assert(a.subrange(i, i + 1)[0] == a[i]);
            assert("\""@[0] == '"');
        }
    }
    if a.len() > 0 {
        assert(!occurs_at(a, "\""@, 0));
        let t = a.drop_first();
        assert forall|i: int| 0 <= i < t.len() implies #[trigger] t[i] != '"' by {
            assert(t[i] == a[i + 1]);
        }
        lemma_no_quote(t);
        assert(seq![a[0]] + t =~= a);
    }
}

/// The spelling of a word that comes back: in quotes, or as it is.
proof fn lemma_spelling(a: Seq<char>)
    requires
        keeps(a),
    ensures
        quoted_arg(a) == if contains(a, " "@) {
            seq!['"'] + a + seq!['"']
        } else {
            a
        },
        quoted_arg(a).len() > 0,
        unquoted(quoted_arg(a)) == a,
{
    lemma_no_quote(a);
    reveal_strlit("\"");
    assert("\""@ =~= seq!['"']);
    let q = quoted_arg(a);
    if contains(a, " "@) {
        assert(q.drop_first() =~= a + seq!['"']);
        assert(strip_start(q, '"') == strip_start(a + seq!['"'], '"'));
        assert((a + seq!['"'])[0] == a[0]);
        assert(strip_start(a + seq!['"'], '"') == a + seq!['"']);
        assert((a + seq!['"']).drop_last() =~= a);
        assert(strip_end(a + seq!['"'], '"') == strip_end(a, '"'));
        assert(strip_end(a, '"') == a);
    } else {
        assert(strip_start(a, '"') == a);
        assert(strip_end(a, '"') == a);
    }
    assert(strip_start(a, '\'') == a);
    assert(strip_end(a, '\'') == a);
}

/// The spelling of a word is one token.
proof fn lemma_one_token(s: Seq<char>, i: int, a: Seq<char>)
    requires
        keeps(a),
        0 <= i,
        i + quoted_arg(a).len() <= s.len(),
        s.subrange(i, i + quoted_arg(a).len()) == quoted_arg(a),
    ensures
        tokens_from(s, i, Seq::empty(), false) == tokens_from(
            s,
            i + quoted_arg(a).len(),
            quoted_arg(a),
            false,
        ),
{
    lemma_spelling(a);
    let q = quoted_arg(a);
    let n = q.len() as int;
    assert forall|k: int| i <= k < i + n implies #[trigger] s[k] == q[k - i] by {
        assert(s.subrange(i, i + n)[k - i] == s[k]);
    }
    let none = Seq::<char>::empty();
    if contains(a, " "@) {
        assert(s[i] == '"');
        assert(none.push(s[i]) =~= seq!['"']);
        assert(tokens_from(s, i, none, false) == tokens_from(s, i + 1, seq!['"'], true));
        assert forall|k: int| i + 1 <= k < i + n - 1 implies #[trigger] s[k] != '"' by {
            assert(s[k] == a[k - i - 1]);
        }
        lemma_run(s, i + 1, i + n - 1, seq!['"'], true);
        assert(seq!['"'] + s.subrange(i + 1, i + n - 1) =~= seq!['"'] + a);
        assert(s[i + n - 1] == '"');
        assert((seq!['"'] + a).push('"') =~= q);
    } else {
        lemma_run(s, i, i + n, none, false);
        assert(none + s.subrange(i, i + n) =~= q);
    }
}

/// The first `k` of the joined words are read, the last of them still open.
proof fn lemma_read_upto(ws: Seq<Seq<char>>, s: Seq<char>, k: int)
    requires
        0 < k <= ws.len(),
        forall|i: int| 0 <= i < ws.len() ==> keeps(#[trigger] ws[i]),
        join(spelled(ws).take(k), " "@).len() <= s.len(),
        s.take(join(spelled(ws).take(k), " "@).len() as int) == join(spelled(ws).take(k), " "@),
    ensures
        tokens(s) == spelled(ws).take(k - 1) + tokens_from(
            s,
            join(spelled(ws).take(k), " "@).len() as int,
            quoted_arg(ws[k - 1]),
            false,
        ),
    decreases k,
{
    let qs = spelled(ws);
    let done = join(qs.take(k), " "@);
    reveal_strlit(" ");
    let q = quoted_arg(ws[k - 1]);
    assert(qs[k - 1] == q);
    assert(keeps(ws[k - 1]));
    lemma_spelling(ws[k - 1]);
    if k == 1 {
        assert(done == q) by {
            assert(qs.take(1)[0] == q);
        }
        assert(s.subrange(0, q.len() as int) =~= s.take(q.len() as int));
        lemma_one_token(s, 0, ws[0]);
        assert(qs.take(0) + tokens_from(s, q.len() as int, q, false) =~= tokens_from(
            s,
            q.len() as int,
            q,
            false,
        ));
    } else {
        let before = join(qs.take(k - 1), " "@);
        let n = before.len() as int;
        assert(qs.take(k).drop_last() =~= qs.take(k - 1));
        assert(qs.take(k).last() == q);
        assert(done == before + " "@ + q);
        assert(s.take(n) =~= before) by {
            assert(before =~= done.take(n));
            assert(s.take(done.len() as int).take(n) =~= s.take(n));
        }
        lemma_read_upto(ws, s, k - 1);
        assert(s[n] == ' ') by {
            assert(s.take(done.len() as int)[n] == done[n]);
        }
        assert(s.subrange(n + 1, n + 1 + q.len()) =~= q) by {
            assert forall|x: int| 0 <= x < q.len() implies s[n + 1 + x] == #[trigger] q[x] by {
                assert(s.take(done.len() as int)[n + 1 + x] == done[n + 1 + x]);
            }
        }
        let open = quoted_arg(ws[k - 2]);
        assert(keeps(ws[k - 2]));
        lemma_spelling(ws[k - 2]);
        assert(is_space(' '));
        lemma_one_token(s, n + 1, ws[k - 1]);
        let rest = tokens_from(s, done.len() as int, q, false);
        assert(tokens_from(s, n, open, false) == seq![open] + rest);
        assert(qs[k - 2] == open);
        assert(qs.take(k - 2) + (seq![open] + rest) =~= qs.take(k - 1) + rest);
    }
}

/// The words of a command line are its tokens.
proof fn lemma_tokens(ws: Seq<Seq<char>>)
    requires
        forall|i: int| 0 <= i < ws.len() ==> keeps(#[trigger] ws[i]),
    ensures
        tokens(shell_text(ws)) == spelled(ws),
{
    let s = shell_text(ws);
    let qs = spelled(ws);
    let n = ws.len() as int;
    assert(qs.take(n) =~= qs);
    if n == 0 {
        assert(tokens(s) =~= qs);
    } else {
        assert(s.take(s.len() as int) =~= s);
        lemma_read_upto(ws, s, n);
        assert(keeps(ws[n - 1]));
        lemma_spelling(ws[n - 1]);
        assert(qs.take(n - 1) + seq![quoted_arg(ws[n - 1])] =~= qs);
    }
}

proof fn lemma_skip(toks: Seq<Seq<char>>, name: Seq<char>, i: int, k: int)
    requires
        0 <= i <= k <= toks.len(),
        forall|j: int| i <= j < k ==> silent(#[trigger] toks[j], name),
    ensures
        value_from(toks, name, i) == value_from(toks, name, k),
    decreases k - i,
{
    if i < k {
        assert(silent(toks[i], name));
        lemma_skip(toks, name, i + 1, k);
    }
}

proof fn lemma_shift(a: Seq<Seq<char>>, b: Seq<Seq<char>>, name: Seq<char>, i: int)
    requires
        0 <= i <= b.len(),
    ensures
        value_from(a + b, name, a.len() + i) == value_from(b, name, i),
    decreases b.len() - i,
{
    if i < b.len() {
        lemma_shift(a, b, name, i + 1);
        assert((a + b)[a.len() + i] == b[i]);
        if i + 1 < b.len() {
            assert((a + b)[a.len() + i + 1] == b[i + 1]);
        }
    }
}

/// The argument is not taken for a flag.
spec fn quiet(a: Arg, name: Seq<char>) -> bool {
    a.here ==> silent(quoted_arg(a.flag), name) && (a.value is Some ==> silent(
        quoted_arg(a.value->0),
        name,
    ))
}

proof fn lemma_quiet(es: Seq<Arg>, name: Seq<char>, i: int)
    requires
        0 <= i < es.len(),
        quiet(es[i], name),
    ensures
        value_from(spelled(line_from(es, i)), name, 0) == value_from(
            spelled(line_from(es, i + 1)),
            name,
            0,
        ),
{
    let a = spelled(words_of(es[i]));
    let b = spelled(line_from(es, i + 1));
    assert(spelled(line_from(es, i)) =~= a + b);
    assert forall|j: int| 0 <= j < a.len() implies silent(#[trigger] (a + b)[j], name) by {}
    lemma_skip(a + b, name, 0, a.len() as int);
    lemma_shift(a, b, name, 0);
}

/// The value of an argument that is there is found.
proof fn lemma_found(es: Seq<Arg>, m: int, i: int)
    requires
        0 <= i <= m < es.len(),
        es[m].here,
        es[m].value is Some,
        quoted_arg(es[m].flag) == "--"@ + es[m].name,
        forall|j: int| i <= j < m ==> quiet(#[trigger] es[j], es[m].name),
    ensures
        value_from(spelled(line_from(es, i)), es[m].name, 0) == Some(
            unquoted(quoted_arg(es[m].value->0)),
        ),
    decreases m - i,
{
    if i < m {
        assert(quiet(es[i], es[m].name));
        lemma_quiet(es, es[m].name, i);
        lemma_found(es, m, i + 1);
    } else {
        let t = spelled(line_from(es, i));
        assert(line_from(es, i) == words_of(es[i]) + line_from(es, i + 1));
        assert(line_from(es, i)[0] == es[m].flag);
        assert(line_from(es, i)[1] == es[m].value->0);
        assert(t.len() >= 2);
        assert(t[0] == quoted_arg(es[m].flag));
        assert(t[1] == quoted_arg(es[m].value->0));
    }
}

/// An argument that is not there is not found.
proof fn lemma_absent(es: Seq<Arg>, name: Seq<char>, i: int)
    requires
        0 <= i <= es.len(),
        forall|j: int| i <= j < es.len() ==> quiet(#[trigger] es[j], name),
    ensures
        value_from(spelled(line_from(es, i)), name, 0) is None,
    decreases es.len() - i,
{
    if i < es.len() {
        assert(quiet(es[i], name));
        lemma_quiet(es, name, i);
        lemma_absent(es, name, i + 1);
    }
}

/// A flag of one name is not taken for a flag of another.
proof fn lemma_flag_silent(g: Seq<char>, f: Seq<char>)
    requires
        clean(g),
        clean(f),
        g != f,
    ensures
        silent("--"@ + g, f),
{
    reveal_strlit("-");
    reveal_strlit("--");
    reveal_strlit("=");
    let t = "--"@ + g;
    assert(t != "--"@ + f) by {
        if t == "--"@ + f {
            assert(t.skip(2) =~= g);
            assert(("--"@ + f).skip(2) =~= f);
        }
    }
    assert(t != "-"@ + f) by {
        assert(t[1] == '-');
        assert(("-"@ + f)[1] == f[0]);
    }
    assert(!has_prefix(t, "--"@ + f + "="@)) by {
        let pat = "--"@ + f + "="@;
        if has_prefix(t, pat) {
            let k = f.len() as int;
            assert(pat[k + 2] == '=');
            assert(t.subrange(0, pat.len() as int)[k + 2] == t[k + 2]);
            assert(t[k + 2] == g[k]);
        }
    }
    assert(!has_prefix(t, "-"@ + f + "="@)) by {
        let pat = "-"@ + f + "="@;
        if has_prefix(t, pat) {
            assert(pat[1] == f[0]);
            assert(t.subrange(0, pat.len() as int)[1] == t[1]);
        }
    }
}

proof fn lemma_short_silent(f: Seq<char>)
    requires
        clean(f),
        f != "m"@,
    ensures
        silent("-m"@, f),
{
    reveal_strlit("-");
    reveal_strlit("--");
    reveal_strlit("=");
    reveal_strlit("m");
    reveal_strlit("-m");
    let t = "-m"@;
    assert(t != "--"@ + f) by {
        assert(("--"@ + f).len() >= 3);
    }
    assert(t != "-"@ + f) by {
        if t == "-"@ + f {
            assert(t.skip(1) =~= "m"@);
            assert(("-"@ + f).skip(1) =~= f);
        }
    }
}

/// A flag is spelled as it is.
proof fn lemma_flag_keeps(g: Seq<char>)
    requires
        clean(g),
    ensures
        keeps("--"@ + g),
        quoted_arg("--"@ + g) == "--"@ + g,
{
    reveal_strlit("--");
    let t = "--"@ + g;
    assert forall|i: int| 0 <= i < t.len() implies #[trigger] t[i] != '"' && !is_space(t[i]) by {
        if i >= 2 {
            assert(t[i] == g[i - 2]);
        }
    }
    assert(t.last() == g.last());
    lemma_spelling(t);
    lemma_no_space(t);
}

proof fn lemma_no_space(t: Seq<char>)
    requires
        forall|i: int| 0 <= i < t.len() ==> !is_space(#[trigger] t[i]),
    ensures
        !contains(t, " "@),
{
    reveal_strlit(" ");
    assert forall|i: int| !occurs_at(t, " "@, i) by {
        if occurs_at(t, " "@, i) {
            assert(t.subrange(i, i + 1)[0] == t[i]);
            assert(" "@[0] == ' ');
            assert(is_space(' '));
        }
    }
}

proof fn lemma_short_keeps()
    ensures
        keeps("-m"@),
        quoted_arg("-m"@) == "-m"@,
{
    reveal_strlit("-m");
    assert forall|i: int| 0 <= i < "-m"@.len() implies #[trigger] "-m"@[i] != '"' && !is_space(
        "-m"@[i],
    ) by {}
    lemma_spelling("-m"@);
    lemma_no_space("-m"@);
}

/// Each argument of llama.cpp has its name, and its flag is the name's.
proof fn lemma_list(p: Profile, i: int)
    requires
        0 <= i < 22,
    ensures
        llama_list(p).len() == 22,
        llama_list(p)[i].name == llama_names()[i],
        i == 0 ==> llama_list(p)[i].flag == "-m"@,
        i > 0 ==> llama_list(p)[i].flag == "--"@ + llama_names()[i],
        llama_list(p)[i].read ==> i > 0,
{
}

/// The words of a list of arguments come back when their spelling is read.
proof fn lemma_line_keeps(es: Seq<Arg>, i: int)
    requires
        0 <= i <= es.len(),
        values_keep(es),
        forall|j: int| 0 <= j < es.len() ==> keeps((#[trigger] es[j]).flag),
    ensures
        forall|k: int| 0 <= k < line_from(es, i).len() ==> keeps(#[trigger] line_from(es, i)[k]),
    decreases es.len() - i,
{
    if i < es.len() {
        lemma_line_keeps(es, i + 1);
        let a = words_of(es[i]);
        let b = line_from(es, i + 1);
        assert(line_from(es, i) == a + b);
        assert forall|k: int| 0 <= k < (a + b).len() implies keeps(#[trigger] (a + b)[k]) by {
            if k >= a.len() {
                assert((a + b)[k] == b[k - a.len()]);
            } else {
                assert(keeps(es[i].flag));
            }
        }
    }
}

/// The words of the first `n` arguments.
spec fn line_upto(es: Seq<Arg>, n: int) -> Seq<Seq<char>>
    decreases n,
{
    if n <= 0 {
        Seq::empty()
    } else {
        line_upto(es, n - 1) + words_of(es[n - 1])
    }
}

proof fn lemma_upto(es: Seq<Arg>, n: int)
    requires
        0 <= n <= es.len(),
    ensures
        line_upto(es, n) + line_from(es, n) == line_from(es, 0),
    decreases n,
{
    if n > 0 {
        lemma_upto(es, n - 1);
        assert(line_upto(es, n) + line_from(es, n) =~= line_upto(es, n - 1) + (words_of(es[n - 1])
            + line_from(es, n)));
    } else {
        assert(line_upto(es, n) + line_from(es, n) =~= line_from(es, 0));
    }
}

/// The words of the arguments that are always there.
proof fn lemma_always(p: Profile)
    ensures
        line_upto(llama_list(p), 11) == llama_flags(p),
{
    let es = llama_list(p);
    let all = llama_flags(p);
    lemma_dashes();
    assert(all.len() == 22);
    assert(line_upto(es, 0) =~= all.take(0));
    assert(words_of(es[0]) =~= all.subrange(0, 2));
    assert(line_upto(es, 1) =~= all.take(2));
    assert(words_of(es[1]) =~= all.subrange(2, 4));
    assert(line_upto(es, 2) =~= all.take(4));
    assert(words_of(es[2]) =~= all.subrange(4, 6));
    assert(line_upto(es, 3) =~= all.take(6));
    assert(words_of(es[3]) =~= all.subrange(6, 8));
    assert(line_upto(es, 4) =~= all.take(8));
    assert(words_of(es[4]) =~= all.subrange(8, 10));
    assert(line_upto(es, 5) =~= all.take(10));
    assert(words_of(es[5]) =~= all.subrange(10, 12));
    assert(line_upto(es, 6) =~= all.take(12));
    assert(words_of(es[6]) =~= all.subrange(12, 14));
    assert(line_upto(es, 7) =~= all.take(14));
    assert(words_of(es[7]) =~= all.subrange(14, 16));
    assert(line_upto(es, 8) =~= all.take(16));
    assert(words_of(es[8]) =~= all.subrange(16, 18));
    assert(line_upto(es, 9) =~= all.take(18));
    assert(words_of(es[9]) =~= all.subrange(18, 20));
    assert(line_upto(es, 10) =~= all.take(20));
    assert(words_of(es[10]) =~= all.subrange(20, 22));
    assert(line_upto(es, 11) =~= all.take(22));
    assert(all.take(22) =~= all);
}

/// The words of the arguments are those that are built.
proof fn lemma_line(p: Profile)
    ensures
        line_from(llama_list(p), 0) == llama_args(p),
{
    let es = llama_list(p);
    lemma_dashes();
    lemma_always(p);
    assert(words_of(es[11]) =~= (if p.metrics {
        seq!["--metrics"@]
    } else {
        Seq::empty()
    }));
    assert(words_of(es[12]) =~= (if p.flash_attn {
        seq!["--flash-attn"@, "on"@]
    } else {
        Seq::empty()
    }));
    assert(words_of(es[13]) =~= opt_flag("--cache-type-k"@, opt_text(p.kv_cache_type_k)));
    assert(words_of(es[14]) =~= opt_flag("--cache-type-v"@, opt_text(p.kv_cache_type_v)));
    assert(words_of(es[15]) =~= opt_flag("--load-mode"@, opt_text(p.load_mode)));
    assert(words_of(es[16]) =~= opt_flag("--spec-type"@, opt_text(p.spec_type)));
    assert(words_of(es[17]) =~= opt_flag("--draft-model"@, opt_text(p.draft_model)));
    assert(words_of(es[18]) =~= opt_flag("--reasoning"@, opt_text(p.reasoning)));
    assert(words_of(es[19]) =~= opt_flag("--reasoning-format"@, opt_text(p.reasoning_format)));
    assert(words_of(es[20]) =~= opt_flag("--reasoning-effort"@, opt_text(p.reasoning_effort)));
    assert(words_of(es[21]) =~= opt_flag("--reasoning-budget"@, opt_decimal(p.reasoning_budget)));
    assert(line_upto(es, 12) == line_upto(es, 11) + words_of(es[11]));
    assert(line_upto(es, 13) == line_upto(es, 12) + words_of(es[12]));
    assert(line_upto(es, 14) == line_upto(es, 13) + words_of(es[13]));
    assert(line_upto(es, 15) == line_upto(es, 14) + words_of(es[14]));
    assert(line_upto(es, 16) == line_upto(es, 15) + words_of(es[15]));
    assert(line_upto(es, 17) == line_upto(es, 16) + words_of(es[16]));
    assert(line_upto(es, 18) == line_upto(es, 17) + words_of(es[17]));
    assert(line_upto(es, 19) == line_upto(es, 18) + words_of(es[18]));
    assert(line_upto(es, 20) == line_upto(es, 19) + words_of(es[19]));
    assert(line_upto(es, 21) == line_upto(es, 20) + words_of(es[20]));
    assert(line_upto(es, 22) == line_upto(es, 21) + words_of(es[21]));
    assert(line_upto(es, 22) == llama_args(p));
    lemma_upto(es, 22);
    assert(line_upto(es, 22) + line_from(es, 22) =~= line_upto(es, 22));
}

/// The flags as they are written.
proof fn lemma_dashes()
    ensures
        "--alias"@ == "--"@ + "alias"@,
        "--ctx-size"@ == "--"@ + "ctx-size"@,
        "--n-gpu-layers"@ == "--"@ + "n-gpu-layers"@,
        "--ubatch-size"@ == "--"@ + "ubatch-size"@,
        "--parallel"@ == "--"@ + "parallel"@,
        "--temp"@ == "--"@ + "temp"@,
        "--top-p"@ == "--"@ + "top-p"@,
        "--top-k"@ == "--"@ + "top-k"@,
        "--port"@ == "--"@ + "port"@,
        "--host"@ == "--"@ + "host"@,
        "--metrics"@ == "--"@ + "metrics"@,
        "--flash-attn"@ == "--"@ + "flash-attn"@,
        "--cache-type-k"@ == "--"@ + "cache-type-k"@,
        "--cache-type-v"@ == "--"@ + "cache-type-v"@,
        "--load-mode"@ == "--"@ + "load-mode"@,
        "--spec-type"@ == "--"@ + "spec-type"@,
        "--draft-model"@ == "--"@ + "draft-model"@,
        "--reasoning"@ == "--"@ + "reasoning"@,
        "--reasoning-format"@ == "--"@ + "reasoning-format"@,
        "--reasoning-effort"@ == "--"@ + "reasoning-effort"@,
        "--reasoning-budget"@ == "--"@ + "reasoning-budget"@,
{
    reveal_strlit("--");
    reveal_strlit("alias");
    reveal_strlit("--alias");
    assert("--alias"@ =~= "--"@ + "alias"@);
    reveal_strlit("ctx-size");
    reveal_strlit("--ctx-size");
    assert("--ctx-size"@ =~= "--"@ + "ctx-size"@);
    reveal_strlit("n-gpu-layers");
    reveal_strlit("--n-gpu-layers");
    assert("--n-gpu-layers"@ =~= "--"@ + "n-gpu-layers"@);
    reveal_strlit("ubatch-size");
    reveal_strlit("--ubatch-size");
    assert("--ubatch-size"@ =~= "--"@ + "ubatch-size"@);
    reveal_strlit("parallel");
    reveal_strlit("--parallel");
    assert("--parallel"@ =~= "--"@ + "parallel"@);
    reveal_strlit("temp");
    reveal_strlit("--temp");
    assert("--temp"@ =~= "--"@ + "temp"@);
    reveal_strlit("top-p");
    reveal_strlit("--top-p");
    assert("--top-p"@ =~= "--"@ + "top-p"@);
    reveal_strlit("top-k");
    reveal_strlit("--top-k");
    assert("--top-k"@ =~= "--"@ + "top-k"@);
    reveal_strlit("port");
    reveal_strlit("--port");
    assert("--port"@ =~= "--"@ + "port"@);
    reveal_strlit("host");
    reveal_strlit("--host");
    assert("--host"@ =~= "--"@ + "host"@);
    reveal_strlit("metrics");
    reveal_strlit("--metrics");
    assert("--metrics"@ =~= "--"@ + "metrics"@);
    reveal_strlit("flash-attn");
    reveal_strlit("--flash-attn");
    assert("--flash-attn"@ =~= "--"@ + "flash-attn"@);
    reveal_strlit("cache-type-k");
    reveal_strlit("--cache-type-k");
    assert("--cache-type-k"@ =~= "--"@ + "cache-type-k"@);
    reveal_strlit("cache-type-v");
    reveal_strlit("--cache-type-v");
    assert("--cache-type-v"@ =~= "--"@ + "cache-type-v"@);
    reveal_strlit("load-mode");
    reveal_strlit("--load-mode");
    assert("--load-mode"@ =~= "--"@ + "load-mode"@);
    reveal_strlit("spec-type");
    reveal_strlit("--spec-type");
    assert("--spec-type"@ =~= "--"@ + "spec-type"@);
    reveal_strlit("draft-model");
    reveal_strlit("--draft-model");
    assert("--draft-model"@ =~= "--"@ + "draft-model"@);
    reveal_strlit("reasoning");
    reveal_strlit("--reasoning");
    assert("--reasoning"@ =~= "--"@ + "reasoning"@);
    reveal_strlit("reasoning-format");
    reveal_strlit("--reasoning-format");
    assert("--reasoning-format"@ =~= "--"@ + "reasoning-format"@);
    reveal_strlit("reasoning-effort");
    reveal_strlit("--reasoning-effort");
    assert("--reasoning-effort"@ =~= "--"@ + "reasoning-effort"@);
    reveal_strlit("reasoning-budget");
    reveal_strlit("--reasoning-budget");
    assert("--reasoning-budget"@ =~= "--"@ + "reasoning-budget"@);
}

/// What the importer finds for flag `m` in the arguments that are built.
proof fn lemma_flag_read(p: Profile, m: int)
    requires
        0 <= m < 22,
        llama_list(p)[m].read,
        values_keep(llama_list(p)),
        values_silent(llama_list(p)),
    ensures
        flag_value(shell_text(llama_args(p)), llama_names()[m]) == if llama_list(p)[m].here {
            llama_list(p)[m].value
        } else {
            None
        },
{
    let es = llama_list(p);
    let name = llama_names()[m];
    lemma_names();
    lemma_list(p, m);
    assert forall|j: int| 0 <= j < es.len() implies keeps((#[trigger] es[j]).flag) by {
        lemma_list(p, j);
        lemma_short_keeps();
        if j > 0 {
            lemma_flag_keeps(llama_names()[j]);
        }
    }
    lemma_line_keeps(es, 0);
    lemma_line(p);
    lemma_tokens(llama_args(p));
    assert forall|j: int| 0 <= j < es.len() && (j < m || (!es[m].here && j != m)) implies quiet(
        #[trigger] es[j],
        name,
    ) by {
        lemma_list(p, j);
        if j > 0 {
            lemma_flag_keeps(llama_names()[j]);
            lemma_flag_silent(llama_names()[j], name);
        } else {
            lemma_short_keeps();
            assert(llama_names()[0] == "m"@);
            lemma_short_silent(name);
        }
        assert(value_silent(es, j, m));
    }
    if es[m].here {
        lemma_read_has_value(p, m);
        lemma_flag_keeps(name);
        lemma_found(es, m, 0);
        assert(keeps(es[m].value->0));
        lemma_spelling(es[m].value->0);
    } else {
        assert forall|j: int| 0 <= j < es.len() implies quiet(#[trigger] es[j], name) by {}
        lemma_absent(es, name, 0);
    }
}

proof fn lemma_read_has_value(p: Profile, m: int)
    requires
        0 <= m < 22,
        llama_list(p)[m].read,
        llama_list(p)[m].here,
    ensures
        llama_list(p)[m].value is Some,
{
}

/// What the arguments that are built for a profile of llama.cpp are read as,
/// over another profile: the profile again, in all that the importer reads; an
/// argument that was not built leaves the other profile's value.
pub open spec fn read_back(p: Profile, base: Profile, q: Profile) -> bool {
    &&& q.alias@ == p.alias@
    &&& q.ctx_size == p.ctx_size
    &&& q.n_gpu_layers == p.n_gpu_layers
    &&& q.ubatch_size == p.ubatch_size
    &&& q.parallel == p.parallel
    &&& q.temperature@ == p.temperature@
    &&& q.top_p@ == p.top_p@
    &&& q.top_k == p.top_k
    &&& q.port == p.port
    &&& q.host@ == p.host@
    &&& q.flash_attn == (p.flash_attn || base.flash_attn)
    &&& opt_text(q.kv_cache_type_k) == opt_or(
        opt_text(p.kv_cache_type_k),
        opt_text(base.kv_cache_type_k),
    )
    &&& opt_text(q.kv_cache_type_v) == opt_or(
        opt_text(p.kv_cache_type_v),
        opt_text(base.kv_cache_type_v),
    )
    &&& opt_text(q.load_mode) == opt_or(opt_text(p.load_mode), opt_text(base.load_mode))
    &&& opt_text(q.reasoning) == opt_or(opt_text(p.reasoning), opt_text(base.reasoning))
    &&& opt_text(q.reasoning_format) == opt_or(
        opt_text(p.reasoning_format),
        opt_text(base.reasoning_format),
    )
    &&& opt_text(q.reasoning_effort) == opt_or(
        opt_text(p.reasoning_effort),
        opt_text(base.reasoning_effort),
    )
    &&& q.reasoning_budget == if p.reasoning_budget is Some {
        p.reasoning_budget
    } else {
        base.reasoning_budget
    }
}

/// A setting as it is printed: a numeral that prints as it is.
pub open spec fn is_setting(readings: Seq<Reading>, s: Seq<char>) -> bool {
    is_float_numeral(s) && shown(readings, s) == Some(s)
}

/// The arguments that are built for a profile of llama.cpp, spelled as in a
/// unit, give the profile back when they are parsed. The values must survive
/// their spelling, and none may read as a flag that is still looked for.
pub proof fn law_built_arguments_are_read_back(
    p: Profile,
    base: Profile,
    q: Profile,
    readings: Seq<Reading>,
)
    requires
        p.engine == Engine::LlamaCpp || p.engine == Engine::UncensoredLlamaCpp,
        is_setting(readings, p.temperature@),
        is_setting(readings, p.top_p@),
        values_keep(llama_list(p)),
        values_silent(llama_list(p)),
        flags_applied(base, q, shell_text(engine_args(p)), readings),
    ensures
        read_back(p, base, q),
{
    lemma_flag_read(p, 1);
    lemma_flag_read(p, 2);
    lemma_flag_read(p, 3);
    lemma_flag_read(p, 4);
    lemma_flag_read(p, 5);
    lemma_flag_read(p, 6);
    lemma_flag_read(p, 7);
    lemma_flag_read(p, 8);
    lemma_flag_read(p, 9);
    lemma_flag_read(p, 10);
    lemma_flag_read(p, 12);
    lemma_flag_read(p, 13);
    lemma_flag_read(p, 14);
    lemma_flag_read(p, 15);
    lemma_flag_read(p, 18);
    lemma_flag_read(p, 19);
    lemma_flag_read(p, 20);
    lemma_flag_read(p, 21);
    law_decimal_round_trip(p.ctx_size as nat, u32::MAX as nat);
    law_decimal_round_trip(p.n_gpu_layers as nat, u32::MAX as nat);
    law_decimal_round_trip(p.ubatch_size as nat, u32::MAX as nat);
    law_decimal_round_trip(p.parallel as nat, u32::MAX as nat);
    law_decimal_round_trip(p.top_k as nat, u32::MAX as nat);
    law_decimal_round_trip(p.port as nat, u16::MAX as nat);
    match p.reasoning_budget {
        Some(n) => {
            law_decimal_round_trip(n as nat, u32::MAX as nat);
        },
        None => {},
    }
}

} // verus!
