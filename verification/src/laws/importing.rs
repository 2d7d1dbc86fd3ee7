//! Start scripts that are read, and units that are written and applied.
use vstd::prelude::*;

use crate::engines::backup::{file_steps, FileStep, FileStepView};
use crate::engines::service_ops::ServiceCall;
use crate::engines::systemd::{
    applied_by, apply_after, due, install, ladder, latest_upto, restore_last_good, Applied,
    ApplyPhase,
};
use crate::engines::unit::render_unit;
use crate::importer::{
    assignment_on, command_body, extract, flag_value, flags_applied, is_llamacpp_import, parse_vars,
    resolve, resolved, started_binary, tokenize, tokens, tokens_from, unquoted, value_at,
    value_from, vars_of, vars_of_lines,
};
use crate::numeral::Reading;
use crate::params::{law_value_after_set, value_of, Params};
use crate::paths::file_name;
use crate::profile::{Engine, Profile};
use crate::runtime::{path_in, RuntimeManifest};
use crate::text::{contains, has_prefix, is_space, lex_below, lines, opt_text, parse_number, texts};

verus! {

proof fn lemma_same_rest(
    s: Seq<char>,
    t: Seq<char>,
    i: int,
    j: int,
    cur: Seq<char>,
    quoted: bool,
)
    requires
        0 <= i <= s.len(),
        0 <= j <= t.len(),
        s.skip(i) == t.skip(j),
    ensures
        tokens_from(s, i, cur, quoted) == tokens_from(t, j, cur, quoted),
    decreases s.len() - i,
{
    assert(s.len() - i == s.skip(i).len() && t.len() - j == t.skip(j).len());
    if i < s.len() {
        assert(s[i] == s.skip(i)[0] && t[j] == t.skip(j)[0]);
        assert(s.skip(i + 1) =~= s.skip(i).skip(1));
        assert(t.skip(j + 1) =~= t.skip(j).skip(1));
        if s[i] == '"' {
            lemma_same_rest(s, t, i + 1, j + 1, cur.push(s[i]), !quoted);
        } else if is_space(s[i]) && !quoted {
            if cur.len() > 0 {
                lemma_same_rest(s, t, i + 1, j + 1, Seq::empty(), quoted);
            } else {
                lemma_same_rest(s, t, i + 1, j + 1, cur, quoted);
            }
        } else {
            lemma_same_rest(s, t, i + 1, j + 1, cur.push(s[i]), quoted);
        }
    }
}

proof fn lemma_run(s: Seq<char>, i: int, n: int, cur: Seq<char>, quoted: bool)
    requires
        0 <= i,
        0 <= n,
        i + n <= s.len(),
        forall|k: int|
            i <= k < i + n ==> #[trigger] s[k] != '"' && (quoted || !is_space(s[k])),
    ensures
        tokens_from(s, i, cur, quoted) == tokens_from(
            s,
            i + n,
            cur + s.subrange(i, i + n),
            quoted,
        ),
    decreases n,
{
    if n > 0 {
        assert(s[i] != '"');
        lemma_run(s, i + 1, n - 1, cur.push(s[i]), quoted);
        assert(cur.push(s[i]) + s.subrange(i + 1, i + n) =~= cur + s.subrange(i, i + n));
    } else {
        assert(cur + s.subrange(i, i) =~= cur);
    }
}

/// A word without white space and quotes.
pub open spec fn is_plain(a: Seq<char>) -> bool {
    forall|k: int| 0 <= k < a.len() ==> #[trigger] a[k] != '"' && !is_space(a[k])
}

/// A word is a token, white space parts tokens, and between quotes white space
/// parts nothing: the quotes stay.
pub proof fn law_tokens(p: Seq<char>, q: Seq<char>, c: char, rest: Seq<char>)
    requires
        is_plain(p),
        is_space(c),
        !q.contains('"'),
    ensures
        p.len() > 0 ==> tokens(p + seq![c] + rest) == seq![p] + tokens(rest),
        p.len() > 0 ==> tokens(p) == seq![p],
        tokens(seq![c] + rest) == tokens(rest),
        tokens(p + (seq!['"'] + q + seq!['"']) + seq![c] + rest) == seq![
            p + (seq!['"'] + q + seq!['"']),
        ] + tokens(rest),
{
    let none = Seq::<char>::empty();
    assert(c != '"') by {
        assert('"' as u32 == 34);
    }
    let s = p + seq![c] + rest;
    lemma_run(s, 0, p.len() as int, none, false);
    assert(none + s.subrange(0, p.len() as int) =~= p);
    assert(s[p.len() as int] == c);
    assert(s.skip(p.len() as int + 1) =~= rest.skip(0));
    lemma_same_rest(s, rest, p.len() as int + 1, 0, none, false);
    lemma_run(p, 0, p.len() as int, none, false);
    assert(none + p.subrange(0, p.len() as int) =~= p);
    let b = seq![c] + rest;
    assert(b[0] == c);
    assert(b.skip(1) =~= rest.skip(0));
    lemma_same_rest(b, rest, 1, 0, none, false);
    let w = seq!['"'] + q + seq!['"'];
    let t = p + w + seq![c] + rest;
    let n = p.len() as int;
    let m = n + 1 + q.len() as int;
    lemma_run(t, 0, n, none, false);
    assert(none + t.subrange(0, n) =~= p);
    assert(t[n] == '"');
    assert forall|k: int| n + 1 <= k < m implies #[trigger] t[k] != '"' by {
        assert(t[k] == q[k - n - 1]);
        assert(q.contains(q[k - n - 1]));
    }
    lemma_run(t, n + 1, q.len() as int, p.push('"'), true);
    assert(p.push('"') + t.subrange(n + 1, m) =~= p + (seq!['"'] + q));
    assert(t[m] == '"');
    let full = (p + (seq!['"'] + q)).push('"');
    assert(full =~= p + w);
    assert(t[m + 1] == c);
    assert(t.skip(m + 2) =~= rest.skip(0));
    lemma_same_rest(t, rest, m + 2, 0, none, false);
    assert(tokens_from(t, m + 1, full, false) == seq![full] + tokens_from(t, m + 2, none, false));
}

/// The tokens are what the tokenizer gives.
pub proof fn law_tokenizer(text: &str, r: Vec<String>)
    requires
        call_ensures(tokenize, (text,), r),
    ensures
        texts(r@) == tokens(text@),
{
}

/// Token `i` gives a flag its value: joined to it, or behind it.
pub open spec fn gives(toks: Seq<Seq<char>>, i: int, flag: Seq<char>, v: Seq<char>) -> bool {
    ||| toks[i] == flag && i + 1 < toks.len() && v == unquoted(toks[i + 1])
    ||| toks[i] != flag && exists|w: Seq<char>|
        #[trigger] (flag + seq!['='] + w) == toks[i] && v == unquoted(w)
}

proof fn lemma_gives(toks: Seq<Seq<char>>, i: int, flag: Seq<char>)
    requires
        0 <= i < toks.len(),
    ensures
        forall|v: Seq<char>| #[trigger] gives(toks, i, flag, v) ==> value_at(toks, i, flag) == Some(v),
        value_at(toks, i, flag) is Some ==> gives(toks, i, flag, value_at(toks, i, flag)->0),
{
    reveal_strlit("=");
    assert("="@ =~= seq!['=']);
    let t = toks[i];
    let eq = flag + "="@;
    assert forall|v: Seq<char>| #[trigger] gives(toks, i, flag, v) implies value_at(toks, i, flag)
        == Some(v) by {
        if t != flag {
            let w = choose|w: Seq<char>|
                #[trigger] (flag + seq!['='] + w) == t && v == unquoted(w);
            assert(t.subrange(0, eq.len() as int) =~= eq);
            assert(t.skip(eq.len() as int) =~= w);
        }
    }
    if value_at(toks, i, flag) is Some && t != flag {
        assert(t.subrange(0, eq.len() as int) == eq);
        let w = t.skip(eq.len() as int);
        assert(t =~= flag + seq!['='] + w);
        assert((flag + seq!['='] + w) == t);
    }
}

/// One of the two spellings of a flag gets a value at token `i`.
pub open spec fn is_given(toks: Seq<Seq<char>>, i: int, flag: Seq<char>) -> bool {
    ||| exists|v: Seq<char>| #[trigger] gives(toks, i, "--"@ + flag, v)
    ||| exists|v: Seq<char>| #[trigger] gives(toks, i, "-"@ + flag, v)
}

proof fn lemma_value(toks: Seq<Seq<char>>, flag: Seq<char>, k: int, i: int)
    requires
        0 <= k <= i < toks.len(),
        forall|j: int| k <= j < i ==> !#[trigger] is_given(toks, j, flag),
    ensures
        forall|v: Seq<char>| #[trigger] gives(toks, i, "--"@ + flag, v) ==> value_from(toks, flag, k) == Some(v),
        (forall|v: Seq<char>| !#[trigger] gives(toks, i, "--"@ + flag, v)) ==> forall|v: Seq<char>| #[trigger]
            gives(toks, i, "-"@ + flag, v) ==> value_from(toks, flag, k) == Some(v),
    decreases i - k,
{
    lemma_gives(toks, k, "--"@ + flag);
    lemma_gives(toks, k, "-"@ + flag);
    if k < i {
        assert(!is_given(toks, k, flag));
        assert(value_at(toks, k, "--"@ + flag) is None && value_at(toks, k, "-"@ + flag) is None);
        lemma_value(toks, flag, k + 1, i);
    }
}

/// The value of a flag is the first that a token gives it, with two dashes or
/// with one.
pub proof fn law_flag_of_a_script(text: &str, flag: &str, r: Option<String>, i: int, v: Seq<char>)
    requires
        call_ensures(extract, (text, flag), r),
        0 <= i < tokens(text@).len(),
        forall|j: int| 0 <= j < i ==> !#[trigger] is_given(tokens(text@), j, flag@),
    ensures
        gives(tokens(text@), i, "--"@ + flag@, v) ==> opt_text(r) == Some(v),
        (forall|u: Seq<char>| !#[trigger] gives(tokens(text@), i, "--"@ + flag@, u)) && gives(
            tokens(text@),
            i,
            "-"@ + flag@,
            v,
        ) ==> opt_text(r) == Some(v),
{
    lemma_value(tokens(text@), flag@, 0, i);
}

/// Reading a script's command sets what its flags say and leaves the rest.
pub proof fn law_flags_set_the_profile(
    p: Profile,
    q: Profile,
    text: Seq<char>,
    readings: Seq<Reading>,
)
    requires
        flags_applied(p, q, text, readings),
    ensures
        flag_value(text, "alias"@) is Some ==> q.alias@ == flag_value(text, "alias"@)->0,
        flag_value(text, "alias"@) is None ==> q.alias@ == p.alias@,
        flag_value(text, "host"@) is Some ==> q.host@ == flag_value(text, "host"@)->0,
        flag_value(text, "host"@) is None ==> q.host@ == p.host@,
        sets_number(flag_value(text, "ctx-size"@), 0xffff_ffff, p.ctx_size as nat, q.ctx_size as nat),
        sets_number(
            flag_value(text, "n-gpu-layers"@),
            0xffff_ffff,
            p.n_gpu_layers as nat,
            q.n_gpu_layers as nat,
        ),
        sets_number(
            flag_value(text, "ubatch-size"@),
            0xffff_ffff,
            p.ubatch_size as nat,
            q.ubatch_size as nat,
        ),
        sets_number(flag_value(text, "port"@), 0xffff, p.port as nat, q.port as nat),
        sets_number(flag_value(text, "top-k"@), 0xffff_ffff, p.top_k as nat, q.top_k as nat),
        sets_number(flag_value(text, "parallel"@), 0xffff_ffff, p.parallel as nat, q.parallel as nat),
        sets_text(flag_value(text, "load-mode"@), p.load_mode, q.load_mode),
        sets_text(flag_value(text, "cache-type-k"@), p.kv_cache_type_k, q.kv_cache_type_k),
        sets_text(flag_value(text, "cache-type-v"@), p.kv_cache_type_v, q.kv_cache_type_v),
        sets_text(flag_value(text, "reasoning"@), p.reasoning, q.reasoning),
        sets_text(flag_value(text, "reasoning-format"@), p.reasoning_format, q.reasoning_format),
        sets_text(flag_value(text, "reasoning-effort"@), p.reasoning_effort, q.reasoning_effort),
        flag_value(text, "flash-attn"@) is Some ==> (q.flash_attn <==> flag_value(
            text,
            "flash-attn"@,
        )->0 == "on"@),
        flag_value(text, "flash-attn"@) is None ==> q.flash_attn == p.flash_attn,
        q.model == p.model,
        q.bin == p.bin,
        q.engine == p.engine,
        q.name == p.name,
{
}

/// A number that reads takes its place; what does not leaves it.
pub open spec fn sets_number(v: Option<Seq<char>>, max: nat, before: nat, after: nat) -> bool {
    match v {
        Some(s) => match parse_number(s, max) {
            Some(n) => after == n,
            None => after == before,
        },
        None => after == before,
    }
}

/// A text that is given takes its place.
pub open spec fn sets_text(
    v: Option<Seq<char>>,
    before: Option<String>,
    after: Option<String>,
) -> bool {
    match v {
        Some(s) => after is Some && (after->0)@ == s,
        None => opt_text(after) == opt_text(before),
    }
}

/// A script of llama.cpp gives a loadout of that engine, with the model behind
/// its short flag and the program that it starts, variables filled in.
pub proof fn law_llamacpp_script(
    p: Profile,
    text: Seq<char>,
    name: Seq<char>,
    readings: Seq<Reading>,
)
    requires
        is_llamacpp_import(p, text, name, readings),
    ensures
        p.engine == Engine::LlamaCpp,
        p.name@ == name,
        flag_value(command_body(text, "exec"@), "m"@) is Some ==> p.model@ == resolved(
            vars_of(text),
            flag_value(command_body(text, "exec"@), "m"@)->0,
        ),
        started_binary(text) is Some ==> p.bin@ == resolved(vars_of(text), started_binary(text)->0),
        flag_value(command_body(text, "exec"@), "alias"@) is None ==> p.alias@ == "model"@,
        sets_number(
            flag_value(command_body(text, "exec"@), "ctx-size"@),
            0xffff_ffff,
            32768,
            p.ctx_size as nat,
        ),
        sets_number(
            flag_value(command_body(text, "exec"@), "port"@),
            0xffff,
            18000,
            p.port as nat,
        ),
{
}

/// A variable is put for its name behind a dollar sign; what is none stays.
pub proof fn law_variables(vars: &Params, token: &str, r: String)
    requires
        call_ensures(resolve, (vars, token), r),
    ensures
        token@.len() == 0 || token@[0] != '$' ==> r@ == token@,
        token@.len() > 0 && token@[0] == '$' && value_of(vars@, token@.skip(1)) is Some ==> r@
            == value_of(vars@, token@.skip(1))->0,
        token@.len() > 0 && token@[0] == '$' && value_of(vars@, token@.skip(1)) is None ==> r@
            == token@,
{
    if token@.len() > 0 {
        assert(token@.drop_first() =~= token@.skip(1));
    }
}

proof fn lemma_vars(ls: Seq<Seq<char>>, i: int, k: Seq<char>, v: Seq<char>)
    requires
        0 <= i < ls.len(),
        assignment_on(ls[i]) == Some((k, v)),
        forall|j: int|
            i < j < ls.len() ==> (assignment_on(#[trigger] ls[j]) matches Some(a) ==> a.0 != k),
    ensures
        value_of(vars_of_lines(ls), k) == Some(v),
    decreases ls.len(),
{
    let rest = ls.drop_last();
    if i < ls.len() - 1 {
        assert(assignment_on(ls[ls.len() - 1]) matches Some(a) ==> a.0 != k);
        assert forall|j: int| i < j < rest.len() implies (assignment_on(
            #[trigger] rest[j],
        ) matches Some(a) ==> a.0 != k) by {
            assert(rest[j] == ls[j]);
        }
        lemma_vars(rest, i, k, v);
    }
    match assignment_on(ls.last()) {
        Some(a) => {
            law_value_after_set(vars_of_lines(rest), a.0, a.1, k);
        },
        None => {},
    }
}

/// A variable has the value of its last assignment.
pub proof fn law_last_assignment_counts(
    text: &str,
    r: Params,
    i: int,
    k: Seq<char>,
    v: Seq<char>,
)
    requires
        call_ensures(parse_vars, (text,), r),
        0 <= i < lines(text@).len(),
        assignment_on(lines(text@)[i]) == Some((k, v)),
        forall|j: int|
            i < j < lines(text@).len() ==> (assignment_on(#[trigger] lines(text@)[j]) matches Some(
                a,
            ) ==> a.0 != k),
    ensures
        value_of(r@, k) == Some(v),
{
    lemma_vars(lines(text@), i, k, v);
}

/// The latest backup of a unit that the directory has: a file whose name
/// begins with the unit's and marks a backup, and after which no other such
/// path comes.
pub proof fn law_latest_backup(paths: &Vec<String>, unit: &str, r: Option<String>, i: int)
    requires
        call_ensures(restore_last_good, (paths, unit), r),
    ensures
        0 <= i < paths@.len() && is_backup_of(paths@[i]@, unit@) ==> r is Some && !lex_below(
            (r->0)@,
            paths@[i]@,
        ),
        r is Some ==> is_backup_of((r->0)@, unit@) && texts(paths@).contains((r->0)@),
        (forall|k: int| 0 <= k < paths@.len() ==> !is_backup_of((#[trigger] paths@[k])@, unit@))
            ==> r is None,
{
    let ps = texts(paths@);
    lemma_latest(ps, unit@, ps.len() as int);
    if 0 <= i < paths@.len() && is_backup_of(paths@[i]@, unit@) {
        assert(ps[i] == paths@[i]@);
        crate::engines::systemd::law_restores_latest(ps, unit@, ps.len() as int, i);
    }
    if (forall|k: int| 0 <= k < paths@.len() ==> !is_backup_of((#[trigger] paths@[k])@, unit@)) && r
        is Some {
        let k = choose|k: int| 0 <= k < ps.len() && ps[k] == (r->0)@;
        assert(ps[k] == paths@[k]@);
    }
}

/// The file's name begins with the unit's and marks a backup.
pub open spec fn is_backup_of(path: Seq<char>, unit: Seq<char>) -> bool {
    file_name(path) is Some && has_prefix(file_name(path)->0, unit) && contains(
        file_name(path)->0,
        ".bak."@,
    )
}

proof fn lemma_latest(ps: Seq<Seq<char>>, unit: Seq<char>, n: int)
    requires
        0 <= n <= ps.len(),
    ensures
        latest_upto(ps, unit, n) is Some ==> ps.contains(latest_upto(ps, unit, n)->0)
            && is_backup_of(latest_upto(ps, unit, n)->0, unit),
    decreases n,
{
    if n > 0 {
        lemma_latest(ps, unit, n - 1);
        assert(ps.contains(ps[n - 1]));
    }
}

/// A unit is written to the directory of units and to that of the deck, the
/// same text to both.
pub proof fn law_unit_is_written(
    p: &Profile,
    ms: &Vec<RuntimeManifest>,
    dir: &str,
    generated: &str,
    there: &Vec<String>,
    ts: &str,
    r: Vec<FileStep>,
    text: String,
    unit: Seq<char>,
)
    requires
        call_ensures(install, (p, ms, dir, generated, there, ts), r),
        call_ensures(render_unit, (p, ms), text),
        p.engine == Engine::LlamaCpp ==> unit == "llama-server.service"@,
        p.engine == Engine::FreeToken ==> unit == "freetoken.service"@,
        p.engine == Engine::Ollama ==> unit == "ollama.service"@,
        p.engine == Engine::UncensoredLlamaCpp ==> unit == "llama-server-uncensored.service"@,
    ensures
        file_steps(r@).contains(FileStepView::Write(path_in(dir@, unit), text@)),
        file_steps(r@).contains(FileStepView::Write(path_in(generated@, unit), text@)),
        p.engine == Engine::LlamaCpp ==> file_steps(r@).contains(
            FileStepView::Write(
                path_in(dir@, "llama-server.d/memlock.conf"@),
                "[Service]\nLimitMEMLOCK=infinity\n"@,
            ),
        ),
{
    let s = file_steps(r@);
    let a: int = if texts(there@).contains(path_in(dir@, unit)) {
        1
    } else {
        0
    };
    assert(s[a] == FileStepView::Write(path_in(dir@, unit), text@));
    let b: int = a + 1 + if texts(there@).contains(path_in(generated@, unit)) && path_in(
        generated@,
        unit,
    ) != path_in(dir@, unit) {
        1int
    } else {
        0
    };
    assert(s[b] == FileStepView::Write(path_in(generated@, unit), text@));
    if p.engine == Engine::LlamaCpp {
        assert(s.last() == FileStepView::Write(
            path_in(dir@, "llama-server.d/memlock.conf"@),
            "[Service]\nLimitMEMLOCK=infinity\n"@,
        ));
        assert(s[s.len() - 1] == s.last());
    }
}

/// How often something was installed in the first `n` calls.
pub open spec fn installs(calls: Seq<ServiceCall>, n: int) -> int
    decreases n,
{
    if n <= 0 {
        0
    } else {
        installs(calls, n - 1) + if calls[n - 1] is Install {
            1int
        } else {
            0
        }
    }
}

proof fn lemma_installs(p: Profile, calls: Seq<ServiceCall>, n: int)
    requires
        0 <= n <= calls.len(),
        forall|k: int| 0 <= k < n ==> #[trigger] due(p, calls, k),
    ensures
        ({
            let s = apply_after(p, calls, n);
            &&& s.phase == ApplyPhase::Install ==> installs(calls, n) == s.rung
            &&& s.phase != ApplyPhase::Install ==> installs(calls, n) == s.rung + 1
            &&& s.rung < ladder(p).len()
        }),
    decreases n,
{
    if n > 0 {
        lemma_installs(p, calls, n - 1);
        assert(due(p, calls, n - 1));
    }
}

/// A loadout is installed at one context after another, the configured one
/// first and the ladder's behind it, and nothing else of it changes; the
/// context that is reported is that of the last install.
pub proof fn law_contexts_are_tried_in_turn(
    p: Profile,
    calls: Seq<ServiceCall>,
    r: Result<Applied, String>,
    k: int,
)
    requires
        applied_by(p, calls, r),
        0 <= k < calls.len(),
    ensures
        calls[k] is Install ==> {
            let i = installs(calls, k);
            &&& i == 0 ==> (calls[k]->profile).ctx_size == p.ctx_size
            &&& i > 0 ==> (calls[k]->profile).ctx_size == p.ctx_ladder@[i - 1]
            &&& (calls[k]->profile).model@ == p.model@
            &&& (calls[k]->profile).bin@ == p.bin@
            &&& (calls[k]->profile).port == p.port
        },
        r is Ok && r->Ok_0 is Serving ==> {
            let i = installs(calls, calls.len() as int);
            &&& i >= 1
            &&& r->Ok_0->ctx == if i == 1 {
                p.ctx_size
            } else {
                p.ctx_ladder@[i - 2]
            }
            &&& calls.last() is Health && calls.last()->up
        },
        calls[k] is Health ==> calls[k]->host == p.host@ && calls[k]->port == p.port,
        calls[k] is Health && calls[k]->up ==> k == calls.len() - 1,
{
    assert(due(p, calls, k));
    lemma_installs(p, calls, k);
    lemma_installs(p, calls, calls.len() as int);
    assert(ladder(p).len() == 1 + p.ctx_ladder@.len());
    if calls[k] is Health && calls[k]->up {
        assert(apply_after(p, calls, k + 1).phase == ApplyPhase::Serving);
        if k + 1 < calls.len() {
            assert(due(p, calls, k + 1));
        }
    }
    let n = calls.len() as int;
    assert(due(p, calls, n - 1));
    assert(apply_after(p, calls, n).phase == ApplyPhase::Serving ==> calls[n - 1] is Health
        && calls[n - 1]->up);
}

} // verus!
