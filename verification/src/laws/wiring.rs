//! Clients that are pointed at the deck, and engines that run beside it.
use vstd::prelude::*;

use crate::engines::backup::{file_steps, FileStepView};
use crate::engines::external::{
    equals_value, external_service, external_units, extract_arg, get_exec_start, is_deck_unit,
    model_in, next_value, port_in, stem_in, units_upto, ExternalService,
};
use crate::engines::rewire::{rewire_file, set_port_in_block, ClientFile, Rewire};
use crate::engines::systemd::file_backup;
use crate::engines::unmanaged::{
    check_stoppable, extract_systemd_unit, is_systemd_managed, process_on_line, stop_by,
    unmanaged_process, StopBy, UnmanagedProcess,
};
use crate::json::{json_reading, member, JsonView};
use crate::laws::text::lemma_parted;
use crate::opencode_sync::{
    deck_canonical_model, law_mirror_changes_only_what_differs, law_set_member_is_there, mirrored,
    sync_opencode, with_member, Members, SyncPlan,
};
use crate::order::{in_order, lemma_permutation_hits};
use crate::profile::{Engine, Profile};
use crate::text::{
    contains, decimal, find, find_from, has_prefix, has_suffix, lemma_find_from, lex_below, lines,
    occurs_at, opt_text, parse_number, split, texts, trim, words,
};

verus! {

/// The port that a client's text names behind its provider's anchor: behind
/// the first local address that follows the anchor's first place, from `from`
/// to the slash at `to`.
pub open spec fn names_port(text: Seq<char>, anchor: Seq<char>, from: int, to: int) -> bool {
    exists|k: int, m: int|
        {
            &&& #[trigger] occurs_at(text, anchor, k)
            &&& forall|j: int| 0 <= j < k ==> !occurs_at(text, anchor, j)
            &&& k <= m
            &&& #[trigger] occurs_at(text, "http://127.0.0.1:"@, m)
            &&& forall|j: int| k <= j < m ==> !occurs_at(text, "http://127.0.0.1:"@, j)
            &&& from == m + 17
            &&& from < to < text.len()
            &&& text[to] == '/'
            &&& forall|j: int| from <= j < to ==> #[trigger] text[j] != '/'
        }
}

proof fn lemma_found(s: Seq<char>, p: Seq<char>, from: int, at: int)
    requires
        0 <= from <= at,
        occurs_at(s, p, at),
        forall|j: int| from <= j < at ==> !occurs_at(s, p, j),
    ensures
        find_from(s, p, from) == Some(at),
{
    lemma_find_from(s, p, from);
    if find_from(s, p, from) is Some {
        let i = find_from(s, p, from)->0;
        if i < at {
            assert(!occurs_at(s, p, i));
        } else if at < i {
            assert(!occurs_at(s, p, at));
        }
    } else {
        assert(!occurs_at(s, p, at));
    }
}

proof fn lemma_slash(s: Seq<char>, i: int)
    requires
        0 <= i,
    ensures
        occurs_at(s, "/"@, i) <==> i < s.len() && s[i] == '/',
{
    reveal_strlit("/");
    assert("/"@.len() == 1);
    if i < s.len() {
        assert(s.subrange(i, i + 1)[0] == s[i]);
        if s[i] == '/' {
            assert(s.subrange(i, i + 1) =~= "/"@);
        }
    }
}

/// Where a text names a port behind the anchor, that port is replaced and
/// nothing else is.
pub proof fn law_port_is_replaced(
    text: &str,
    port: u16,
    anchor: &str,
    r: Option<String>,
    from: int,
    to: int,
)
    requires
        call_ensures(set_port_in_block, (text, port, anchor, true), r),
        names_port(text@, anchor@, from, to),
    ensures
        r is Some,
        (r->0)@ == text@.take(from) + decimal(port as nat) + text@.skip(to),
{
    let t = text@;
    let (k, m) = choose|k: int, m: int|
        {
            &&& #[trigger] occurs_at(t, anchor@, k)
            &&& forall|j: int| 0 <= j < k ==> !occurs_at(t, anchor@, j)
            &&& k <= m
            &&& #[trigger] occurs_at(t, "http://127.0.0.1:"@, m)
            &&& forall|j: int| k <= j < m ==> !occurs_at(t, "http://127.0.0.1:"@, j)
            &&& from == m + 17
            &&& from < to < t.len()
            &&& t[to] == '/'
            &&& forall|j: int| from <= j < to ==> #[trigger] t[j] != '/'
        };
    reveal_strlit("http://127.0.0.1:");
    assert("http://127.0.0.1:"@.len() == 17);
    lemma_found(t, anchor@, 0, k);
    lemma_found(t, "http://127.0.0.1:"@, k, m);
    lemma_slash(t, to);
    assert forall|j: int| from <= j < to implies !occurs_at(t, "/"@, j) by {
        lemma_slash(t, j);
        assert(t[j] != '/');
    }
    lemma_found(t, "/"@, from, to);
}

/// Without the anchor, or without a local address behind it, nothing is
/// replaced.
pub proof fn law_no_port_no_change(text: &str, port: u16, anchor: &str, r: Option<String>)
    requires
        call_ensures(set_port_in_block, (text, port, anchor, true), r),
    ensures
        !contains(text@, anchor@) ==> r is None,
        !contains(text@, "http://127.0.0.1:"@) ==> r is None,
{
    lemma_find_from(text@, anchor@, 0);
    if !contains(text@, anchor@) {
        if find(text@, anchor@) is Some {
            assert(occurs_at(text@, anchor@, find(text@, anchor@)->0));
        }
    }
    if !contains(text@, "http://127.0.0.1:"@) && find(text@, anchor@) is Some {
        let a = find(text@, anchor@)->0;
        lemma_find_from(text@, "http://127.0.0.1:"@, a);
        if find_from(text@, "http://127.0.0.1:"@, a) is Some {
            assert(occurs_at(
                text@,
                "http://127.0.0.1:"@,
                find_from(text@, "http://127.0.0.1:"@, a)->0,
            ));
        }
    }
}

/// A client's file is written only where that changes it, and backed up
/// before; else it is left alone.
pub proof fn law_files_are_backed_up(
    client: &str,
    path: &str,
    port: u16,
    anchor: &str,
    text: String,
    ts: &str,
    r: Rewire,
    t: &str,
    out: Option<String>,
)
    requires
        call_ensures(rewire_file, (client, path, port, anchor, ClientFile::Text(text), ts), r),
        t@ == text@,
        call_ensures(set_port_in_block, (t, port, anchor, true), out),
    ensures
        r is Write <==> out is Some && (out->0)@ != text@,
        r is Write ==> {
            let s = file_steps((r->Write_0)@);
            &&& s.len() == 2
            &&& s[0] == FileStepView::BackUp(path@, file_backup(path@, ts@))
            &&& s[1] == FileStepView::Write(path@, (out->0)@)
        },
        r is Leave ==> (r->Leave_0).client@ == client@ && (r->Leave_0).path@ == path@,
        r is Leave && out is Some ==> (r->Leave_0).status@ == "already correct"@,
        r is Leave && out is None ==> (r->Leave_0).status@
            == "no matching provider baseURL — skipped"@,
{
}

/// The deck's model is the active loadout's, else the first's, by engine and
/// alias.
pub proof fn law_model_of_the_deck(
    active: Option<&Profile>,
    profiles: &Vec<Profile>,
    r: String,
    p: Profile,
)
    requires
        call_ensures(deck_canonical_model, (active, profiles), r),
        active is Some ==> p == *(active->0),
        active is None && profiles@.len() > 0 ==> p == profiles@[0],
    ensures
        active is None && profiles@.len() == 0 ==> r@ == "ollama/qwen3.8:27b"@,
        active is Some || profiles@.len() > 0 ==> {
            &&& p.engine == Engine::LlamaCpp ==> r@ == "llamacpp"@ + "/"@ + p.alias@
            &&& p.engine == Engine::FreeToken ==> r@ == "freetoken"@ + "/"@ + p.alias@
            &&& p.engine == Engine::Ollama ==> r@ == "ollama"@ + "/"@ + p.alias@
        },
{
}

/// Mirroring sets the model and the small model, and the generalist's where
/// there is one; other members stay.
pub proof fn law_mirroring(m: Members, model: Seq<char>, other: Seq<char>)
    requires
        other != "model"@,
        other != "small_model"@,
        other != "agent"@,
    ensures
        member(mirrored(m, model), "model"@) == Some(JsonView::Str(model)),
        member(mirrored(m, model), "small_model"@) == Some(JsonView::Str(model)),
        member(mirrored(m, model), other) == member(m, other),
        (member(m, "agent"@) matches Some(JsonView::Object(a)) && (member(
            a,
            "generalist"@,
        ) matches Some(JsonView::Object(g)))) ==> (member(mirrored(m, model), "agent"@) matches Some(
            JsonView::Object(a),
        ) && (member(a, "generalist"@) matches Some(JsonView::Object(g)) && member(g, "model"@)
            == Some(JsonView::Str(model)))),
        !(member(m, "agent"@) matches Some(JsonView::Object(a)) && (member(
            a,
            "generalist"@,
        ) matches Some(JsonView::Object(g)))) ==> member(mirrored(m, model), "agent"@) == member(
            m,
            "agent"@,
        ),
{
    let v = JsonView::Str(model);
    let one = with_member(m, "model"@, v);
    let top = with_member(one, "small_model"@, v);
    reveal_strlit("model");
    reveal_strlit("small_model");
    reveal_strlit("agent");
    reveal_strlit("generalist");
    assert("model"@[0] == 'm' && "small_model"@[0] == 's' && "agent"@[0] == 'a');
    law_set_member_is_there(m, "model"@, v, other);
    law_set_member_is_there(m, "model"@, v, "agent"@);
    law_set_member_is_there(one, "small_model"@, v, "model"@);
    law_set_member_is_there(one, "small_model"@, v, other);
    law_set_member_is_there(one, "small_model"@, v, "agent"@);
    match crate::opencode_sync::generalist(top) {
        Some((a, g)) => {
            let h = JsonView::Object(with_member(g, "model"@, v));
            let b = JsonView::Object(with_member(a, "generalist"@, h));
            law_set_member_is_there(g, "model"@, v, other);
            law_set_member_is_there(a, "generalist"@, h, other);
            law_set_member_is_there(top, "agent"@, b, other);
            law_set_member_is_there(top, "agent"@, b, "model"@);
            law_set_member_is_there(top, "agent"@, b, "small_model"@);
        },
        None => {},
    }
}

/// A sync writes the mirrored document, and only where it is asked to and
/// something changes; a document that is there is backed up first.
pub proof fn law_sync(
    text: Option<&str>,
    model: &str,
    write: bool,
    path: &str,
    ts: &str,
    r: Result<SyncPlan, String>,
    m: Members,
)
    requires
        call_ensures(sync_opencode, (text, model, write, path, ts), r),
        text is Some ==> json_reading((text->0)@) == Ok::<JsonView, Seq<char>>(
            JsonView::Object(m),
        ),
        text is None ==> m.len() == 0,
    ensures
        r is Ok,
        !write ==> (r->Ok_0).steps@.len() == 0,
        write && mirrored(m, model@) == m ==> (r->Ok_0).steps@.len() == 0,
        write && mirrored(m, model@) != m ==> {
            let s = file_steps((r->Ok_0).steps@);
            let out = crate::json::pretty_text(JsonView::Object(mirrored(m, model@))) + "\n"@;
            &&& s.last() == FileStepView::Write(path@, out)
            &&& text is Some ==> s.len() == 2 && s[0] == FileStepView::BackUp(
                path@,
                file_backup(path@, ts@),
            )
            &&& text is None ==> s.len() == 1
        },
{
    law_mirror_changes_only_what_differs(m, model@);
    if text is None {
        assert(m =~= Seq::empty());
    }
}

/// Word `i` is the flag joined to its value.
pub open spec fn is_joined(w: Seq<char>, flag: Seq<char>, value: Seq<char>) -> bool {
    value.len() > 0 && w == flag + seq!['='] + value
}

proof fn lemma_joined(w: Seq<char>, flag: Seq<char>)
    ensures
        has_prefix(w, flag + "="@) && w.len() > (flag + "="@).len() <==> is_joined(
            w,
            flag,
            w.skip(flag.len() as int + 1),
        ),
        forall|value: Seq<char>| #[trigger]
            is_joined(w, flag, value) ==> value == w.skip(flag.len() as int + 1),
{
    reveal_strlit("=");
    let eq = flag + "="@;
    assert("="@ =~= seq!['=']);
    assert(eq.len() == flag.len() + 1);
    let rest = w.skip(flag.len() as int + 1);
    if has_prefix(w, eq) && w.len() > eq.len() {
        assert(w.subrange(0, eq.len() as int) == eq);
        assert(w =~= w.subrange(0, eq.len() as int) + rest);
    }
    assert forall|value: Seq<char>| #[trigger] is_joined(w, flag, value) implies value == rest by {
        assert(rest =~= value);
    }
    if is_joined(w, flag, rest) {
        assert(w.subrange(0, eq.len() as int) =~= eq);
    }
}

proof fn lemma_equals(ws: Seq<Seq<char>>, flag: Seq<char>, k: int, i: int, value: Seq<char>)
    requires
        0 <= k <= i < ws.len(),
        is_joined(ws[i], flag, value),
        forall|j: int, v: Seq<char>| k <= j < i ==> !#[trigger] is_joined(ws[j], flag, v),
    ensures
        equals_value(ws, flag, k) == Some(value),
    decreases i - k,
{
    lemma_joined(ws[k], flag);
    if k < i {
        assert(!is_joined(ws[k], flag, ws[k].skip(flag.len() as int + 1)));
        lemma_equals(ws, flag, k + 1, i, value);
    } else {
        reveal_strlit("=");
    }
}

proof fn lemma_no_equals(ws: Seq<Seq<char>>, flag: Seq<char>, k: int)
    requires
        0 <= k,
        forall|j: int, v: Seq<char>| k <= j < ws.len() ==> !#[trigger] is_joined(ws[j], flag, v),
    ensures
        equals_value(ws, flag, k) is None,
    decreases ws.len() - k,
{
    if k < ws.len() {
        lemma_joined(ws[k], flag);
        assert(!is_joined(ws[k], flag, ws[k].skip(flag.len() as int + 1)));
        lemma_no_equals(ws, flag, k + 1);
    }
}

proof fn lemma_next(ws: Seq<Seq<char>>, flag: Seq<char>, k: int, i: int)
    requires
        0 <= k <= i < ws.len(),
        ws[i] == flag,
        forall|j: int| k <= j < i ==> #[trigger] ws[j] != flag,
    ensures
        next_value(ws, flag, k) == if i + 1 < ws.len() && (ws[i + 1].len() == 0 || ws[i + 1][0]
            != '-') {
            Some(ws[i + 1])
        } else {
            None
        },
    decreases i - k,
{
    if k < i {
        assert(ws[k] != flag);
        lemma_next(ws, flag, k + 1, i);
    }
}

proof fn lemma_no_next(ws: Seq<Seq<char>>, flag: Seq<char>, k: int)
    requires
        0 <= k,
        forall|j: int| k <= j < ws.len() ==> #[trigger] ws[j] != flag,
    ensures
        next_value(ws, flag, k) is None,
    decreases ws.len() - k,
{
    if k < ws.len() {
        assert(ws[k] != flag);
        lemma_no_next(ws, flag, k + 1);
    }
}

/// The value of a flag of a command is joined to it by an equals sign, at the
/// first such word; else it is the word behind the flag's first place, unless
/// that is a flag itself.
pub proof fn law_flag_values(
    cmd: &str,
    flag: &str,
    r: Option<String>,
    i: int,
    value: Seq<char>,
)
    requires
        call_ensures(extract_arg, (cmd, flag), r),
    ensures
        0 <= i < words(cmd@).len() && is_joined(words(cmd@)[i], flag@, value) && (forall|
            j: int,
            v: Seq<char>,
        |
            0 <= j < i ==> !#[trigger] is_joined(words(cmd@)[j], flag@, v)) ==> opt_text(r) == Some(
            value,
        ),
        (forall|j: int, v: Seq<char>|
            0 <= j < words(cmd@).len() ==> !#[trigger] is_joined(words(cmd@)[j], flag@, v)) && 0
            <= i < words(cmd@).len() && words(cmd@)[i] == flag@ && (forall|j: int|
            0 <= j < i ==> #[trigger] words(cmd@)[j] != flag@) ==> opt_text(r) == if i + 1 < words(
            cmd@,
        ).len() && (words(cmd@)[i + 1].len() == 0 || words(cmd@)[i + 1][0] != '-') {
            Some(words(cmd@)[i + 1])
        } else {
            None
        },
        (forall|j: int, v: Seq<char>|
            0 <= j < words(cmd@).len() ==> !#[trigger] is_joined(words(cmd@)[j], flag@, v)) && (
        forall|j: int| 0 <= j < words(cmd@).len() ==> #[trigger] words(cmd@)[j] != flag@) ==> r
            is None,
{
    let ws = words(cmd@);
    if 0 <= i < ws.len() && is_joined(ws[i], flag@, value) && (forall|j: int, v: Seq<char>|
        0 <= j < i ==> !#[trigger] is_joined(ws[j], flag@, v)) {
        lemma_equals(ws, flag@, 0, i, value);
    }
    if forall|j: int, v: Seq<char>| 0 <= j < ws.len() ==> !#[trigger] is_joined(ws[j], flag@, v) {
        lemma_no_equals(ws, flag@, 0);
        if 0 <= i < ws.len() && ws[i] == flag@ && (forall|j: int|
            0 <= j < i ==> #[trigger] ws[j] != flag@) {
            lemma_next(ws, flag@, 0, i);
        }
        if forall|j: int| 0 <= j < ws.len() ==> #[trigger] ws[j] != flag@ {
            lemma_no_next(ws, flag@, 0);
        }
    }
}

/// The model of a command stands behind its short flag, else behind its long
/// one; the port is a number of sixteen bits.
pub proof fn law_model_and_port_of_a_command(
    cmd: &str,
    model: Option<String>,
    port: Option<u16>,
    m: &'static str,
    long: &'static str,
    p: &'static str,
    a: Option<String>,
    b: Option<String>,
    c: Option<String>,
)
    requires
        call_ensures(model_in, (cmd,), model),
        call_ensures(port_in, (cmd,), port),
        m@ == "-m"@,
        long@ == "--model"@,
        p@ == "--port"@,
        call_ensures(extract_arg, (cmd, m), a),
        call_ensures(extract_arg, (cmd, long), b),
        call_ensures(extract_arg, (cmd, p), c),
    ensures
        a is Some ==> opt_text(model) == opt_text(a),
        a is None ==> opt_text(model) == opt_text(b),
        c is None ==> port is None,
        c is Some ==> (match port {
            Some(n) => parse_number((c->0)@, 0xffff) == Some(n as nat),
            None => parse_number((c->0)@, 0xffff) is None,
        }),
{
}

/// The deck's own units are these.
pub proof fn law_units_of_the_deck(unit: Seq<char>)
    ensures
        is_deck_unit(unit) <==> unit == "llama-server.service"@ || unit == "freetoken.service"@
            || unit == "ollama.service"@ || unit == "llama-server-uncensored.service"@,
{
}

/// The line lists a service that is not the deck's: its first word.
pub open spec fn lists(line: Seq<char>, unit: Seq<char>) -> bool {
    &&& words(trim(line)).len() > 0
    &&& words(trim(line))[0] == unit
    &&& has_suffix(unit, ".service"@)
    &&& !is_deck_unit(unit)
}

proof fn lemma_units(ls: Seq<Seq<char>>, n: int)
    requires
        0 <= n <= ls.len(),
    ensures
        forall|i: int, u: Seq<char>|
            0 <= i < n && #[trigger] lists(ls[i], u) ==> units_upto(ls, n).contains(u),
        forall|k: int|
            0 <= k < units_upto(ls, n).len() ==> is_listed_by(ls, #[trigger] units_upto(ls, n)[k]),
    decreases n,
{
    if n > 0 {
        lemma_units(ls, n - 1);
        let rest = units_upto(ls, n - 1);
        let all = units_upto(ls, n);
        assert forall|i: int, u: Seq<char>|
            0 <= i < n && #[trigger] lists(ls[i], u) implies all.contains(u) by {
            if i == n - 1 {
                assert(all[rest.len() as int] == u);
            } else {
                assert(rest.contains(u));
                let x = choose|x: int| 0 <= x < rest.len() && rest[x] == u;
                assert(all[x] == u);
            }
        }
        assert forall|k: int| 0 <= k < all.len() implies is_listed_by(ls, #[trigger] all[k]) by {
            if k < rest.len() {
                assert(rest[k] == all[k]);
            } else {
                assert(lists(ls[n - 1], all[k]));
            }
        }
    }
}

/// One of the lines lists the unit.
pub open spec fn is_listed_by(ls: Seq<Seq<char>>, unit: Seq<char>) -> bool {
    exists|i: int| 0 <= i < ls.len() && #[trigger] lists(ls[i], unit)
}

/// The services beside the deck are those that the listing has, by name.
pub proof fn law_services_beside_the_deck(
    listing: &str,
    r: Vec<String>,
    i: int,
    u: Seq<char>,
    k: int,
    l: int,
)
    requires
        call_ensures(external_units, (listing,), r),
    ensures
        0 <= i < lines(listing@).len() && lists(lines(listing@)[i], u) ==> texts(r@).contains(u),
        0 <= k < r@.len() ==> is_listed_by(lines(listing@), r@[k]@),
        0 <= k < l < r@.len() ==> !lex_below(r@[l]@, r@[k]@),
{
    let ls = lines(listing@);
    let v = units_upto(ls, ls.len() as int);
    lemma_units(ls, ls.len() as int);
    let out = texts(r@);
    let p = choose|p: Seq<usize>|
        #[trigger] in_order(p, v.len(), crate::engines::grid::text_below(v)) && out.len() == v.len()
            && forall|i: int| 0 <= i < out.len() ==> #[trigger] out[i] == v[p[i] as int];
    if 0 <= i < ls.len() && lists(ls[i], u) {
        assert(v.contains(u));
        let x = choose|x: int| 0 <= x < v.len() && v[x] == u;
        let y = lemma_permutation_hits(p, v.len(), x);
        assert(out[y] == v[p[y] as int]);
    }
    if 0 <= k < r@.len() {
        assert(p[k] < v.len());
        assert(out[k] == r@[k]@);
        assert(out[k] == v[p[k] as int]);
    }
    if 0 <= k < l < r@.len() {
        assert(p[k] < v.len() && p[l] < v.len());
        assert(out[k] == r@[k]@ && out[l] == r@[l]@);
        assert(out[k] == v[p[k] as int] && out[l] == v[p[l] as int]);
        crate::text::lemma_lex(out[k], out[l], out[k]);
    }
}

/// A service is an engine where its command starts the server; it shows the
/// model, the port and the file's stem.
pub proof fn law_service_that_serves(
    unit: &str,
    cmd: &str,
    active: bool,
    description: Option<String>,
    r: Option<ExternalService>,
    model: Option<String>,
    port: Option<u16>,
    stem: Option<String>,
)
    requires
        call_ensures(external_service, (unit, cmd, active, description), r),
        call_ensures(model_in, (cmd,), model),
        call_ensures(port_in, (cmd,), port),
        call_ensures(stem_in, (&model,), stem),
    ensures
        r is Some <==> contains(cmd@, "llama-server"@),
        r is Some ==> {
            &&& (r->0).unit@ == unit@
            &&& (r->0).exec_start@ == cmd@
            &&& (r->0).active == active
            &&& opt_text((r->0).model) == opt_text(model)
            &&& (r->0).port == port
            &&& stem is Some ==> (r->0).display@ == (stem->0)@
            &&& description is Some ==> (r->0).description@ == (description->0)@
            &&& description is None ==> (r->0).description@ == (r->0).display@
        },
{
}

/// A command that is shown plainly is taken as it is, without the quotes
/// around it.
pub proof fn law_plain_commands(shown: &str, r: String, cmd: Seq<char>)
    requires
        call_ensures(get_exec_start, (shown,), r),
        !contains(trim(shown@), "argv[]="@),
    ensures
        trim(shown@) == seq!['"'] + cmd + seq!['"'] ==> r@ == cmd,
        trim(shown@).len() == 0 || trim(shown@)[0] != '"' || trim(shown@).last() != '"' ==> r@
            == trim(shown@),
{
    let raw = trim(shown@);
    lemma_find_from(raw, "argv[]="@, 0);
    if find(raw, "argv[]="@) is Some {
        assert(occurs_at(raw, "argv[]="@, find(raw, "argv[]="@)->0));
    }
    if raw == seq!['"'] + cmd + seq!['"'] {
        assert(raw[0] == '"' && raw.last() == '"');
        assert(raw.subrange(1, raw.len() - 1) =~= cmd);
    }
}

/// One of the steps of one of the lines is a unit of the deck.
pub open spec fn belongs_to_the_deck(cgroup: Seq<char>, i: int, j: int) -> bool {
    &&& 0 <= i < lines(cgroup).len()
    &&& 0 <= j < split(lines(cgroup)[i], '/').len()
    &&& is_deck_unit(split(lines(cgroup)[i], '/')[j])
}

/// A process is unmanaged where its groups name no unit of the deck; it shows
/// its command, the model and the port.
pub proof fn law_unmanaged(
    pid: u32,
    cmd: &str,
    cgroup: Option<&str>,
    r: Option<UnmanagedProcess>,
    managed: bool,
    model: Option<String>,
    port: Option<u16>,
    stem: Option<String>,
    i: int,
    j: int,
)
    requires
        call_ensures(unmanaged_process, (pid, cmd, cgroup), r),
        call_ensures(is_systemd_managed, (cgroup,), managed),
        call_ensures(model_in, (cmd,), model),
        call_ensures(port_in, (cmd,), port),
        call_ensures(stem_in, (&model,), stem),
    ensures
        r is None <==> managed,
        cgroup is None ==> !managed,
        cgroup is Some && belongs_to_the_deck((cgroup->0)@, i, j) ==> managed,
        cgroup is Some && managed ==> exists|a: int, b: int| #[trigger]
            belongs_to_the_deck((cgroup->0)@, a, b),
        r is Some ==> {
            &&& (r->0).pid == pid
            &&& (r->0).cmd@ == cmd@
            &&& opt_text((r->0).model) == opt_text(model)
            &&& (r->0).port == port
            &&& stem is Some ==> (r->0).display@ == (stem->0)@
            &&& stem is None ==> (r->0).display@ == "pid:"@ + decimal(pid as nat)
        },
{
    if cgroup is Some {
        let c = (cgroup->0)@;
        if belongs_to_the_deck(c, i, j) {
            assert(crate::engines::unmanaged::line_names_deck(lines(c)[i]));
        }
        if managed {
            let a = choose|a: int|
                0 <= a < lines(c).len() && crate::engines::unmanaged::line_names_deck(
                    #[trigger] lines(c)[a],
                );
            let b = choose|b: int|
                0 <= b < split(lines(c)[a], '/').len() && is_deck_unit(
                    #[trigger] split(lines(c)[a], '/')[b],
                );
            assert(belongs_to_the_deck(c, a, b));
        }
    }
}

/// Only a llama-server is stopped.
pub proof fn law_stoppable(pid: u32, args: Option<&str>, r: Result<(), String>)
    requires
        call_ensures(check_stoppable, (pid, args), r),
    ensures
        r is Ok <==> args is Some && contains((args->0)@, "llama-server"@),
{
}

/// A process is stopped by its unit where it has one and that did not fail;
/// else by a signal.
pub proof fn law_stopped_by(
    cgroup: Option<&str>,
    failed: bool,
    r: StopBy,
    c: &str,
    unit: Option<String>,
)
    requires
        call_ensures(stop_by, (cgroup, failed), r),
        cgroup is Some ==> c@ == (cgroup->0)@,
        call_ensures(extract_systemd_unit, (c,), unit),
    ensures
        r is Unit <==> !failed && cgroup is Some && unit is Some,
        r is Unit ==> (r->Unit_0)@ == (unit->0)@,
{
}

/// A line of the process list is a number, a blank and the command.
pub proof fn law_process_lines(line: &str, r: Option<(u32, String)>, pid: Seq<char>, cmd: Seq<char>)
    requires
        call_ensures(process_on_line, (line,), r),
        trim(line@) == pid + seq![' '] + cmd,
        !pid.contains(' '),
    ensures
        match r {
            Some(p) => parse_number(pid, 0xffff_ffff) == Some(p.0 as nat) && p.1@ == cmd,
            None => parse_number(pid, 0xffff_ffff) is None,
        },
{
    lemma_parted(pid, ' ', cmd);
    let l = trim(line@);
    assert(l.take(pid.len() as int) =~= pid);
    assert(l.skip(pid.len() as int + 1) =~= cmd);
}

} // verus!
