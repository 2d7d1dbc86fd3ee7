//! The order of paths, the shape of plans, and what is reported on the way.
use vstd::prelude::*;

use crate::engines::external::get_exec_start;
use crate::engines::health::{liveness_urls, version_program};
use crate::engines::unit::child_env_for;
use crate::engines::unmanaged::{extract_systemd_unit, unit_from, unit_on_line};
use crate::hardware::engines_json;
use crate::json::{json_reading, json_string, JsonView};
use crate::laws::text::lemma_parted;
use crate::opencode_sync::{
    law_mirror_changes_only_what_differs, mirrored, sync_opencode, Members, SyncPlan,
};
use crate::params::pair_texts;
use crate::paths::{last_pos, lemma_last_pos, path_key, path_sort_key, step_key, steps_key};
use crate::profile::{Engine, Profile};
use crate::runtime::RuntimeManifest;
use crate::text::{
    contains, decimal, find, has_suffix, lemma_find_from, lex_below, lines, occurs_at, opt_text,
    split, texts, trim, until,
};
use crate::workflow::{plan, DryPlan, Workflow};

verus! {

proof fn lemma_split_last(d: Seq<char>, x: Seq<char>)
    requires
        !x.contains('/'),
    ensures
        split(d + seq!['/'] + x, '/') == split(d, '/').push(x),
        split(d, '/').len() >= 1,
    decreases d.len(),
{
    let s = d + seq!['/'] + x;
    crate::text::lemma_until(d, '/');
    let n = until(d, '/') as int;
    lemma_parted(x, '/', x);
    if n < d.len() {
        let a = d.take(n);
        let rest = d.skip(n + 1);
        assert(!a.contains('/')) by {
            if a.contains('/') {
                let i = choose|i: int| 0 <= i < a.len() && a[i] == '/';
                assert(d[i] == '/');
            }
        }
        assert(d[n] == '/');
        assert(s =~= a + seq!['/'] + (rest + seq!['/'] + x));
        lemma_parted(a, '/', rest + seq!['/'] + x);
        assert(s.take(n) =~= a);
        assert(s.skip(n + 1) =~= rest + seq!['/'] + x);
        lemma_split_last(rest, x);
        assert(seq![a] + split(rest, '/').push(x) =~= (seq![a] + split(rest, '/')).push(x));
    } else {
        assert(!d.contains('/')) by {
            if d.contains('/') {
                let i = choose|i: int| 0 <= i < d.len() && d[i] == '/';
                assert(d[i] == '/');
            }
        }
        lemma_parted(d, '/', x);
        assert(s.take(d.len() as int) =~= d);
        assert(s.skip(d.len() as int + 1) =~= x);
        assert(split(x, '/') == seq![x]);
        assert(seq![d] + seq![x] =~= seq![d].push(x));
    }
}

proof fn lemma_steps_same(a: Seq<Seq<char>>, b: Seq<Seq<char>>, n: int)
    requires
        0 <= n <= a.len(),
        n <= b.len(),
        forall|i: int| 0 <= i < n ==> #[trigger] a[i] == b[i],
    ensures
        steps_key(a, n) == steps_key(b, n),
    decreases n,
{
    if n > 0 {
        assert(a[n - 1] == b[n - 1]);
        lemma_steps_same(a, b, n - 1);
    }
}

proof fn lemma_common_front(k: Seq<char>, a: Seq<char>, b: Seq<char>)
    ensures
        lex_below(k + a, k + b) == lex_below(a, b),
    decreases k.len(),
{
    if k.len() == 0 {
        assert(k + a =~= a && k + b =~= b);
    } else {
        let s = k + a;
        let t = k + b;
        assert(s[0] == k[0] && t[0] == k[0]);
        assert(s.drop_first() =~= k.drop_first() + a);
        assert(t.drop_first() =~= k.drop_first() + b);
        lemma_common_front(k.drop_first(), a, b);
    }
}

/// A name of a file or a directory.
pub open spec fn is_name(x: Seq<char>) -> bool {
    x.len() > 0 && !x.contains('/') && x != "."@ && x != ".."@
}

proof fn lemma_key(d: Seq<char>, x: Seq<char>) -> (front: Seq<char>)
    requires
        is_name(x),
    ensures
        path_key(d + seq!['/'] + x) == front + (seq!['\u{4}'] + x + seq!['\0']),
        front == (if d.len() == 0 || d[0] == '/' {
            seq!['\u{1}', '\0']
        } else {
            Seq::empty()
        }) + steps_key(split(d, '/'), split(d, '/').len() as int),
{
    let s = d + seq!['/'] + x;
    lemma_split_last(d, x);
    let old = split(d, '/');
    let all = split(s, '/');
    assert(all == old.push(x));
    lemma_steps_same(old, all, old.len() as int);
    let root: Seq<char> = if d.len() == 0 || d[0] == '/' {
        seq!['\u{1}', '\0']
    } else {
        Seq::empty()
    };
    assert(s[0] == if d.len() == 0 {
        '/'
    } else {
        d[0]
    });
    let front = root + steps_key(old, old.len() as int);
    let key = seq!['\u{4}'] + x + seq!['\0'];
    assert(step_key(x, false) == key);
    assert(steps_key(all, all.len() as int) == steps_key(all, old.len() as int) + key);
    assert(root + (steps_key(old, old.len() as int) + key) =~= front + key);
    front
}

/// Two names in one directory come in the order of the names, each ended by a
/// character that comes before all others.
pub proof fn law_paths_go_by_step(
    p: &str,
    q: &str,
    a: String,
    b: String,
    d: Seq<char>,
    x: Seq<char>,
    y: Seq<char>,
)
    requires
        call_ensures(path_sort_key, (p,), a),
        call_ensures(path_sort_key, (q,), b),
        is_name(x),
        is_name(y),
        p@ == d + seq!['/'] + x,
        q@ == d + seq!['/'] + y,
    ensures
        lex_below(a@, b@) <==> lex_below(x + seq!['\0'], y + seq!['\0']),
        a@ == b@ <==> x == y,
{
    let f = lemma_key(d, x);
    let g = lemma_key(d, y);
    assert(f == g);
    let k = f + seq!['\u{4}'];
    assert(a@ =~= k + (x + seq!['\0']));
    assert(b@ =~= k + (y + seq!['\0']));
    lemma_common_front(k, x + seq!['\0'], y + seq!['\0']);
    if a@ == b@ {
        assert(a@.len() == b@.len());
        assert(x.len() == y.len());
        assert forall|i: int| 0 <= i < x.len() implies x[i] == y[i] by {
            assert(a@[k.len() + i] == x[i] && b@[k.len() + i] == y[i]);
        }
        assert(x =~= y);
    }
}

/// No wave of a plan is empty, the waves go on as long as some node is ready,
/// and the plan names the loop edge as the workflow has it.
pub proof fn law_shape_of_a_plan(wf: &Workflow, p: DryPlan, k: int)
    requires
        call_ensures(plan, (wf,), Ok::<DryPlan, String>(p)),
    ensures
        0 <= k < p.waves@.len() ==> p.waves@[k]@.len() > 0,
        p.loop_back_edge is Some ==> (p.loop_back_edge->0).loop_edge && exists|i: int|
            {
                &&& 0 <= i < wf.edges@.len()
                &&& (#[trigger] wf.edges@[i]).id@ == (p.loop_back_edge->0).id@
                &&& wf.edges@[i].from@ == (p.loop_back_edge->0).from@
                &&& wf.edges@[i].to@ == (p.loop_back_edge->0).to@
                &&& wf.edges@[i].from_port@ == (p.loop_back_edge->0).from_port@
                &&& wf.edges@[i].to_port@ == (p.loop_back_edge->0).to_port@
                &&& opt_text(wf.edges@[i].condition) == opt_text((p.loop_back_edge->0).condition)
                &&& wf.edges@[i].loop_edge
            },
{
    if 0 <= k < p.waves@.len() {
        let w = crate::workflow::wave_texts(p.waves@);
        assert(w[k] == texts(p.waves@[k]@));
        assert(w[k].len() > 0);
    }
    if p.loop_back_edge is Some {
        let at = crate::laws::run::law_loop_edge_is_the_only_one(*wf);
        assert(wf.edges@[at].loop_edge);
    }
}

/// The line names the unit of a user, behind its last slash.
pub open spec fn names_unit(line: Seq<char>, dir: Seq<char>, unit: Seq<char>) -> bool {
    &&& line == dir + seq!['/'] + unit
    &&& !unit.contains('/')
    &&& has_suffix(trim(unit), ".service"@)
    &&& contains(line, "/user.slice/"@)
}

proof fn lemma_unit(line: Seq<char>, dir: Seq<char>, unit: Seq<char>)
    requires
        names_unit(line, dir, unit),
    ensures
        unit_on_line(line) == Some(trim(unit)),
{
    lemma_last_pos(line, '/');
    assert(line[dir.len() as int] == '/');
    let p = last_pos(line, '/')->0;
    if p > dir.len() {
        assert(line[p] == unit[p - dir.len() - 1]);
        assert(unit.contains(unit[p - dir.len() - 1]));
    }
    assert(line.skip(p + 1) =~= unit);
}

proof fn lemma_unit_from(ls: Seq<Seq<char>>, k: int, i: int)
    requires
        0 <= k <= i < ls.len(),
        unit_on_line(ls[i]) is Some,
        forall|j: int| 0 <= j < i ==> unit_on_line(#[trigger] ls[j]) is None,
    ensures
        unit_from(ls, k) == unit_on_line(ls[i]),
    decreases i - k,
{
    if k < i {
        assert(unit_on_line(ls[k]) is None);
        lemma_unit_from(ls, k + 1, i);
    }
}

/// The unit of a process is the one that the first line names which names one.
pub proof fn law_unit_of_a_process(
    cgroup: &str,
    r: Option<String>,
    i: int,
    dir: Seq<char>,
    unit: Seq<char>,
)
    requires
        call_ensures(extract_systemd_unit, (cgroup,), r),
        0 <= i < lines(cgroup@).len(),
        names_unit(lines(cgroup@)[i], dir, unit),
        forall|j: int| 0 <= j < i ==> !contains(#[trigger] lines(cgroup@)[j], "/user.slice/"@),
    ensures
        opt_text(r) == Some(trim(unit)),
{
    let ls = lines(cgroup@);
    lemma_unit(ls[i], dir, unit);
    assert forall|j: int| 0 <= j < i implies unit_on_line(#[trigger] ls[j]) is None by {
        assert(!contains(ls[j], "/user.slice/"@));
    }
    lemma_unit_from(ls, 0, i);
}

/// A sync says that there is nothing to do, or what it would write, or what it
/// wrote.
pub proof fn law_sync_says(
    text: Option<&str>,
    model: &str,
    write: bool,
    path: &str,
    ts: &str,
    r: Result<SyncPlan, String>,
    m: Members,
)
    requires
        call_ensures(sync_opencode, (text, model, write, path, ts), r),
        text is Some ==> json_reading((text->0)@) == Ok::<JsonView, Seq<char>>(
            JsonView::Object(m),
        ),
        text is None ==> m.len() == 0,
        mirrored(m, model@) == m,
    ensures
        write ==> (r->Ok_0).message@ == "opencode.json already mirrors deck → "@ + model@
            + " (no change)"@,
        !write ==> (r->Ok_0).message@ == "opencode.json already mirrors deck → "@ + model@
            + " (no change)"@ + "\n(dry-run: add --write to write "@ + path@ + ")"@,
{
    law_mirror_changes_only_what_differs(m, model@);
    if text is None {
        assert(m =~= Seq::empty());
    }
}

/// A service whose command names no model is shown by its unit; a command that
/// is shown with its parts is what stands behind their mark, up to the end.
pub proof fn law_commands_with_parts(
    shown: &str,
    r: String,
    a: Seq<char>,
    cmd: Seq<char>,
    b: Seq<char>,
)
    requires
        call_ensures(get_exec_start, (shown,), r),
        trim(shown@) == a + "argv[]="@ + (cmd + seq![';'] + b),
        !cmd.contains(';'),
        trim(cmd).len() > 0,
        forall|j: int| 0 <= j < a.len() ==> !occurs_at(trim(shown@), "argv[]="@, j),
    ensures
        r@ == trim(cmd),
{
    let raw = trim(shown@);
    let n = a.len() as int;
    let rest = cmd + seq![';'] + b;
    reveal_strlit("argv[]=");
    reveal_strlit(";");
    assert("argv[]="@.len() == 7);
    assert(";"@ =~= seq![';']);
    assert(raw.subrange(n, n + 7) =~= "argv[]="@);
    lemma_found(raw, "argv[]="@, n);
    assert(raw.skip(n + 7) =~= rest);
    let e = cmd.len() as int;
    assert(rest.subrange(e, e + 1) =~= ";"@);
    assert forall|j: int| 0 <= j < e implies !occurs_at(rest, ";"@, j) by {
        assert(rest[j] == cmd[j]);
        assert(cmd.contains(cmd[j]));
        if occurs_at(rest, ";"@, j) {
            assert(rest.subrange(j, j + 1)[0] == rest[j]);
        }
    }
    lemma_found(rest, ";"@, e);
    assert(rest.take(e) =~= cmd);
}

proof fn lemma_found(s: Seq<char>, p: Seq<char>, at: int)
    requires
        0 <= at,
        occurs_at(s, p, at),
        forall|j: int| 0 <= j < at ==> !occurs_at(s, p, j),
    ensures
        find(s, p) == Some(at),
{
    lemma_find_from(s, p, 0);
    if find(s, p) is Some {
        let i = find(s, p)->0;
        if i < at {
            assert(!occurs_at(s, p, i));
        } else if at < i {
            assert(!occurs_at(s, p, at));
        }
    } else {
        assert(!occurs_at(s, p, at));
    }
}

/// The programs that tell a version, and the places where an engine shows that
/// it lives.
pub proof fn law_signs_of_life(e: Engine, w: &'static str, host: &str, port: u16, r: Vec<String>)
    requires
        call_ensures(version_program, (e,), w),
        call_ensures(liveness_urls, (host, port), r),
    ensures
        e == Engine::Ollama ==> w@ == "ollama"@,
        e == Engine::FreeToken ==> w@ == "ft"@,
        e == Engine::LlamaCpp || e == Engine::UncensoredLlamaCpp ==> w@ == "llama-server"@,
        r@.len() == 3,
        r@[0]@ == "http://"@ + host@ + ":"@ + decimal(port as nat) + "/health"@,
        r@[1]@ == "http://"@ + host@ + ":"@ + decimal(port as nat) + "/v1/models"@,
        r@[2]@ == "http://"@ + host@ + ":"@ + decimal(port as nat) + "/api/tags"@,
{
    let t = texts(r@);
    assert(t.len() == 3);
    assert(t[0] == r@[0]@ && t[1] == r@[1]@ && t[2] == r@[2]@);
}

/// An engine that is only tried has no key; Ollama is told where to bind.
pub proof fn law_environment_of_a_trial(
    p: &Profile,
    ms: &Vec<RuntimeManifest>,
    r: Vec<(String, String)>,
)
    requires
        call_ensures(child_env_for, (p, ms), r),
        p.runtime_id is None,
    ensures
        p.engine != Engine::Ollama ==> r@.len() == 0,
        p.engine == Engine::Ollama ==> r@.len() == 1 && r@[0].0@ == "OLLAMA_HOST"@ && r@[0].1@
            == p.host@ + ":"@ + decimal(p.port as nat),
{
    let t = pair_texts(r@);
    assert(t.len() == r@.len());
    if r@.len() > 0 {
        assert(t[0] == (r@[0].0@, r@[0].1@));
    }
}

/// The versions of the engines stand in a document under their ids; one that
/// reports nothing is left out.
pub proof fn law_versions_document(llama: &str, ollama: &str, r: String, a: Seq<char>, b: Seq<char>)
    requires
        call_ensures(engines_json, (llama, ollama), r),
    ensures
        lines(trim(llama@)).len() > 0 && lines(trim(ollama@)).len() > 0 && a == lines(
            trim(llama@),
        )[0] && b == lines(trim(ollama@))[0] ==> r@ == "{"@ + (json_string("llamacpp"@) + ":"@
            + json_string(a)) + ","@ + (json_string("ollama"@) + ":"@ + json_string(b)) + "}"@,
        lines(trim(llama@)).len() == 0 && lines(trim(ollama@)).len() == 0 ==> r@ == "{}"@,
{
}

} // verus!
