//! What the deck reads from a running engine, and how a bring-up is judged.
use vstd::prelude::*;
use vstd::string::StringExecFns;

use crate::engines::boots::{answered_by, BootCall, Booter, Boots};
use crate::importer::{is_float_numeral, reads_as_float, str_strip, strip};
use crate::measure::Measure;
use crate::profile::{same_but_ctx, Engine, Profile};
use crate::runtime::begins_with;
use crate::text::{
    contains, decimal, decimal_of, lines, lowercased, opt_text, owned, same, str_contains,
    str_lines, str_lower, str_trim, str_words, texts, trim, words,
};

verus! {

/// The prompt of a probe: long enough that the steady decode rate dominates.
pub const PROBE_PROMPT: &'static str =
    "Write a detailed explanation of how transformer attention works: queries, keys, values, softmax, and multi-head attention.";

/// Outcome of trying a loadout on a test port.
#[derive(Debug, Clone, PartialEq)]
pub struct BringupOutcome {
    /// The context that was tried last.
    pub ctx: u32,
    pub verdict: String,
    pub summary: String,
    /// Generated tokens per second, where the engine reports them.
    pub tok_per_sec: Option<Measure>,
}

/// The line is a comment.
pub open spec fn is_comment(l: Seq<char>) -> bool {
    l.len() > 0 && l[0] == '#'
}

/// The line is a gauge of the generation rate.
pub open spec fn is_generation_gauge(l: Seq<char>) -> bool {
    !is_comment(l) && contains(l, "generation"@) && contains(l, "tok"@) && contains(l, "per_sec"@)
}

/// The line is a gauge of some token rate: neither a counter nor the rate at
/// which prompts are read.
pub open spec fn is_rate_gauge(l: Seq<char>) -> bool {
    &&& !is_comment(l)
    &&& !contains(l, "_total"@)
    &&& !contains(l, "prompt"@)
    &&& contains(l, "tok"@)
    &&& contains(l, "per_sec"@) || contains(l, "tokens_seconds"@)
}

/// The number at the end of a line.
pub open spec fn reading(l: Seq<char>) -> Option<Seq<char>> {
    let w = words(l);
    if w.len() > 0 && is_float_numeral(w.last()) {
        Some(w.last())
    } else {
        None
    }
}

/// The reading of the first line at or after `i` that is a gauge and has one.
pub open spec fn gauge_from(ls: Seq<Seq<char>>, generation: bool, i: int) -> Option<Seq<char>>
    decreases ls.len() - i,
{
    if i < 0 || i >= ls.len() {
        None
    } else {
        let l = trim(ls[i]);
        let gauge = if generation {
            is_generation_gauge(l)
        } else {
            is_rate_gauge(l)
        };
        if gauge && reading(l) is Some {
            reading(l)
        } else {
            gauge_from(ls, generation, i + 1)
        }
    }
}

/// The generation rate that a metrics report gives, as its numeral: that of an
/// explicit gauge of generation, or else of any gauge of a token rate.
pub open spec fn reported_tps(text: Seq<char>) -> Option<Seq<char>> {
    match gauge_from(lines(text), true, 0) {
        Some(v) => Some(v),
        None => gauge_from(lines(text), false, 0),
    }
}

fn line_is_gauge(l: &str, generation: bool) -> (r: bool)
    ensures
        r == if generation {
            is_generation_gauge(l@)
        } else {
            is_rate_gauge(l@)
        },
{
    if begins_with(l, '#') {
        return false;
    }
    if generation {
        str_contains(l, "generation") && str_contains(l, "tok") && str_contains(l, "per_sec")
    } else {
        !str_contains(l, "_total") && !str_contains(l, "prompt") && str_contains(l, "tok") && (
        str_contains(l, "per_sec") || str_contains(l, "tokens_seconds"))
    }
}

fn line_reading(l: &str) -> (r: Option<String>)
    ensures
        opt_text(r) == reading(l@),
{
    let w = str_words(l);
    assert(texts(w@).len() == w@.len());
    if w.len() > 0 {
        assert(texts(w@).last() == w@[w@.len() - 1]@);
        if reads_as_float(w[w.len() - 1].as_str()) {
            return Some(owned(w[w.len() - 1].as_str()));
        }
    }
    None
}

fn find_gauge(ls: &Vec<String>, generation: bool) -> (r: Option<String>)
    ensures
        opt_text(r) == gauge_from(texts(ls@), generation, 0),
{
    let ghost all = texts(ls@);
    let mut i: usize = 0;
    while i < ls.len()
        invariant
            all == texts(ls@),
            i <= ls@.len(),
            gauge_from(all, generation, 0) == gauge_from(all, generation, i as int),
        decreases ls@.len() - i,
    {
        assert(all[i as int] == ls@[i as int]@);
        let l = str_trim(ls[i].as_str());
        if line_is_gauge(l.as_str(), generation) {
            match line_reading(l.as_str()) {
                Some(v) => {
                    return Some(v);
                },
                None => {},
            }
        }
        i = i + 1;
    }
    None
}

/// The generation rate that a metrics report gives, as its numeral.
pub fn parse_tps(text: &str) -> (r: Option<String>)
    ensures
        opt_text(r) == reported_tps(text@),
{
    let ls = str_lines(text);
    match find_gauge(&ls, true) {
        Some(v) => Some(v),
        None => find_gauge(&ls, false),
    }
}

/// Comments, counters and prompt rates never count as the generation rate: a
/// report of nothing else gives none.
pub proof fn law_counters_give_no_rate(text: Seq<char>)
    requires
        forall|i: int|
            0 <= i < lines(text).len() ==> {
                let l = trim(#[trigger] lines(text)[i]);
                is_comment(l) || ((contains(l, "_total"@) || contains(l, "prompt"@)) && !contains(
                    l,
                    "generation"@,
                ))
            },
    ensures
        reported_tps(text) is None,
{
    lemma_no_gauge(lines(text), true, 0);
    lemma_no_gauge(lines(text), false, 0);
}

proof fn lemma_no_gauge(ls: Seq<Seq<char>>, generation: bool, i: int)
    requires
        0 <= i,
        forall|k: int|
            0 <= k < ls.len() ==> {
                let l = trim(#[trigger] ls[k]);
                is_comment(l) || ((contains(l, "_total"@) || contains(l, "prompt"@)) && !contains(
                    l,
                    "generation"@,
                ))
            },
    ensures
        gauge_from(ls, generation, i) is None,
    decreases ls.len() - i,
{
    if i < ls.len() {
        assert({
            let l = trim(ls[i]);
            is_comment(l) || ((contains(l, "_total"@) || contains(l, "prompt"@)) && !contains(
                l,
                "generation"@,
            ))
        });
        lemma_no_gauge(ls, generation, i + 1);
    }
}

/// The version on a line of a metrics report.
pub open spec fn version_on_line(line: Seq<char>) -> Option<Seq<char>> {
    let l = trim(line);
    let w = words(l);
    if contains(l, "llama_version"@) && !is_comment(l) && w.len() > 0 {
        let v = strip(w.last(), '"');
        if v.len() > 0 && v != "0"@ {
            Some(v)
        } else {
            None
        }
    } else {
        None
    }
}

/// The version on the first line at or after `i` that has one.
pub open spec fn version_from(ls: Seq<Seq<char>>, i: int) -> Option<Seq<char>>
    decreases ls.len() - i,
{
    if i < 0 || i >= ls.len() {
        None
    } else {
        match version_on_line(ls[i]) {
            Some(v) => Some(v),
            None => version_from(ls, i + 1),
        }
    }
}

fn line_version(line: &str) -> (r: Option<String>)
    ensures
        opt_text(r) == version_on_line(line@),
{
    let l = str_trim(line);
    if !str_contains(l.as_str(), "llama_version") || begins_with(l.as_str(), '#') {
        return None;
    }
    let w = str_words(l.as_str());
    assert(texts(w@).len() == w@.len());
    if w.len() == 0 {
        return None;
    }
    assert(texts(w@).last() == w@[w@.len() - 1]@);
    let v = str_strip(w[w.len() - 1].as_str(), '"');
    if v.as_str().is_empty() || same(v.as_str(), "0") {
        None
    } else {
        Some(v)
    }
}

/// The engine version that a metrics report gives.
pub fn version_in_metrics(text: &str) -> (r: Option<String>)
    ensures
        opt_text(r) == version_from(lines(text@), 0),
{
    let ls = str_lines(text);
    let ghost all = texts(ls@);
    let mut i: usize = 0;
    while i < ls.len()
        invariant
            all == texts(ls@),
            all == lines(text@),
            i <= ls@.len(),
            version_from(all, 0) == version_from(all, i as int),
        decreases ls@.len() - i,
    {
        assert(all[i as int] == ls@[i as int]@);
        match line_version(ls[i].as_str()) {
            Some(v) => {
                return Some(v);
            },
            None => {},
        }
        i = i + 1;
    }
    None
}

/// The first line at or after `i` that is not blank, trimmed.
pub open spec fn line_from(ls: Seq<Seq<char>>, i: int) -> Option<Seq<char>>
    decreases ls.len() - i,
{
    if i < 0 || i >= ls.len() {
        None
    } else if trim(ls[i]).len() > 0 {
        Some(trim(ls[i]))
    } else {
        line_from(ls, i + 1)
    }
}

fn line_in(text: &str) -> (r: Option<String>)
    ensures
        opt_text(r) == line_from(lines(text@), 0),
{
    let ls = str_lines(text);
    let ghost all = texts(ls@);
    let mut i: usize = 0;
    while i < ls.len()
        invariant
            all == texts(ls@),
            all == lines(text@),
            i <= ls@.len(),
            line_from(all, 0) == line_from(all, i as int),
        decreases ls@.len() - i,
    {
        assert(all[i as int] == ls@[i as int]@);
        let l = str_trim(ls[i].as_str());
        if !l.as_str().is_empty() {
            return Some(l);
        }
        i = i + 1;
    }
    None
}

/// The first line that a program printed which is not blank: of its output,
/// else of its error output.
pub open spec fn printed_line(stdout: Seq<char>, stderr: Seq<char>) -> Option<Seq<char>> {
    match line_from(lines(stdout), 0) {
        Some(l) => Some(l),
        None => line_from(lines(stderr), 0),
    }
}

/// The first line that a program printed which is not blank.
pub fn first_printed_line(stdout: &str, stderr: &str) -> (r: Option<String>)
    ensures
        opt_text(r) == printed_line(stdout@, stderr@),
{
    match line_in(stdout) {
        Some(l) => Some(l),
        None => line_in(stderr),
    }
}

/// The program that tells an engine's version.
pub fn version_program(engine: Engine) -> (r: &'static str)
    ensures
        r@ == match engine {
            Engine::LlamaCpp | Engine::UncensoredLlamaCpp => "llama-server"@,
            Engine::FreeToken => "ft"@,
            Engine::Ollama => "ollama"@,
        },
{
    match engine {
        Engine::LlamaCpp | Engine::UncensoredLlamaCpp => "llama-server",
        Engine::FreeToken => "ft",
        Engine::Ollama => "ollama",
    }
}

/// The address of an endpoint of an engine.
pub open spec fn endpoint(host: Seq<char>, port: u16, path: Seq<char>) -> Seq<char> {
    "http://"@ + host + ":"@ + decimal(port as nat) + path
}

/// The address of an endpoint of an engine.
pub fn endpoint_url(host: &str, port: u16, path: &str) -> (r: String)
    ensures
        r@ == endpoint(host@, port, path@),
{
    let mut r = owned("http://");
    r.append(host);
    r.append(":");
    r.append(decimal_of(port as u64).as_str());
    r.append(path);
    r
}

/// The endpoints any of which shows that an engine is alive.
pub fn liveness_urls(host: &str, port: u16) -> (r: Vec<String>)
    ensures
        texts(r@) == seq![
            endpoint(host@, port, "/health"@),
            endpoint(host@, port, "/v1/models"@),
            endpoint(host@, port, "/api/tags"@),
        ],
{
    let mut r: Vec<String> = Vec::new();
    r.push(endpoint_url(host, port, "/health"));
    r.push(endpoint_url(host, port, "/v1/models"));
    r.push(endpoint_url(host, port, "/api/tags"));
    assert(texts(r@) =~= seq![
        endpoint(host@, port, "/health"@),
        endpoint(host@, port, "/v1/models"@),
        endpoint(host@, port, "/api/tags"@),
    ]);
    r
}

/// The words that show that an engine could not allocate memory.
pub open spec fn oom_markers() -> Seq<Seq<char>> {
    seq![
        "out of memory"@,
        "cuda out of memory"@,
        "allocation failed"@,
        "cannot allocate"@,
        "cudamalloc"@,
        "illegal memory"@,
        "std::bad_alloc"@,
        "failed to allocate"@,
        "oom"@,
        "vkerror"@,
    ]
}

/// The words that show that an engine could not allocate memory.
pub fn oom_marker_list() -> (r: Vec<&'static str>)
    ensures
        r@.len() == oom_markers().len(),
        forall|i: int| 0 <= i < r@.len() ==> (#[trigger] r@[i])@ == oom_markers()[i],
{
    vec![
        "out of memory",
        "cuda out of memory",
        "allocation failed",
        "cannot allocate",
        "cudamalloc",
        "illegal memory",
        "std::bad_alloc",
        "failed to allocate",
        "oom",
        "vkerror",
    ]
}

/// A line of an engine's log shows that it could not allocate memory.
pub open spec fn shows_oom(line: Seq<char>) -> bool {
    exists|i: int|
        0 <= i < oom_markers().len() && contains(lowercased(line), #[trigger] oom_markers()[i])
}

/// Whether a line of an engine's log shows that it could not allocate memory.
pub fn logs_oom(line: &str) -> (r: bool)
    ensures
        r == shows_oom(line@),
{
    let low = str_lower(line);
    let ms = oom_marker_list();
    let mut i: usize = 0;
    while i < ms.len()
        invariant
            low@ == lowercased(line@),
            ms@.len() == oom_markers().len(),
            forall|k: int| 0 <= k < ms@.len() ==> (#[trigger] ms@[k])@ == oom_markers()[k],
            i <= ms@.len(),
            forall|k: int| 0 <= k < i ==> !contains(low@, #[trigger] oom_markers()[k]),
        decreases ms@.len() - i,
    {
        assert(ms@[i as int]@ == oom_markers()[i as int]);
        if str_contains(low.as_str(), ms[i]) {
            return true;
        }
        i = i + 1;
    }
    false
}

/// How a boot ended.
#[derive(Debug, Clone, PartialEq)]
pub enum BootVerdict {
    /// Not yet: wait and look again.
    Waiting,
    /// The engine serves.
    Running,
    /// The engine failed: a word and a reason.
    Failed(String, String),
}

/// What is seen of a booting engine at one moment.
pub struct BootView {
    /// Its log shows that it could not allocate memory.
    pub oom: bool,
    /// The status with which it exited.
    pub exited: Option<Seq<char>>,
    pub healthy: bool,
    pub timed_out: bool,
}

/// How a boot stands: memory first, then an early exit, then health, then the
/// clock.
pub open spec fn boot_spec(v: BootView) -> Option<Option<(Seq<char>, Seq<char>)>> {
    if v.oom {
        Some(Some(("OOM"@, "engine logged an out-of-memory / allocation failure"@)))
    } else if v.exited is Some {
        Some(Some(("CRASH"@, "engine exited early with status "@ + v.exited->0)))
    } else if v.healthy {
        Some(None)
    } else if v.timed_out {
        Some(Some(("TIMEOUT"@, "never reported healthy within the timeout"@)))
    } else {
        None
    }
}

/// What a verdict says: nothing yet, or that the engine serves, or how it
/// failed.
pub open spec fn verdict_view(v: BootVerdict) -> Option<Option<(Seq<char>, Seq<char>)>> {
    match v {
        BootVerdict::Waiting => None,
        BootVerdict::Running => Some(None),
        BootVerdict::Failed(w, s) => Some(Some((w@, s@))),
    }
}

/// Judges a booting engine by what is seen of it.
pub fn judge_boot(oom: bool, exited: Option<String>, healthy: bool, timed_out: bool) -> (r:
    BootVerdict)
    ensures
        verdict_view(r) == boot_spec(
            BootView { oom, exited: opt_text(exited), healthy, timed_out },
        ),
{
    if oom {
        return BootVerdict::Failed(
            owned("OOM"),
            owned("engine logged an out-of-memory / allocation failure"),
        );
    }
    match exited {
        Some(s) => {
            let mut m = owned("engine exited early with status ");
            m.append(s.as_str());
            return BootVerdict::Failed(owned("CRASH"), m);
        },
        None => {},
    }
    if healthy {
        BootVerdict::Running
    } else if timed_out {
        BootVerdict::Failed(owned("TIMEOUT"), owned("never reported healthy within the timeout"))
    } else {
        BootVerdict::Waiting
    }
}

/// The verdict on an engine that could not be spawned.
pub fn spawn_failed(bin: &str, error: &str) -> (r: (String, String))
    ensures
        r.0@ == "ERROR"@,
        r.1@ == "failed to spawn "@ + bin@ + ": "@ + error@,
{
    let mut m = owned("failed to spawn ");
    m.append(bin);
    m.append(": ");
    m.append(error);
    (owned("ERROR"), m)
}

/// The outcome where one of the contexts served.
pub open spec fn is_serving(r: BringupOutcome, ctx: u32, tps: Option<Measure>) -> bool {
    &&& r.ctx == ctx
    &&& r.verdict@ == "RUNNING"@
    &&& r.summary@ == "engine loaded and is serving on the test port"@
    &&& r.tok_per_sec == tps
}

/// The outcome where none did.
pub open spec fn is_exhausted(r: BringupOutcome, p: Profile) -> bool {
    &&& r.ctx == p.ctx_size
    &&& r.verdict@ == "FAIL"@
    &&& r.summary@ == "all ctx-ladder candidates failed to serve on the test port"@
    &&& r.tok_per_sec is None
}

/// The contexts that are tried, in order.
pub open spec fn boot_ladder(p: Profile) -> Seq<u32> {
    seq![p.ctx_size] + p.ctx_ladder@
}

/// Boot `k` is that of the loadout at its `k`-th context, on the test port.
pub open spec fn boots_step(p: Profile, test_port: u16, calls: Seq<BootCall>, k: int) -> bool {
    &&& same_but_ctx(calls[k].profile, p)
    &&& calls[k].profile.ctx_size == boot_ladder(p)[k]
    &&& calls[k].test_port == test_port
}

/// The boots walk down the ladder until one serves, and the outcome says which,
/// or that none did.
pub open spec fn is_walk(
    r: BringupOutcome,
    p: Profile,
    test_port: u16,
    calls: Seq<BootCall>,
) -> bool {
    &&& 0 < calls.len() <= boot_ladder(p).len()
    &&& forall|k: int| 0 <= k < calls.len() ==> #[trigger] boots_step(p, test_port, calls, k)
    &&& forall|k: int| 0 <= k < calls.len() - 1 ==> (#[trigger] calls[k]).answer is Err
    &&& match calls.last().answer {
        Ok(tps) => is_serving(r, boot_ladder(p)[calls.len() - 1], tps),
        Err(_) => calls.len() == boot_ladder(p).len() && is_exhausted(r, p),
    }
}

/// Tries a loadout on a test port. Where the configured context does not
/// serve, the ladder is walked down; the first that serves is the outcome.
/// Nothing else is booted, and nothing on another port: the live service is not
/// touched.
pub fn verify_on_test_port<B: Booter>(p: &Profile, test_port: u16, boots: &mut Boots<B>) -> (r:
    BringupOutcome)
    ensures
        final(boots).booter() == old(boots).booter(),
        ({
            let n = old(boots)@.len();
            let calls = final(boots)@.skip(n as int);
            &&& n <= final(boots)@.len()
            &&& final(boots)@.take(n as int) == old(boots)@
            &&& is_walk(r, *p, test_port, calls)
            &&& forall|k: int|
                0 <= k < calls.len() ==> answered_by(old(boots).booter(), #[trigger] calls[k])
        }),
{
    let ladder = p.active_ladder();
    let ghost before = boots@;
    let ghost n = before.len() as int;
    let ghost booter = boots.booter();
    let mut i: usize = 0;
    while i < ladder.len()
        invariant
            ladder@ == boot_ladder(*p),
            i <= ladder@.len(),
            n == before.len(),
            before == old(boots)@,
            booter == old(boots).booter(),
            boots.booter() == booter,
            boots@.len() == n + i,
            boots@.take(n) == before,
            forall|k: int|
                0 <= k < i ==> #[trigger] boots_step(*p, test_port, boots@.skip(n), k),
            forall|k: int| 0 <= k < i ==> (#[trigger] boots@.skip(n)[k]).answer is Err,
            forall|k: int|
                0 <= k < i ==> answered_by(booter, #[trigger] boots@.skip(n)[k]),
        decreases ladder@.len() - i,
    {
        let ctx = ladder[i];
        let draft = p.at_ctx(ctx);
        let ghost made = boots@.skip(n);
        let answer = boots.boot(&draft, test_port);
        proof {
            let c = boots@.last();
            assert(boots@.skip(n) =~= made.push(c));
            assert(boots@.take(n) =~= before);
            assert forall|k: int| 0 <= k < i + 1 implies #[trigger] boots_step(
                *p,
                test_port,
                boots@.skip(n),
                k,
            ) by {
                if k < i {
                    assert(boots_step(*p, test_port, made, k));
                }
            }
            assert forall|k: int| 0 <= k < i + 1 implies answered_by(
                booter,
                #[trigger] boots@.skip(n)[k],
            ) by {
                if k < i {
                    assert(answered_by(booter, made[k]));
                }
            }
            assert forall|k: int| 0 <= k < i implies (
            #[trigger] boots@.skip(n)[k]).answer is Err by {
                assert(made[k].answer is Err);
            }
            assert(boots@.skip(n).last() == c);
        }
        if let Ok(tps) = answer {
            return BringupOutcome {
                ctx,
                verdict: owned("RUNNING"),
                summary: owned("engine loaded and is serving on the test port"),
                tok_per_sec: tps,
            };
        }
        i = i + 1;
    }
    BringupOutcome {
        ctx: p.ctx_size,
        verdict: owned("FAIL"),
        summary: owned("all ctx-ladder candidates failed to serve on the test port"),
        tok_per_sec: None,
    }
}

/// Whether a reading of the gauge counts: an idle engine reads zero.
pub fn usable_reading(v: Option<Measure>) -> (r: Option<Measure>)
    ensures
        r == match v {
            Some(m) => if m.positive() {
                Some(m)
            } else {
                None
            },
            None => None,
        },
{
    match v {
        Some(m) => if m.is_positive() {
            Some(m)
        } else {
            None
        },
        None => None,
    }
}

/// The rate of a live engine: what its gauge reads, or else what a probe
/// measured; an error where neither gives a positive number.
pub fn measured_rate(gauge: Option<Measure>, probe: Option<Measure>, probe_error: &Option<String>) -> (r:
    Result<Measure, String>)
    ensures
        match r {
            Ok(m) => if gauge is Some && (gauge->0).positive() {
                gauge == Some(m)
            } else {
                probe == Some(m) && m.positive()
            },
            Err(e) => !(gauge is Some && (gauge->0).positive()) && !(probe is Some && (
            probe->0).positive()) && e@ == "probe generation failed: "@ + match opt_text(
                *probe_error,
            ) {
                Some(p) => p,
                None => "no tok/s"@,
            },
        },
{
    match usable_reading(gauge) {
        Some(m) => {
            return Ok(m);
        },
        None => {},
    }
    match usable_reading(probe) {
        Some(m) => Ok(m),
        None => {
            let mut e = owned("probe generation failed: ");
            match probe_error {
                Some(p) => e.append(p.as_str()),
                None => e.append("no tok/s"),
            }
            Err(e)
        },
    }
}

} // verus!
