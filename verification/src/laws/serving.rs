//! What is read from a running engine, and how a boot is judged.
use vstd::prelude::*;

use crate::engines::boots::BootCall;
use crate::engines::health::{
    boot_ladder, boots_step, endpoint_url, first_printed_line, gauge_from, is_walk, judge_boot,
    line_from, logs_oom, oom_markers, parse_tps, version_in_metrics, BootVerdict, BringupOutcome,
};
use crate::engines::inference::{
    detect_engine_version, prompt_request, read_answer, sample_from_ollama_json,
    sample_from_openai_json, version_in_answer, PromptRequest, Rate, Reading,
};
use crate::importer::is_float_numeral;
use crate::json::{json_reading, json_string, member, Json, JsonView};
use crate::measure::Measure;
use crate::profile::{Engine, EngineProtocol, Profile};
use crate::text::{contains, debug_text, decimal, lines, lowercased, opt_text, trim, words};

verus! {

/// A line that states a number last.
pub open spec fn states(line: Seq<char>, number: Seq<char>) -> bool {
    words(trim(line)).len() > 0 && words(trim(line)).last() == number && is_float_numeral(number)
}

/// A line, no comment, of the rate at which tokens are generated.
pub open spec fn tells_generation(line: Seq<char>) -> bool {
    let l = trim(line);
    &&& l.len() == 0 || l[0] != '#'
    &&& contains(l, "generation"@)
    &&& contains(l, "tok"@)
    &&& contains(l, "per_sec"@)
}

/// A line, no comment, of some rate of tokens: no running total, and not of
/// prompts.
pub open spec fn tells_rate(line: Seq<char>) -> bool {
    let l = trim(line);
    &&& l.len() == 0 || l[0] != '#'
    &&& !contains(l, "_total"@)
    &&& !contains(l, "prompt"@)
    &&& contains(l, "tok"@)
    &&& contains(l, "per_sec"@) || contains(l, "tokens_seconds"@)
}

/// The line tells the wanted rate, and states a number.
pub open spec fn is_reading(line: Seq<char>, generation: bool) -> bool {
    &&& if generation {
        tells_generation(line)
    } else {
        tells_rate(line)
    }
    &&& words(trim(line)).len() > 0
    &&& is_float_numeral(words(trim(line)).last())
}

proof fn lemma_gauge(ls: Seq<Seq<char>>, generation: bool, k: int, i: int)
    requires
        0 <= k <= i < ls.len(),
        is_reading(ls[i], generation),
        forall|j: int| k <= j < i ==> !is_reading(#[trigger] ls[j], generation),
    ensures
        gauge_from(ls, generation, k) == Some(words(trim(ls[i])).last()),
    decreases i - k,
{
    if k < i {
        assert(!is_reading(ls[k], generation));
        lemma_gauge(ls, generation, k + 1, i);
    }
}

proof fn lemma_no_gauge(ls: Seq<Seq<char>>, generation: bool, k: int)
    requires
        0 <= k <= ls.len(),
        forall|j: int| k <= j < ls.len() ==> !is_reading(#[trigger] ls[j], generation),
    ensures
        gauge_from(ls, generation, k) is None,
    decreases ls.len() - k,
{
    if k < ls.len() {
        assert(!is_reading(ls[k], generation));
        lemma_no_gauge(ls, generation, k + 1);
    }
}

/// The rate is the number on the first line that tells the rate of generation;
/// without one, on the first line that tells some rate of tokens; else there
/// is none.
pub proof fn law_rate_in_metrics(text: &str, r: Option<String>, i: int)
    requires
        call_ensures(parse_tps, (text,), r),
    ensures
        0 <= i < lines(text@).len() && is_reading(lines(text@)[i], true) && (forall|j: int|
            0 <= j < i ==> !is_reading(#[trigger] lines(text@)[j], true)) ==> opt_text(r) == Some(
            words(trim(lines(text@)[i])).last(),
        ),
        0 <= i < lines(text@).len() && is_reading(lines(text@)[i], false) && (forall|j: int|
            0 <= j < i ==> !is_reading(#[trigger] lines(text@)[j], false)) && (forall|j: int|
            0 <= j < lines(text@).len() ==> !is_reading(#[trigger] lines(text@)[j], true))
            ==> opt_text(r) == Some(words(trim(lines(text@)[i])).last()),
        (forall|j: int|
            0 <= j < lines(text@).len() ==> !is_reading(#[trigger] lines(text@)[j], false)
                && !is_reading(lines(text@)[j], true)) ==> r is None,
{
    let ls = lines(text@);
    if 0 <= i < ls.len() && is_reading(ls[i], true) && (forall|j: int|
        0 <= j < i ==> !is_reading(#[trigger] ls[j], true)) {
        lemma_gauge(ls, true, 0, i);
    }
    if forall|j: int| 0 <= j < ls.len() ==> !is_reading(#[trigger] ls[j], true) {
        lemma_no_gauge(ls, true, 0);
        if 0 <= i < ls.len() && is_reading(ls[i], false) && (forall|j: int|
            0 <= j < i ==> !is_reading(#[trigger] ls[j], false)) {
            lemma_gauge(ls, false, 0, i);
        }
        if forall|j: int| 0 <= j < ls.len() ==> !is_reading(#[trigger] ls[j], false) {
            lemma_no_gauge(ls, false, 0);
        }
    }
}

/// An engine that could not allocate memory says so in one of these ways, in
/// large or small letters.
pub proof fn law_signs_of_no_memory(line: &str, r: bool)
    requires
        call_ensures(logs_oom, (line,), r),
    ensures
        r <==> {
            let l = lowercased(line@);
            ||| contains(l, "out of memory"@)
            ||| contains(l, "cuda out of memory"@)
            ||| contains(l, "allocation failed"@)
            ||| contains(l, "cannot allocate"@)
            ||| contains(l, "cudamalloc"@)
            ||| contains(l, "illegal memory"@)
            ||| contains(l, "std::bad_alloc"@)
            ||| contains(l, "failed to allocate"@)
            ||| contains(l, "oom"@)
            ||| contains(l, "vkerror"@)
        },
{
    let m = oom_markers();
    assert(m.len() == 10);
    assert(m[0] == "out of memory"@ && m[1] == "cuda out of memory"@ && m[2]
        == "allocation failed"@ && m[3] == "cannot allocate"@ && m[4] == "cudamalloc"@ && m[5]
        == "illegal memory"@ && m[6] == "std::bad_alloc"@ && m[7] == "failed to allocate"@ && m[8]
        == "oom"@ && m[9] == "vkerror"@);
}

/// A boot that ran out of memory failed, whatever else is seen; else one that
/// exited failed; else one that answers serves; else one that took too long
/// failed; else it is waited for.
pub proof fn law_verdict_of_a_boot(
    oom: bool,
    exited: Option<String>,
    healthy: bool,
    timed_out: bool,
    r: BootVerdict,
)
    requires
        call_ensures(judge_boot, (oom, exited, healthy, timed_out), r),
    ensures
        oom ==> (r matches BootVerdict::Failed(w, s) && w@ == "OOM"@ && s@
            == "engine logged an out-of-memory / allocation failure"@),
        !oom && exited is Some ==> (r matches BootVerdict::Failed(w, s) && w@ == "CRASH"@ && s@
            == "engine exited early with status "@ + (exited->0)@),
        !oom && exited is None && healthy ==> r is Running,
        !oom && exited is None && !healthy && timed_out ==> (r matches BootVerdict::Failed(w, s)
            && w@ == "TIMEOUT"@ && s@ == "never reported healthy within the timeout"@),
        !oom && exited is None && !healthy && !timed_out ==> r is Waiting,
{
}

/// The contexts are tried one after another, the configured one first and the
/// ladder's behind it, on the test port, until one serves. The outcome is of
/// the context that serves, or says that none does.
pub proof fn law_ladder_is_walked(
    r: BringupOutcome,
    p: Profile,
    test_port: u16,
    calls: Seq<BootCall>,
    k: int,
)
    requires
        is_walk(r, p, test_port, calls),
        0 <= k < calls.len(),
    ensures
        calls[k].test_port == test_port,
        calls[k].profile.ctx_size == if k == 0 {
            p.ctx_size
        } else {
            p.ctx_ladder@[k - 1]
        },
        calls[k].profile.model@ == p.model@,
        calls[k].profile.bin@ == p.bin@,
        calls[k].answer is Ok ==> {
            &&& k == calls.len() - 1
            &&& r.ctx == calls[k].profile.ctx_size
            &&& r.verdict@ == "RUNNING"@
            &&& r.tok_per_sec == calls[k].answer->Ok_0
        },
        calls[k].answer is Err && k == calls.len() - 1 ==> {
            &&& calls.len() == 1 + p.ctx_ladder@.len()
            &&& r.ctx == p.ctx_size
            &&& r.verdict@ == "FAIL"@
            &&& r.tok_per_sec is None
        },
        calls.len() <= 1 + p.ctx_ladder@.len(),
{
    assert(boots_step(p, test_port, calls, k));
    assert(boot_ladder(p).len() == 1 + p.ctx_ladder@.len());
    if k < calls.len() - 1 {
        assert(calls[k].answer is Err);
    }
}

/// An address is of the host, the port and the path.
pub proof fn law_addresses(host: &str, port: u16, path: &str, r: String)
    requires
        call_ensures(endpoint_url, (host, port, path), r),
    ensures
        r@ == "http://"@ + host@ + ":"@ + decimal(port as nat) + path@,
{
}

proof fn lemma_line(ls: Seq<Seq<char>>, k: int, i: int)
    requires
        0 <= k <= i < ls.len(),
        trim(ls[i]).len() > 0,
        forall|j: int| k <= j < i ==> trim(#[trigger] ls[j]).len() == 0,
    ensures
        line_from(ls, k) == Some(trim(ls[i])),
    decreases i - k,
{
    if k < i {
        assert(trim(ls[k]).len() == 0);
        lemma_line(ls, k + 1, i);
    }
}

proof fn lemma_no_line(ls: Seq<Seq<char>>, k: int)
    requires
        0 <= k <= ls.len(),
        forall|j: int| k <= j < ls.len() ==> trim(#[trigger] ls[j]).len() == 0,
    ensures
        line_from(ls, k) is None,
    decreases ls.len() - k,
{
    if k < ls.len() {
        assert(trim(ls[k]).len() == 0);
        lemma_no_line(ls, k + 1);
    }
}

/// All lines are blank.
pub open spec fn is_blank(text: Seq<char>) -> bool {
    forall|j: int| 0 <= j < lines(text).len() ==> trim(#[trigger] lines(text)[j]).len() == 0
}

/// Line `i` is the first that is not blank.
pub open spec fn is_first_line(text: Seq<char>, i: int) -> bool {
    &&& 0 <= i < lines(text).len()
    &&& trim(lines(text)[i]).len() > 0
    &&& forall|j: int| 0 <= j < i ==> trim(#[trigger] lines(text)[j]).len() == 0
}

/// What a program printed is its first line that is not blank, of its output
/// or, where that is blank, of its errors.
pub proof fn law_first_line_printed(stdout: &str, stderr: &str, r: Option<String>, i: int)
    requires
        call_ensures(first_printed_line, (stdout, stderr), r),
    ensures
        is_first_line(stdout@, i) ==> opt_text(r) == Some(trim(lines(stdout@)[i])),
        is_blank(stdout@) && is_first_line(stderr@, i) ==> opt_text(r) == Some(
            trim(lines(stderr@)[i]),
        ),
        is_blank(stdout@) && is_blank(stderr@) ==> r is None,
{
    if is_first_line(stdout@, i) {
        lemma_line(lines(stdout@), 0, i);
    }
    if is_blank(stdout@) {
        lemma_no_line(lines(stdout@), 0);
        if is_first_line(stderr@, i) {
            lemma_line(lines(stderr@), 0, i);
        }
        if is_blank(stderr@) {
            lemma_no_line(lines(stderr@), 0);
        }
    }
}

/// The version comes from the metrics where they tell it, else from what the
/// program prints, else from what an Ollama server answers.
pub proof fn law_where_the_version_comes_from(
    engine: Engine,
    metrics: Option<&str>,
    printed: Option<(&str, &str)>,
    answer: Option<&str>,
    r: Option<String>,
    told: Option<String>,
    shown: Option<String>,
    answered: Option<String>,
)
    requires
        call_ensures(detect_engine_version, (engine, metrics, printed, answer), r),
        metrics is Some ==> call_ensures(version_in_metrics, (metrics->0,), told),
        metrics is None ==> told is None,
        printed is Some ==> call_ensures(
            first_printed_line,
            ((printed->0).0, (printed->0).1),
            shown,
        ),
        printed is None ==> shown is None,
        answer is Some && engine == Engine::Ollama ==> call_ensures(
            version_in_answer,
            (answer->0,),
            answered,
        ),
        answer is None || engine != Engine::Ollama ==> answered is None,
    ensures
        told is Some ==> opt_text(r) == opt_text(told),
        told is None && shown is Some ==> opt_text(r) == opt_text(shown),
        told is None && shown is None ==> opt_text(r) == opt_text(answered),
{
}

/// An object that has a member under a name for the first time at `i`.
pub open spec fn holds(j: JsonView, key: Seq<char>, i: int, v: JsonView) -> bool {
    &&& j is Object
    &&& 0 <= i < j->Object_0.len()
    &&& j->Object_0[i] == (key, v)
    &&& forall|k: int| 0 <= k < i ==> (#[trigger] j->Object_0[k]).0 != key
}

proof fn lemma_member(m: Seq<(Seq<char>, JsonView)>, key: Seq<char>, i: int)
    requires
        0 <= i < m.len(),
        m[i].0 == key,
        forall|k: int| 0 <= k < i ==> (#[trigger] m[k]).0 != key,
    ensures
        member(m, key) == Some(m[i].1),
    decreases m.len(),
{
    if i > 0 {
        assert(m[0].0 != key);
        let t = m.drop_first();
        assert forall|k: int| 0 <= k < i - 1 implies (#[trigger] t[k]).0 != key by {
            assert(m[k + 1] == t[k]);
        }
        lemma_member(t, key, i - 1);
    }
}

proof fn lemma_no_member(m: Seq<(Seq<char>, JsonView)>, key: Seq<char>)
    requires
        forall|k: int| 0 <= k < m.len() ==> (#[trigger] m[k]).0 != key,
    ensures
        member(m, key) is None,
    decreases m.len(),
{
    if m.len() > 0 {
        assert(m[0].0 != key);
        let t = m.drop_first();
        assert forall|k: int| 0 <= k < t.len() implies (#[trigger] t[k]).0 != key by {
            assert(m[k + 1] == t[k]);
        }
        lemma_no_member(t, key);
    }
}

/// A member is found where its name stands first, and only there.
pub proof fn law_members(j: JsonView, key: Seq<char>, i: int, v: JsonView)
    ensures
        holds(j, key, i, v) ==> j.get(key) == Some(v),
        !(j is Object) ==> j.get(key) is None,
        j is Object && (forall|k: int|
            0 <= k < j->Object_0.len() ==> (#[trigger] j->Object_0[k]).0 != key) ==> j.get(key)
            is None,
        v is Str ==> v.text() == Some(v->Str_0),
        !(v is Str) ==> v.text() is None,
        v is Number ==> v.unsigned() == (v->Number_0).unsigned && v.double() == (
        v->Number_0).double,
        !(v is Number) ==> v.unsigned() is None && v.double() is None,
{
    if holds(j, key, i, v) {
        lemma_member(j->Object_0, key, i);
    }
    if j is Object && (forall|k: int|
        0 <= k < j->Object_0.len() ==> (#[trigger] j->Object_0[k]).0 != key) {
        lemma_no_member(j->Object_0, key);
    }
}

/// The number of tokens under a name of an object under a name.
pub open spec fn counted(j: JsonView, a: Seq<char>, b: Seq<char>) -> Option<u64> {
    match j.get(a) {
        Some(o) => match o.get(b) {
            Some(v) => v.unsigned(),
            None => None,
        },
        None => None,
    }
}

/// A chat completion tells the tokens that were used; its speed is the one
/// that the engine states, else the tokens that it wrote over the time that
/// passed.
pub proof fn law_chat_completion(j: &Json, wall: u64, r: Reading)
    requires
        call_ensures(sample_from_openai_json, (j, wall), r),
    ensures
        r.prompt_tokens == counted(j@, "usage"@, "prompt_tokens"@),
        r.gen_tokens == counted(j@, "usage"@, "completion_tokens"@),
        r.wall_ms == wall,
        r.ttft_ms is None,
        ({
            let stated = match j@.get("timings"@) {
                Some(t) => match t.get("predicted_per_second"@) {
                    Some(v) => v.double(),
                    None => None,
                },
                None => None,
            };
            &&& stated is Some ==> r.tok_s_kind@ == "native"@ && r.tok_s == Some(
                Rate::Stated(Measure { bits: stated->0 }),
            )
            &&& stated is None ==> r.tok_s_kind@ == "wall"@
            &&& stated is None && r.gen_tokens is Some && wall > 0 ==> r.tok_s == Some(
                Rate::OverMillis { tokens: r.gen_tokens->0, millis: wall },
            )
            &&& stated is None && (r.gen_tokens is None || wall == 0) ==> r.tok_s is None
        }),
        (j@.get("choices"@) matches Some(JsonView::Array(c)) && c.len() > 0 && (c[0].get(
            "message"@,
        ) matches Some(m) && (m.get("content"@) matches Some(JsonView::Str(s)) && r.text@ == s)))
            || r.text@ == ""@ || (j@.get("choices"@) is Some && j@.get("choices"@)->0 is Object),
{
}

/// The first choice is the answer.
pub proof fn law_first_choice_is_the_answer(
    j: &Json,
    wall: u64,
    r: Reading,
    c: Seq<JsonView>,
    m: JsonView,
    s: Seq<char>,
)
    requires
        call_ensures(sample_from_openai_json, (j, wall), r),
        j@.get("choices"@) == Some(JsonView::Array(c)),
        c.len() > 0,
        c[0].get("message"@) == Some(m),
        m.get("content"@) == Some(JsonView::Str(s)),
    ensures
        r.text@ == s,
{
}

/// The speed at which a chat completion read the prompt is the one that the
/// engine states, else its tokens over its time.
pub proof fn law_prompt_speed(j: &Json, wall: u64, r: Reading, t: JsonView)
    requires
        call_ensures(sample_from_openai_json, (j, wall), r),
        j@.get("timings"@) == Some(t),
    ensures
        (t.get("prompt_per_second"@) matches Some(v) && v.double() is Some) ==> r.prompt_tps
            == Some(
            Rate::Stated(Measure { bits: ((t.get("prompt_per_second"@)->0).double())->0 }),
        ),
        t.get("prompt_per_second"@) is None && (t.get("prompt_n"@) matches Some(n) && n.unsigned()
            is Some) && (t.get("prompt_ms"@) matches Some(d) && d.double() is Some && (Measure {
            bits: d.double()->0,
        }).positive()) ==> r.prompt_tps == Some(
            Rate::OverTime {
                tokens: ((t.get("prompt_n"@)->0).unsigned())->0,
                millis: Measure { bits: ((t.get("prompt_ms"@)->0).double())->0 },
            },
        ),
        t.get("prompt_per_second"@) is None && t.get("prompt_n"@) is None ==> r.prompt_tps is None,
        t.get("prompt_per_second"@) is None && t.get("prompt_ms"@) is None ==> r.prompt_tps is None,
{
}

/// The number under a name.
pub open spec fn number_at(j: JsonView, a: Seq<char>) -> Option<u64> {
    match j.get(a) {
        Some(v) => v.unsigned(),
        None => None,
    }
}

/// An Ollama answer tells the tokens; its speed is tokens over the engine's
/// time where it states one, else over the time that passed; the time to load
/// is in milliseconds.
pub proof fn law_ollama_answer(j: &Json, wall: u64, r: Reading)
    requires
        call_ensures(sample_from_ollama_json, (j, wall), r),
    ensures
        r.prompt_tokens == number_at(j@, "prompt_eval_count"@),
        r.gen_tokens == number_at(j@, "eval_count"@),
        r.wall_ms == wall,
        ({
            let ns = number_at(j@, "eval_duration"@);
            let timed = ns is Some && ns->0 > 0;
            &&& timed ==> r.tok_s_kind@ == "native"@
            &&& !timed ==> r.tok_s_kind@ == "wall"@
            &&& timed && r.gen_tokens is Some ==> r.tok_s == Some(
                Rate::OverNanos { tokens: r.gen_tokens->0, nanos: ns->0 },
            )
            &&& !timed && r.gen_tokens is Some && wall > 0 ==> r.tok_s == Some(
                Rate::OverMillis { tokens: r.gen_tokens->0, millis: wall },
            )
            &&& r.gen_tokens is None || (!timed && wall == 0) ==> r.tok_s is None
        }),
        ({
            let ns = number_at(j@, "prompt_eval_duration"@);
            &&& ns is Some && ns->0 > 0 && r.prompt_tokens is Some ==> r.prompt_tps == Some(
                Rate::OverNanos { tokens: r.prompt_tokens->0, nanos: ns->0 },
            )
            &&& ns is None || ns->0 == 0 || r.prompt_tokens is None ==> r.prompt_tps is None
        }),
        ({
            let ns = number_at(j@, "load_duration"@);
            &&& ns is None ==> r.ttft_ms is None
            &&& ns is Some ==> r.ttft_ms is Some && r.ttft_ms->0 * 1_000_000 <= ns->0 < (
            r.ttft_ms->0 + 1) * 1_000_000
        }),
        (j@.get("message"@) matches Some(m) && (m.get("content"@) matches Some(v) && v is Str))
            ==> r.text@ == (((j@.get("message"@)->0).get("content"@))->0)->Str_0,
{
}

/// An answer is read as its protocol says; a text that is no document gives
/// the reason and the text.
pub proof fn law_answers_are_read(
    protocol: EngineProtocol,
    text: &str,
    wall: u64,
    r: Result<Reading, String>,
    j: &Json,
    a: Reading,
    b: Reading,
)
    requires
        call_ensures(read_answer, (protocol, text, wall), r),
        json_reading(text@) is Ok ==> json_reading(text@)->Ok_0 == j@,
        call_ensures(sample_from_openai_json, (j, wall), a),
        call_ensures(sample_from_ollama_json, (j, wall), b),
    ensures
        r is Ok <==> json_reading(text@) is Ok,
        r is Ok && protocol == EngineProtocol::OpenAiChat ==> (r->Ok_0)@ == a@,
        r is Ok && protocol == EngineProtocol::OllamaChat ==> (r->Ok_0)@ == b@,
        r is Err ==> (r->Err_0)@ == "parse response: "@ + json_reading(text@)->Err_0 + " — "@
            + debug_text(text@),
{
}

/// A request carries the prompt, the model and the limit to the engine's own
/// endpoint.
pub proof fn law_request(
    engine: Engine,
    host: &str,
    port: u16,
    model: &str,
    prompt: &str,
    max_tokens: u32,
    r: PromptRequest,
)
    requires
        call_ensures(prompt_request, (engine, host, port, model, prompt, max_tokens), r),
    ensures
        engine == Engine::Ollama ==> {
            &&& r.url@ == "http://"@ + host@ + ":"@ + decimal(port as nat) + "/api/chat"@
            &&& r.body@ == "{"@ + ("\"messages\":[{\"content\":"@ + json_string(prompt@)
                + ",\"role\":\"user\"}]"@) + ",\"model\":"@ + json_string(model@)
                + ",\"options\":{\"num_predict\":"@ + decimal(max_tokens as nat)
                + ",\"temperature\":0},\"stream\":false}"@
        },
        engine != Engine::Ollama ==> {
            &&& r.url@ == "http://"@ + host@ + ":"@ + decimal(port as nat)
                + "/v1/chat/completions"@
            &&& r.body@ == "{\"max_tokens\":"@ + decimal(max_tokens as nat) + ","@ + (
            "\"messages\":[{\"content\":"@ + json_string(prompt@) + ",\"role\":\"user\"}]"@)
                + ",\"model\":"@ + json_string(model@) + ",\"stream\":false,\"temperature\":0}"@
        },
{
}

} // verus!
