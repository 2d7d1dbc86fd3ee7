//! Generation against a live engine: what is asked, and what is read from the
//! answer.
//!
//! A reading keeps the raw ingredients, the counts of tokens and the time that
//! passed. A speed that the engine states itself comes first; else it is tokens
//! over time, which the reading gives as a quotient.
use vstd::prelude::*;
use vstd::string::StringExecFns;

use crate::engines::health::{
    endpoint, endpoint_url, first_printed_line, printed_line, version_from, version_in_metrics,
};
use crate::json::{
    find_double, find_item, find_member, find_text, find_u64, json_quote, json_reading,
    json_string, opt_at, opt_double, opt_get, opt_json_text, opt_unsigned, opt_view, parse_json,
    Json, JsonView,
};
use crate::measure::Measure;
use crate::profile::{engine_protocol, Engine, EngineProtocol};
use crate::text::{debug_text, decimal, decimal_of, lines, opt_str, opt_text, owned, str_debug};

verus! {

/// One recorded generation. The raw ingredients are always kept.
#[derive(Debug, Clone, PartialEq)]
pub struct GenSample {
    pub ok: bool,
    pub text: String,
    pub prompt_tokens: Option<u64>,
    pub gen_tokens: Option<u64>,
    /// Generated tokens per second.
    pub tok_s: Option<Measure>,
    /// `native` for the engine's own timing, `wall` for the clock's.
    pub tok_s_kind: String,
    pub wall_ms: u64,
    pub error: Option<String>,
    pub prompt_tps: Option<Measure>,
    pub ttft_ms: Option<u64>,
}

/// A speed in tokens per second.
#[derive(Debug, Clone, Copy, PartialEq, Eq, Structural)]
pub enum Rate {
    /// As the engine states it.
    Stated(Measure),
    /// Tokens over milliseconds of the clock.
    OverMillis { tokens: u64, millis: u64 },
    /// Tokens over nanoseconds of the engine.
    OverNanos { tokens: u64, nanos: u64 },
    /// Tokens over milliseconds of the engine, which are a double.
    OverTime { tokens: u64, millis: Measure },
}

/// What an answer says.
#[derive(Debug, Clone, PartialEq)]
pub struct Reading {
    pub text: String,
    pub prompt_tokens: Option<u64>,
    pub gen_tokens: Option<u64>,
    pub tok_s: Option<Rate>,
    pub tok_s_kind: String,
    pub wall_ms: u64,
    pub prompt_tps: Option<Rate>,
    pub ttft_ms: Option<u64>,
}

/// The values of a reading.
pub struct ReadingView {
    pub text: Seq<char>,
    pub prompt_tokens: Option<u64>,
    pub gen_tokens: Option<u64>,
    pub tok_s: Option<Rate>,
    pub tok_s_kind: Seq<char>,
    pub wall_ms: u64,
    pub prompt_tps: Option<Rate>,
    pub ttft_ms: Option<u64>,
}

impl View for Reading {
    type V = ReadingView;

    open spec fn view(&self) -> ReadingView {
        ReadingView {
            text: self.text@,
            prompt_tokens: self.prompt_tokens,
            gen_tokens: self.gen_tokens,
            tok_s: self.tok_s,
            tok_s_kind: self.tok_s_kind@,
            wall_ms: self.wall_ms,
            prompt_tps: self.prompt_tps,
            ttft_ms: self.ttft_ms,
        }
    }
}

/// The sample of a generation that failed after `wall_ms`.
pub fn sample_failed(wall_ms: u64, text: &str) -> (r: GenSample)
    ensures
        !r.ok,
        r.text@ == ""@,
        r.prompt_tokens is None,
        r.gen_tokens is None,
        r.tok_s is None,
        r.tok_s_kind@ == "native"@,
        r.wall_ms == wall_ms,
        opt_text(r.error) == Some(text@),
        r.prompt_tps is None,
        r.ttft_ms is None,
{
    GenSample {
        ok: false,
        text: owned(""),
        prompt_tokens: None,
        gen_tokens: None,
        tok_s: None,
        tok_s_kind: owned("native"),
        wall_ms,
        error: Some(owned(text)),
        prompt_tps: None,
        ttft_ms: None,
    }
}

impl Reading {
    /// The sample of a generation that succeeded, its speeds as doubles.
    pub fn sample(self, tok_s: Option<Measure>, prompt_tps: Option<Measure>) -> (r: GenSample)
        ensures
            r.ok,
            r.text@ == self.text@,
            r.prompt_tokens == self.prompt_tokens,
            r.gen_tokens == self.gen_tokens,
            r.tok_s == tok_s,
            r.tok_s_kind@ == self.tok_s_kind@,
            r.wall_ms == self.wall_ms,
            r.error is None,
            r.prompt_tps == prompt_tps,
            r.ttft_ms == self.ttft_ms,
    {
        GenSample {
            ok: true,
            text: self.text,
            prompt_tokens: self.prompt_tokens,
            gen_tokens: self.gen_tokens,
            tok_s,
            tok_s_kind: self.tok_s_kind,
            wall_ms: self.wall_ms,
            error: None,
            prompt_tps,
            ttft_ms: self.ttft_ms,
        }
    }
}

/// The value at two names, one below the other.
pub open spec fn at_path(j: JsonView, a: Seq<char>, b: Seq<char>) -> Option<JsonView> {
    opt_get(j.get(a), b)
}

fn find_path<'a>(j: &'a Json, a: &str, b: &str) -> (r: Option<&'a Json>)
    ensures
        opt_view(r) == at_path(j@, a@, b@),
{
    find_member(j.get(a), b)
}

/// Tokens over the clock's time; none where no time passed.
pub open spec fn wall_rate(tokens: Option<u64>, wall: u64) -> Option<Rate> {
    match tokens {
        Some(g) => if wall > 0 {
            Some(Rate::OverMillis { tokens: g, millis: wall })
        } else {
            None
        },
        None => None,
    }
}

fn rate_by_wall(tokens: Option<u64>, wall: u64) -> (r: Option<Rate>)
    ensures
        r == wall_rate(tokens, wall),
{
    match tokens {
        Some(g) => {
            if wall > 0 {
                Some(Rate::OverMillis { tokens: g, millis: wall })
            } else {
                None
            }
        },
        None => None,
    }
}

/// Tokens over the engine's time; none where it states none.
pub open spec fn nanos_rate(tokens: Option<u64>, nanos: Option<u64>) -> Option<Rate> {
    match (tokens, nanos) {
        (Some(g), Some(ns)) => if ns > 0 {
            Some(Rate::OverNanos { tokens: g, nanos: ns })
        } else {
            None
        },
        _ => None,
    }
}

fn rate_by_nanos(tokens: Option<u64>, nanos: Option<u64>) -> (r: Option<Rate>)
    ensures
        r == nanos_rate(tokens, nanos),
{
    match (tokens, nanos) {
        (Some(g), Some(ns)) => {
            if ns > 0 {
                Some(Rate::OverNanos { tokens: g, nanos: ns })
            } else {
                None
            }
        },
        _ => None,
    }
}

/// The first choice of an answer: the first item of a list, or the member
/// named `0` of an object.
pub open spec fn first_of(j: Option<JsonView>) -> Option<JsonView> {
    match j {
        Some(JsonView::Object(_)) => opt_get(j, "0"@),
        _ => opt_at(j, 0),
    }
}

fn find_first(j: Option<&Json>) -> (r: Option<&Json>)
    ensures
        opt_view(r) == first_of(opt_view(j)),
{
    match j {
        Some(Json::Object(_)) => find_member(j, "0"),
        _ => find_item(j, 0),
    }
}

/// The prompt speed that a chat-completion answer gives.
pub open spec fn openai_prompt_rate(j: JsonView) -> Option<Rate> {
    match opt_double(at_path(j, "timings"@, "prompt_per_second"@)) {
        Some(bits) => Some(Rate::Stated(Measure { bits })),
        None => match (
            opt_unsigned(at_path(j, "timings"@, "prompt_n"@)),
            opt_double(at_path(j, "timings"@, "prompt_ms"@)),
        ) {
            (Some(n), Some(bits)) => if (Measure { bits }).positive() {
                Some(Rate::OverTime { tokens: n, millis: Measure { bits } })
            } else {
                None
            },
            _ => None,
        },
    }
}

fn prompt_rate(j: &Json) -> (r: Option<Rate>)
    ensures
        r == openai_prompt_rate(j@),
{
    match find_double(find_path(j, "timings", "prompt_per_second")) {
        Some(bits) => Some(Rate::Stated(Measure { bits })),
        None => {
            match (
                find_u64(find_path(j, "timings", "prompt_n")),
                find_double(find_path(j, "timings", "prompt_ms")),
            ) {
                (Some(n), Some(bits)) => {
                    let millis = Measure { bits };
                    if millis.is_positive() {
                        Some(Rate::OverTime { tokens: n, millis })
                    } else {
                        None
                    }
                },
                _ => None,
            }
        },
    }
}

/// A text, empty where there is none.
pub open spec fn or_empty(s: Option<Seq<char>>) -> Seq<char> {
    match s {
        Some(t) => t,
        None => ""@,
    }
}

/// What a chat-completion answer says.
pub open spec fn openai_reading(j: JsonView, wall: u64) -> ReadingView {
    let gen_tokens = opt_unsigned(at_path(j, "usage"@, "completion_tokens"@));
    let native = opt_double(at_path(j, "timings"@, "predicted_per_second"@));
    ReadingView {
        text: or_empty(
            opt_json_text(opt_get(opt_get(first_of(j.get("choices"@)), "message"@), "content"@)),
        ),
        prompt_tokens: opt_unsigned(at_path(j, "usage"@, "prompt_tokens"@)),
        gen_tokens,
        tok_s: match native {
            Some(bits) => Some(Rate::Stated(Measure { bits })),
            None => wall_rate(gen_tokens, wall),
        },
        tok_s_kind: if native is Some {
            "native"@
        } else {
            "wall"@
        },
        wall_ms: wall,
        prompt_tps: openai_prompt_rate(j),
        ttft_ms: None,
    }
}

fn text_or_empty(s: Option<String>) -> (r: String)
    ensures
        r@ == or_empty(opt_text(s)),
{
    match s {
        Some(t) => t,
        None => owned(""),
    }
}

/// Reads a chat-completion answer.
pub fn sample_from_openai_json(j: &Json, wall: u64) -> (r: Reading)
    ensures
        r@ == openai_reading(j@, wall),
{
    let gen_tokens = find_u64(find_path(j, "usage", "completion_tokens"));
    let native = find_double(find_path(j, "timings", "predicted_per_second"));
    let (tok_s, kind) = match native {
        Some(bits) => (Some(Rate::Stated(Measure { bits })), "native"),
        None => (rate_by_wall(gen_tokens, wall), "wall"),
    };
    Reading {
        text: text_or_empty(
            find_text(
                find_member(find_member(find_first(j.get("choices")), "message"), "content"),
            ),
        ),
        prompt_tokens: find_u64(find_path(j, "usage", "prompt_tokens")),
        gen_tokens,
        tok_s,
        tok_s_kind: owned(kind),
        wall_ms: wall,
        prompt_tps: prompt_rate(j),
        ttft_ms: None,
    }
}

/// What an Ollama chat answer says.
pub open spec fn ollama_reading(j: JsonView, wall: u64) -> ReadingView {
    let gen_tokens = opt_unsigned(j.get("eval_count"@));
    let nanos = opt_unsigned(j.get("eval_duration"@));
    ReadingView {
        text: or_empty(opt_json_text(at_path(j, "message"@, "content"@))),
        prompt_tokens: opt_unsigned(j.get("prompt_eval_count"@)),
        gen_tokens,
        tok_s: match nanos_rate(gen_tokens, nanos) {
            Some(r) => Some(r),
            None => wall_rate(gen_tokens, wall),
        },
        tok_s_kind: if nanos is Some && nanos->0 > 0 {
            "native"@
        } else {
            "wall"@
        },
        wall_ms: wall,
        prompt_tps: nanos_rate(
            opt_unsigned(j.get("prompt_eval_count"@)),
            opt_unsigned(j.get("prompt_eval_duration"@)),
        ),
        ttft_ms: match opt_unsigned(j.get("load_duration"@)) {
            Some(ns) => Some((ns / 1_000_000) as u64),
            None => None,
        },
    }
}

/// Reads an Ollama chat answer.
pub fn sample_from_ollama_json(j: &Json, wall: u64) -> (r: Reading)
    ensures
        r@ == ollama_reading(j@, wall),
{
    let gen_tokens = find_u64(j.get("eval_count"));
    let nanos = find_u64(j.get("eval_duration"));
    let prompt_tokens = find_u64(j.get("prompt_eval_count"));
    let tok_s = match rate_by_nanos(gen_tokens, nanos) {
        Some(r) => Some(r),
        None => rate_by_wall(gen_tokens, wall),
    };
    let kind = match nanos {
        Some(ns) => if ns > 0 {
            "native"
        } else {
            "wall"
        },
        None => "wall",
    };
    Reading {
        text: text_or_empty(find_text(find_path(j, "message", "content"))),
        prompt_tokens,
        gen_tokens,
        tok_s,
        tok_s_kind: owned(kind),
        wall_ms: wall,
        prompt_tps: rate_by_nanos(prompt_tokens, find_u64(j.get("prompt_eval_duration"))),
        ttft_ms: match find_u64(j.get("load_duration")) {
            Some(ns) => Some(ns / 1_000_000),
            None => None,
        },
    }
}

/// What an answer in a protocol says.
pub open spec fn reading_of(protocol: EngineProtocol, j: JsonView, wall: u64) -> ReadingView {
    match protocol {
        EngineProtocol::OpenAiChat => openai_reading(j, wall),
        EngineProtocol::OllamaChat => ollama_reading(j, wall),
    }
}

/// Why an answer could not be read.
pub open spec fn parse_failure(error: Seq<char>, text: Seq<char>) -> Seq<char> {
    "parse response: "@ + error + " — "@ + debug_text(text)
}

/// Reads the text of an answer.
pub fn read_answer(protocol: EngineProtocol, text: &str, wall: u64) -> (r: Result<Reading, String>)
    ensures
        match json_reading(text@) {
            Ok(j) => r is Ok && r->Ok_0@ == reading_of(protocol, j, wall),
            Err(e) => r is Err && r->Err_0@ == parse_failure(e, text@),
        },
{
    match parse_json(text) {
        Ok(j) => Ok(
            match protocol {
                EngineProtocol::OpenAiChat => sample_from_openai_json(&j, wall),
                EngineProtocol::OllamaChat => sample_from_ollama_json(&j, wall),
            },
        ),
        Err(e) => {
            let mut m = owned("parse response: ");
            m.append(e.as_str());
            m.append(" — ");
            m.append(str_debug(text).as_str());
            Err(m)
        },
    }
}

/// A request to an engine: where it goes and the JSON document that it carries.
#[derive(Debug, Clone, PartialEq)]
pub struct PromptRequest {
    pub url: String,
    pub body: String,
}

/// The list with the one message of the user.
pub open spec fn user_messages(prompt: Seq<char>) -> Seq<char> {
    "\"messages\":[{\"content\":"@ + json_string(prompt) + ",\"role\":\"user\"}]"@
}

/// The document of a chat-completion request.
pub open spec fn openai_body(model: Seq<char>, prompt: Seq<char>, max_tokens: u32) -> Seq<char> {
    "{\"max_tokens\":"@ + decimal(max_tokens as nat) + ","@ + user_messages(prompt)
        + ",\"model\":"@ + json_string(model) + ",\"stream\":false,\"temperature\":0}"@
}

/// The document of an Ollama chat request.
pub open spec fn ollama_body(model: Seq<char>, prompt: Seq<char>, max_tokens: u32) -> Seq<char> {
    "{"@ + user_messages(prompt) + ",\"model\":"@ + json_string(model)
        + ",\"options\":{\"num_predict\":"@ + decimal(max_tokens as nat)
        + ",\"temperature\":0},\"stream\":false}"@
}

fn write_messages(prompt: &str) -> (r: String)
    ensures
        r@ == user_messages(prompt@),
{
    let mut r = owned("\"messages\":[{\"content\":");
    r.append(json_quote(prompt).as_str());
    r.append(",\"role\":\"user\"}]");
    r
}

/// The request that asks an engine to generate from one prompt.
pub fn prompt_request(
    engine: Engine,
    host: &str,
    port: u16,
    model_id: &str,
    prompt: &str,
    max_tokens: u32,
) -> (r: PromptRequest)
    ensures
        match engine_protocol(engine) {
            EngineProtocol::OpenAiChat => r.url@ == endpoint(host@, port, "/v1/chat/completions"@)
                && r.body@ == openai_body(model_id@, prompt@, max_tokens),
            EngineProtocol::OllamaChat => r.url@ == endpoint(host@, port, "/api/chat"@) && r.body@
                == ollama_body(model_id@, prompt@, max_tokens),
        },
{
    match engine.protocol() {
        EngineProtocol::OpenAiChat => {
            let mut body = owned("{\"max_tokens\":");
            body.append(decimal_of(max_tokens as u64).as_str());
            body.append(",");
            body.append(write_messages(prompt).as_str());
            body.append(",\"model\":");
            body.append(json_quote(model_id).as_str());
            body.append(",\"stream\":false,\"temperature\":0}");
            PromptRequest { url: endpoint_url(host, port, "/v1/chat/completions"), body }
        },
        EngineProtocol::OllamaChat => {
            let mut body = owned("{");
            body.append(write_messages(prompt).as_str());
            body.append(",\"model\":");
            body.append(json_quote(model_id).as_str());
            body.append(",\"options\":{\"num_predict\":");
            body.append(decimal_of(max_tokens as u64).as_str());
            body.append(",\"temperature\":0},\"stream\":false}");
            PromptRequest { url: endpoint_url(host, port, "/api/chat"), body }
        },
    }
}

/// A reading without a speed states no count of tokens, or took no time.
pub proof fn law_rate_needs_tokens_and_time(protocol: EngineProtocol, j: JsonView, wall: u64)
    requires
        reading_of(protocol, j, wall).tok_s is None,
    ensures
        reading_of(protocol, j, wall).gen_tokens is None || wall == 0,
{
}

/// The version that the document of an Ollama server states.
pub open spec fn stated_version(j: Result<JsonView, Seq<char>>) -> Option<Seq<char>> {
    match j {
        Ok(v) => opt_json_text(v.get("version"@)),
        Err(_) => None,
    }
}

/// The version that an Ollama server answers with.
pub fn version_in_answer(body: &str) -> (r: Option<String>)
    ensures
        opt_text(r) == stated_version(json_reading(body@)),
{
    match parse_json(body) {
        Ok(j) => find_text(j.get("version")),
        Err(_) => None,
    }
}

/// The version of an engine: what its metrics report, else what its program
/// prints, else (of Ollama) what it answers.
pub open spec fn detected_version(
    engine: Engine,
    metrics: Option<Seq<char>>,
    printed: Option<(Seq<char>, Seq<char>)>,
    answer: Option<Seq<char>>,
) -> Option<Seq<char>> {
    let reported = match metrics {
        Some(t) => version_from(lines(t), 0),
        None => None,
    };
    let answered = match answer {
        Some(b) => if engine == Engine::Ollama {
            stated_version(json_reading(b))
        } else {
            None
        },
        None => None,
    };
    let shown = match printed {
        Some((out, err)) => printed_line(out, err),
        None => None,
    };
    if reported is Some {
        reported
    } else if shown is Some {
        shown
    } else {
        answered
    }
}

/// The version of an engine, from what could be had of it: its metrics, what
/// its program printed to its two streams, and its answer to being asked.
pub fn detect_engine_version(
    engine: Engine,
    metrics: Option<&str>,
    printed: Option<(&str, &str)>,
    answer: Option<&str>,
) -> (r: Option<String>)
    ensures
        opt_text(r) == detected_version(
            engine,
            opt_str(metrics),
            match printed {
                Some(p) => Some((p.0@, p.1@)),
                None => None,
            },
            opt_str(answer),
        ),
{
    match metrics {
        Some(t) => match version_in_metrics(t) {
            Some(v) => {
                return Some(v);
            },
            None => {},
        },
        None => {},
    }
    match printed {
        Some(p) => match first_printed_line(p.0, p.1) {
            Some(v) => {
                return Some(v);
            },
            None => {},
        },
        None => {},
    }
    if engine == Engine::Ollama {
        match answer {
            Some(b) => version_in_answer(b),
            None => None,
        }
    } else {
        None
    }
}

} // verus!
