//! Evaluators: whether an output passes, by a rule that the task names.
//!
//! The deterministic rules are judged here. The lexical placeholder and the
//! harness proxy score by quality, which the caller computes from what the
//! scorecard counts.
use vstd::prelude::*;
use vstd::string::*;

use crate::json::{
    json_quote, json_reading, json_string, parse_json, rewrite_json, rewritten_json, Json,
    JsonView,
};
use crate::measure::Measure;
use crate::text::{has_prefix, owned, same, str_has_prefix, str_trim, trim};

verus! {

/// The result of an evaluation.
#[derive(Debug, Clone, PartialEq)]
pub struct Evaluation {
    pub id: i64,
    pub matrix_run_id: i64,
    pub method: String,
    pub passed: bool,
    pub score: Measure,
    pub details_json: String,
    /// Unix time in seconds.
    pub at: i64,
}

/// One, as a double.
pub const ONE: u64 = 0x3ff0_0000_0000_0000;

/// The score of a rule that an output passes or not: one or zero.
pub open spec fn all_or_nothing(passed: bool) -> Measure {
    Measure {
        bits: if passed {
            ONE
        } else {
            0
        },
    }
}

/// The evaluation is that of an output by a rule that it passes or not.
pub open spec fn is_evaluation(
    e: Evaluation,
    run: i64,
    method: Seq<char>,
    passed: bool,
    details: Seq<char>,
    at: i64,
) -> bool {
    &&& e.id == 0
    &&& e.matrix_run_id == run
    &&& e.method@ == method
    &&& e.passed == passed
    &&& e.score == all_or_nothing(passed)
    &&& e.details_json@ == details
    &&& e.at == at
}

fn evaluation(run: i64, method: &str, passed: bool, details_json: String, at: i64) -> (e: Evaluation)
    ensures
        is_evaluation(e, run, method@, passed, details_json@, at),
{
    Evaluation {
        id: 0,
        matrix_run_id: run,
        method: owned(method),
        passed,
        score: Measure {
            bits: if passed {
                ONE
            } else {
                0
            },
        },
        details_json,
        at,
    }
}

/// The output must be the expected text, up to white space at its ends.
#[derive(Debug, Clone, PartialEq)]
pub struct Exact {
    pub expected: String,
}

/// The output must match a pattern somewhere.
#[derive(Debug, Clone, PartialEq)]
pub struct RegexEval {
    pub pattern: String,
}

/// The output must be a JSON document with the members that a schema requires.
#[derive(Debug, Clone, PartialEq)]
pub struct JsonSchema {
    pub schema: String,
}

/// Scores by lexical quality.
#[derive(Debug, Clone, Copy, PartialEq, Eq, Structural)]
pub struct LexicalPlaceholder;

/// Stands for an evaluation harness; scores by lexical quality.
#[derive(Debug, Clone, PartialEq)]
pub struct LmEval {
    pub tasks_csv: String,
}

/// A document with one member that is a string.
pub open spec fn one_member(key: Seq<char>, value: Seq<char>) -> Seq<char> {
    "{\""@ + key + "\":"@ + json_string(value) + "}"@
}

fn write_member(key: &str, value: &str) -> (r: String)
    ensures
        r@ == one_member(key@, value@),
{
    let mut r = owned("{\"");
    r.append(key);
    r.append("\":");
    r.append(json_quote(value).as_str());
    r.append("}");
    r
}

impl Exact {
    pub fn id(&self) -> (r: &'static str)
        ensures
            r@ == "exact"@,
    {
        "exact"
    }

    /// Evaluates an output.
    pub fn evaluate(&self, output: &str, matrix_run_id: i64, at: i64) -> (e: Evaluation)
        ensures
            is_evaluation(
                e,
                matrix_run_id,
                "exact"@,
                trim(output@) == trim(self.expected@),
                one_member("expected"@, self.expected@),
                at,
            ),
    {
        let passed = same(str_trim(output).as_str(), str_trim(self.expected.as_str()).as_str());
        evaluation(
            matrix_run_id,
            "exact",
            passed,
            write_member("expected", self.expected.as_str()),
            at,
        )
    }
}

/// Whether a pattern of the `regex` crate matches somewhere in a text, or what
/// the crate says of a pattern that it refuses.
pub uninterp spec fn regex_outcome(pattern: Seq<char>, text: Seq<char>) -> Result<
    bool,
    Seq<char>,
>;

/// `regex::Regex::new` and `Regex::is_match`: whether the pattern matches
/// somewhere in the text, or a message where the pattern is refused, both as
/// the name says.
#[verifier::external_body]
fn regex_search(pattern: &str, text: &str) -> (r: Result<bool, String>)
    ensures
        match r {
            Ok(b) => regex_outcome(pattern@, text@) == Ok::<bool, Seq<char>>(b),
            Err(e) => regex_outcome(pattern@, text@) == Err::<bool, Seq<char>>(e@),
        },
{
    match regex::Regex::new(pattern) {
        Ok(re) => Ok(re.is_match(text)),
        Err(e) => Err(e.to_string()),
    }
}

impl RegexEval {
    pub fn id(&self) -> (r: &'static str)
        ensures
            r@ == "regex"@,
    {
        "regex"
    }

    /// The evaluation of an output that the pattern matches or not.
    pub fn judge(&self, passed: bool, matrix_run_id: i64, at: i64) -> (e: Evaluation)
        ensures
            is_evaluation(
                e,
                matrix_run_id,
                "regex"@,
                passed,
                one_member("pattern"@, self.pattern@),
                at,
            ),
    {
        evaluation(
            matrix_run_id,
            "regex",
            passed,
            write_member("pattern", self.pattern.as_str()),
            at,
        )
    }

    /// Evaluates an output; a pattern that is refused is an error.
    pub fn evaluate(&self, output: &str, matrix_run_id: i64, at: i64) -> (r: Result<
        Evaluation,
        String,
    >)
        ensures
            match regex_outcome(self.pattern@, output@) {
                Ok(passed) => r is Ok && is_evaluation(
                    r->Ok_0,
                    matrix_run_id,
                    "regex"@,
                    passed,
                    one_member("pattern"@, self.pattern@),
                    at,
                ),
                Err(e) => r is Err && r->Err_0@ == e,
            },
    {
        match regex_search(self.pattern.as_str(), output) {
            Ok(passed) => Ok(self.judge(passed, matrix_run_id, at)),
            Err(e) => Err(e),
        }
    }
}

/// The value has the members that the first `n` of a list name; a name that is
/// no string is never there.
pub open spec fn has_members_upto(req: Seq<JsonView>, value: JsonView, n: int) -> bool
    decreases n,
{
    n <= 0 || (has_members_upto(req, value, n - 1) && match req[n - 1].text() {
        Some(k) => value.get(k) is Some,
        None => false,
    })
}

/// The value has the members that a schema requires.
pub open spec fn meets_schema(schema: JsonView, value: JsonView) -> bool {
    match schema.get("required"@) {
        Some(JsonView::Array(req)) => has_members_upto(req, value, req.len() as int),
        _ => true,
    }
}

/// Whether a value has the members that a schema requires.
pub fn check_required(schema: &Json, value: &Json) -> (r: bool)
    ensures
        r == meets_schema(schema@, value@),
{
    match schema.get("required") {
        Some(req) => match req {
            Json::Array(v) => {
                let ghost all = crate::json::item_views(v@);
                assert(req@ == JsonView::Array(all));
                let mut i: usize = 0;
                let n = v.len();
                proof {
                    crate::json::lemma_items(v@);
                }
                while i < n
                    invariant
                        n == v@.len(),
                        all == crate::json::item_views(v@),
                        all.len() == n,
                        forall|k: int|
                            0 <= k < n ==> #[trigger] all[k] == crate::json::json_view(v@[k]),
                        schema@.get("required"@) == Some(JsonView::Array(all)),
                        i <= n,
                        has_members_upto(all, value@, i as int),
                    decreases n - i,
                {
                    assert(all[i as int] == crate::json::json_view(v@[i as int]));
                    let there = match v[i].as_text() {
                        Some(k) => value.get(k).is_some(),
                        None => false,
                    };
                    if !there {
                        proof {
                            lemma_missing(all, value@, i as int, n as int);
                        }
                        return false;
                    }
                    i = i + 1;
                }
                true
            },
            _ => true,
        },
        None => true,
    }
}

proof fn lemma_missing(req: Seq<JsonView>, value: JsonView, i: int, n: int)
    requires
        0 <= i < n,
        match req[i].text() {
            Some(k) => value.get(k) is None,
            None => true,
        },
    ensures
        !has_members_upto(req, value, n),
    decreases n,
{
    if i < n - 1 {
        lemma_missing(req, value, i, n - 1);
    }
}

/// The details of an output that was checked against a schema.
pub open spec fn schema_details(schema: Seq<char>, valid: bool) -> Seq<char> {
    "{\"schema\":"@ + schema + ",\"valid\":"@ + (if valid {
        "true"@
    } else {
        "false"@
    }) + "}"@
}

impl JsonSchema {
    pub fn id(&self) -> (r: &'static str)
        ensures
            r@ == "json_schema"@,
    {
        "json_schema"
    }

    /// The evaluation of an output that meets the schema or not. `written` is
    /// the schema in compact form.
    pub fn judge(written: &str, passed: bool, matrix_run_id: i64, at: i64) -> (e: Evaluation)
        ensures
            is_evaluation(
                e,
                matrix_run_id,
                "json_schema"@,
                passed,
                schema_details(written@, passed),
                at,
            ),
    {
        let mut d = owned("{\"schema\":");
        d.append(written);
        d.append(",\"valid\":");
        d.append(
            if passed {
                "true"
            } else {
                "false"
            },
        );
        d.append("}");
        evaluation(matrix_run_id, "json_schema", passed, d, at)
    }

    /// Evaluates an output: a schema that is no document is an error, an output
    /// that is none does not pass.
    pub fn evaluate(&self, output: &str, matrix_run_id: i64, at: i64) -> (r: Result<
        Evaluation,
        String,
    >)
        ensures
            match (json_reading(self.schema@), rewritten_json(self.schema@)) {
                (Ok(schema), Some(written)) => r is Ok && match json_reading(trim(output@)) {
                    Ok(value) => is_evaluation(
                        r->Ok_0,
                        matrix_run_id,
                        "json_schema"@,
                        meets_schema(schema, value),
                        schema_details(written, meets_schema(schema, value)),
                        at,
                    ),
                    Err(e) => is_evaluation(
                        r->Ok_0,
                        matrix_run_id,
                        "json_schema"@,
                        false,
                        one_member("error"@, e),
                        at,
                    ),
                },
                (Err(e), _) => r is Err && r->Err_0@ == "bad schema: "@ + e,
                (Ok(_), None) => false,
            },
    {
        let schema = match parse_json(self.schema.as_str()) {
            Ok(s) => s,
            Err(e) => {
                let mut m = owned("bad schema: ");
                m.append(e.as_str());
                return Err(m);
            },
        };
        let written = match rewrite_json(self.schema.as_str()) {
            Some(w) => w,
            None => {
                let m = owned("bad schema: ");
                return Err(m);
            },
        };
        let trimmed = str_trim(output);
        match parse_json(trimmed.as_str()) {
            Ok(value) => {
                let passed = check_required(&schema, &value);
                Ok(JsonSchema::judge(written.as_str(), passed, matrix_run_id, at))
            },
            Err(e) => {
                Ok(
                    evaluation(
                        matrix_run_id,
                        "json_schema",
                        false,
                        write_member("error", e.as_str()),
                        at,
                    ),
                )
            },
        }
    }
}

/// One half, as a double.
pub const HALF: u64 = 0x3fe0_0000_0000_0000;

/// The quality is more than one half.
pub open spec fn above_half(quality: Measure) -> bool {
    (Measure { bits: HALF }).below(quality)
}

/// The evaluation is that of an output by its quality.
pub open spec fn is_scored(
    e: Evaluation,
    run: i64,
    method: Seq<char>,
    quality: Measure,
    details: Seq<char>,
    at: i64,
) -> bool {
    &&& e.id == 0
    &&& e.matrix_run_id == run
    &&& e.method@ == method
    &&& e.passed == above_half(quality)
    &&& e.score == quality
    &&& e.details_json@ == details
    &&& e.at == at
}

fn scored(run: i64, method: &str, quality: Measure, details_json: String, at: i64) -> (e: Evaluation)
    ensures
        is_scored(e, run, method@, quality, details_json@, at),
{
    Evaluation {
        id: 0,
        matrix_run_id: run,
        method: owned(method),
        passed: (Measure { bits: HALF }).is_below(quality),
        score: quality,
        details_json,
        at,
    }
}

impl LexicalPlaceholder {
    pub fn id(&self) -> (r: &'static str)
        ensures
            r@ == "lexical-placeholder"@,
    {
        "lexical-placeholder"
    }

    /// Evaluates an output by its quality.
    pub fn evaluate(&self, quality: Measure, matrix_run_id: i64, at: i64) -> (e: Evaluation)
        ensures
            is_scored(
                e,
                matrix_run_id,
                "lexical-placeholder"@,
                quality,
                "{\"note\":\"placeholder, not benchmark truth\"}"@,
                at,
            ),
    {
        scored(
            matrix_run_id,
            "lexical-placeholder",
            quality,
            owned("{\"note\":\"placeholder, not benchmark truth\"}"),
            at,
        )
    }
}

/// The details of a harness evaluation.
pub open spec fn harness_details(tasks: Seq<char>, version: Seq<char>) -> Seq<char> {
    "{\"harness_version\":"@ + json_string(version)
        + ",\"note\":\"proxy until full harness wired in Phase 6\",\"tasks\":"@ + json_string(tasks)
        + "}"@
}

impl LmEval {
    pub fn id(&self) -> (r: &'static str)
        ensures
            r@ == "lm_eval"@,
    {
        "lm_eval"
    }

    /// Evaluates an output by its quality. `harness_version` is what the
    /// harness said of itself, where it is installed.
    pub fn evaluate(
        &self,
        quality: Measure,
        harness_version: Option<&str>,
        matrix_run_id: i64,
        at: i64,
    ) -> (e: Evaluation)
        ensures
            is_scored(
                e,
                matrix_run_id,
                "lm_eval"@,
                quality,
                harness_details(
                    self.tasks_csv@,
                    match harness_version {
                        Some(v) => trim(v@),
                        None => "not-installed"@,
                    },
                ),
                at,
            ),
    {
        let version = match harness_version {
            Some(v) => str_trim(v),
            None => owned("not-installed"),
        };
        let mut d = owned("{\"harness_version\":");
        d.append(json_quote(version.as_str()).as_str());
        d.append(",\"note\":\"proxy until full harness wired in Phase 6\",\"tasks\":");
        d.append(json_quote(self.tasks_csv.as_str()).as_str());
        d.append("}");
        scored(matrix_run_id, "lm_eval", quality, d, at)
    }
}

/// An evaluator.
#[derive(Debug, Clone, PartialEq)]
pub enum AnyEvaluator {
    Exact(Exact),
    Regex(RegexEval),
    JsonSchema(JsonSchema),
    Lexical(LexicalPlaceholder),
    LmEval(LmEval),
}

/// A text without the leading repeats of a prefix.
pub open spec fn without_prefixes(s: Seq<char>, p: Seq<char>) -> Seq<char>
    decreases s.len(),
{
    if p.len() > 0 && has_prefix(s, p) {
        without_prefixes(s.skip(p.len() as int), p)
    } else {
        s
    }
}

fn strip_prefixes(s: &str, p: &str) -> (r: String)
    requires
        p@.len() > 0,
    ensures
        r@ == without_prefixes(s@, p@),
{
    let mut cur = owned(s);
    let plen = p.unicode_len();
    while str_has_prefix(cur.as_str(), p)
        invariant
            p@.len() > 0,
            plen == p@.len(),
            without_prefixes(s@, p@) == without_prefixes(cur@, p@),
        decreases cur@.len(),
    {
        let n = cur.as_str().unicode_len();
        let rest = owned(cur.as_str().substring_char(plen, n));
        assert(rest@ =~= cur@.skip(plen as int));
        cur = rest;
    }
    cur
}

/// The evaluator that a task names, with its configuration.
pub open spec fn is_evaluator(e: AnyEvaluator, name: Seq<char>, config: Seq<char>) -> bool {
    if has_prefix(name, "lm_eval"@) {
        e is LmEval && e->LmEval_0.tasks_csv@ == if config.len() == 0 {
            without_prefixes(name, "lm_eval:"@)
        } else {
            config
        }
    } else if name == "exact"@ {
        e is Exact && e->Exact_0.expected@ == config
    } else if name == "regex"@ {
        e is Regex && e->Regex_0.pattern@ == config
    } else if name == "json_schema"@ {
        e is JsonSchema && e->JsonSchema_0.schema@ == config
    } else {
        e is Lexical
    }
}

/// The evaluator that a task names.
pub fn evaluator_for(task_evaluator: &str, config: &str) -> (r: AnyEvaluator)
    ensures
        is_evaluator(r, task_evaluator@, config@),
{
    if str_has_prefix(task_evaluator, "lm_eval") {
        let tasks_csv = if config.is_empty() {
            proof {
                reveal_strlit("lm_eval:");
            }
            strip_prefixes(task_evaluator, "lm_eval:")
        } else {
            owned(config)
        };
        return AnyEvaluator::LmEval(LmEval { tasks_csv });
    }
    if same(task_evaluator, "exact") {
        AnyEvaluator::Exact(Exact { expected: owned(config) })
    } else if same(task_evaluator, "regex") {
        AnyEvaluator::Regex(RegexEval { pattern: owned(config) })
    } else if same(task_evaluator, "json_schema") {
        AnyEvaluator::JsonSchema(JsonSchema { schema: owned(config) })
    } else {
        AnyEvaluator::Lexical(LexicalPlaceholder)
    }
}

} // verus!
