//! What is written for people and for other programs.
use vstd::prelude::*;

use crate::engines::evaluation::{Evaluation, JsonSchema, LmEval};
use crate::json::{json_char, json_chars, json_reading, json_string, rewritten_json};
use crate::laws::records::status_word;
use crate::laws::text::lemma_join_front;
use crate::measure::Measure;
use crate::store::sessions::{
    bound_upto, format_timestamp, generate_handoff, is_output, output_upto, printed,
    session_changes, sql_views, timestamp_text, update_session, wide_code, Session, SessionEvent,
    SessionStatus, SqlView, Statement,
};
use crate::text::{
    ascii_lower, decimal, decimal_int, join, join_texts, same_ignoring_ascii_case, texts, trim,
};

verus! {

/// Joined texts stand one behind another with the separator between them, and
/// nothing before the first nor behind the last.
pub proof fn law_joining(v: &Vec<String>, sep: &str, r: String, a: Seq<char>, rest: Seq<Seq<char>>)
    requires
        call_ensures(join_texts, (v, sep), r),
    ensures
        texts(v@).len() == 0 ==> r@.len() == 0,
        texts(v@) == seq![a] ==> r@ == a,
        rest.len() > 0 && texts(v@) == seq![a] + rest ==> r@ == a + sep@ + join(rest, sep@),
{
    if rest.len() > 0 {
        lemma_join_front(a, rest, sep@);
    }
}

/// Letters of the alphabet compare whatever their case.
pub proof fn law_case_is_ignored(a: &str, b: &str, r: bool)
    requires
        call_ensures(same_ignoring_ascii_case, (a, b), r),
    ensures
        r ==> a@.len() == b@.len(),
        r <==> a@.len() == b@.len() && forall|i: int|
            0 <= i < a@.len() ==> is_same_letter(#[trigger] a@[i], b@[i]),
{
    let x = ascii_lower(a@);
    let y = ascii_lower(b@);
    assert(x.len() == a@.len() && y.len() == b@.len());
    if r {
        assert forall|i: int| 0 <= i < a@.len() implies is_same_letter(#[trigger] a@[i], b@[i]) by {
            assert(x[i] == y[i]);
            lemma_lower(a@[i], b@[i]);
        }
    }
    if a@.len() == b@.len() && (forall|i: int|
        0 <= i < a@.len() ==> is_same_letter(#[trigger] a@[i], b@[i])) {
        assert forall|i: int| 0 <= i < x.len() implies x[i] == y[i] by {
            assert(is_same_letter(a@[i], b@[i]));
            lemma_lower(a@[i], b@[i]);
        }
        assert(x =~= y);
    }
}

/// Two characters are the same, or the small and the large form of one letter.
pub open spec fn is_same_letter(a: char, b: char) -> bool {
    ||| a == b
    ||| 65 <= a as u32 <= 90 && b as u32 == a as u32 + 32
    ||| 65 <= b as u32 <= 90 && a as u32 == b as u32 + 32
}

proof fn lemma_lower(a: char, b: char)
    ensures
        crate::text::ascii_lower_char(a) == crate::text::ascii_lower_char(b) <==> is_same_letter(
            a,
            b,
        ),
{
    let x = crate::text::ascii_lower_char(a);
    let y = crate::text::ascii_lower_char(b);
    assert('A' as u32 == 65 && 'Z' as u32 == 90);
    if 65 <= a as u32 <= 90 {
        assert(x as u32 == a as u32 + 32);
    }
    if 65 <= b as u32 <= 90 {
        assert(y as u32 == b as u32 + 32);
    }
}

/// In a string of a document quotation marks and backslashes stand behind a
/// backslash, as do the ends of lines; letters stand for themselves.
pub proof fn law_strings_in_documents(s: Seq<char>, c: char)
    ensures
        json_string(Seq::empty()) == seq!['"', '"'],
        json_string(s.push(c)) == seq!['"'] + (json_chars(s) + json_char(c)) + seq!['"'],
        json_string(s) == seq!['"'] + json_chars(s) + seq!['"'],
        c == '"' || c == '\\' ==> json_char(c) == seq!['\\', c],
        c as u32 == 10 ==> json_char(c) == seq!['\\', 'n'],
        c as u32 == 9 ==> json_char(c) == seq!['\\', 't'],
        c as u32 == 13 ==> json_char(c) == seq!['\\', 'r'],
        c as u32 >= 32 && c != '"' && c != '\\' ==> json_char(c) == seq![c],
{
    assert(s.push(c).drop_last() =~= s);
    assert(json_string(Seq::empty()) =~= seq!['"', '"']);
    assert('"' as u32 == 34 && '\\' as u32 == 92);
}

/// The value that a column takes, where it takes one.
pub open spec fn int_of(v: Option<Option<i64>>) -> Seq<SqlView> {
    match v {
        Some(Some(n)) => seq![SqlView::Int(n)],
        _ => Seq::empty(),
    }
}

/// The text that a column takes, where it takes one.
pub open spec fn text_of(v: Option<Option<String>>) -> Seq<SqlView> {
    match v {
        Some(Some(s)) => seq![SqlView::Text(s@)],
        _ => Seq::empty(),
    }
}

/// The status that a session takes, where it takes one.
pub open spec fn status_of(s: Option<SessionStatus>) -> Seq<SqlView> {
    match s {
        Some(s) => seq![SqlView::Text(status_word(s))],
        None => Seq::empty(),
    }
}

proof fn lemma_bound_push(
    a: Seq<crate::store::sessions::Change>,
    b: Seq<crate::store::sessions::Change>,
    n: int,
)
    requires
        0 <= n <= a.len(),
        a.len() <= b.len(),
        forall|i: int| 0 <= i < n ==> #[trigger] a[i] == b[i],
    ensures
        bound_upto(a, n) == bound_upto(b, n),
    decreases n,
{
    if n > 0 {
        assert(a[n - 1] == b[n - 1]);
        lemma_bound_push(a, b, n - 1);
    }
}

proof fn lemma_bound_more(
    a: Seq<crate::store::sessions::Change>,
    c: Seq<crate::store::sessions::Change>,
    v: Seq<SqlView>,
)
    requires
        c.len() <= 1,
        c.len() == 1 && c[0].value is Some ==> v == seq![c[0].value->0],
        c.len() == 0 || c[0].value is None ==> v.len() == 0,
    ensures
        bound_upto(a + c, (a + c).len() as int) == bound_upto(a, a.len() as int) + v,
{
    lemma_bound_push(a, a + c, a.len() as int);
    if c.len() == 1 {
        assert((a + c)[a.len() as int] == c[0]);
        assert(bound_upto(a + c, a.len() as int + 1) =~= bound_upto(a, a.len() as int) + v);
    } else {
        assert(a + c =~= a);
        assert(bound_upto(a, a.len() as int) + v =~= bound_upto(a, a.len() as int));
    }
}

/// A session's update binds the id, and behind it each value that a column
/// takes, in order; a column that is emptied binds none, and without a change
/// there is no statement.
pub proof fn law_update_of_a_session(
    id: &str,
    status: Option<SessionStatus>,
    started: Option<Option<i64>>,
    completed: Option<Option<i64>>,
    code: Option<Option<i32>>,
    handoff: Option<Option<String>>,
    error: Option<Option<String>>,
    r: Option<Statement>,
)
    requires
        call_ensures(
            update_session,
            (id, status, started, completed, code, handoff, error),
            r,
        ),
    ensures
        r is None <==> status is None && started is None && completed is None && code is None
            && handoff is None && error is None,
        r is Some ==> sql_views((r->0).params@) == seq![SqlView::Text(id@)] + (status_of(status)
            + int_of(started) + int_of(completed) + int_of(
            match code {
                Some(Some(c)) => Some(Some(c as i64)),
                _ => None,
            },
        ) + text_of(handoff) + text_of(error)),
{
    let c0 = match status {
        Some(s) => seq![
            crate::store::sessions::Change {
                column: "status"@,
                value: Some(SqlView::Text(crate::store::sessions::status_text(s))),
            },
        ],
        None => Seq::empty(),
    };
    let wide = wide_code(code);
    let c1 = crate::store::sessions::int_change("started_at"@, started);
    let c2 = crate::store::sessions::int_change("completed_at"@, completed);
    let c3 = crate::store::sessions::int_change("exit_code"@, wide);
    let c4 = crate::store::sessions::text_change("handoff_json"@, handoff);
    let c5 = crate::store::sessions::text_change("error_message"@, error);
    let none = Seq::<crate::store::sessions::Change>::empty();
    let w = int_of(
        match code {
            Some(Some(c)) => Some(Some(c as i64)),
            _ => None,
        },
    );
    lemma_bound_more(none, c0, status_of(status));
    assert(none + c0 =~= c0);
    assert(bound_upto(none, 0) + status_of(status) =~= status_of(status));
    lemma_bound_more(c0, c1, int_of(started));
    lemma_bound_more(c0 + c1, c2, int_of(completed));
    lemma_bound_more(c0 + c1 + c2, c3, w);
    lemma_bound_more(c0 + c1 + c2 + c3, c4, text_of(handoff));
    lemma_bound_more(c0 + c1 + c2 + c3 + c4, c5, text_of(error));
    assert(session_changes(status, started, completed, wide, handoff, error) == c0 + c1 + c2 + c3
        + c4 + c5);
}

/// What a session's agent printed: each line of its output, and nothing of
/// other streams or kinds.
pub open spec fn transcript(events: Seq<SessionEvent>, n: int) -> Seq<char>
    decreases n,
{
    if n <= 0 {
        Seq::empty()
    } else if events[n - 1].stream@ == "stdout"@ && events[n - 1].kind@ == "line"@ {
        transcript(events, n - 1) + events[n - 1].text@ + "\n"@
    } else {
        transcript(events, n - 1)
    }
}

proof fn lemma_transcript(events: Seq<SessionEvent>, n: int)
    requires
        0 <= n <= events.len(),
    ensures
        transcript(events, n) == output_upto(events, n),
    decreases n,
{
    if n > 0 {
        lemma_transcript(events, n - 1);
    }
}

/// The words that head a session's state.
pub open spec fn heading(s: SessionStatus) -> Seq<char> {
    match s {
        SessionStatus::Complete => "COMPLETE"@,
        SessionStatus::Stopped => "STOPPED (by user)"@,
        SessionStatus::Error => "ERROR"@,
        SessionStatus::Running => "INTERRUPTED (was running at disconnect)"@,
        SessionStatus::Pending => "PENDING (never started)"@,
        SessionStatus::Disconnected => "DISCONNECTED"@,
    }
}

/// The task of a session.
pub open spec fn objective(s: Session) -> Seq<char> {
    "## Objective\n\n"@ + if s.task@.len() > 0 {
        s.task@ + "\n\n"@
    } else {
        "_No task specified._\n\n"@
    }
}

/// A line of the configuration, where there is something to say.
pub open spec fn stated(before: Seq<char>, what: Seq<char>, after: Seq<char>) -> Seq<char> {
    if what.len() > 0 {
        before + what + after
    } else {
        Seq::empty()
    }
}

/// The configuration of a session.
pub open spec fn configuration(s: Session) -> Seq<char> {
    "## Configuration\n\n- **Project:** `"@ + s.project_dir@ + "`\n"@ + stated(
        "- **Agent:** "@,
        s.agent@,
        "\n"@,
    ) + stated("- **Model:** `"@, s.model@, "`\n"@) + "- **Auto mode:** "@ + (if s.auto_mode {
        "true"@
    } else {
        "false"@
    }) + "\n- **Context size:** "@ + decimal(s.ctx_size as nat) + "\n\n"@
}

/// The state of a session.
pub open spec fn state(s: Session) -> Seq<char> {
    "## Status\n\n**"@ + heading(s.status) + "**\n\n"@ + (if s.exit_code is Some {
        "- Exit code: "@ + decimal_int(s.exit_code->0 as int) + "\n"@
    } else {
        Seq::empty()
    }) + if s.error_message is Some {
        "- Error: "@ + (s.error_message->0)@ + "\n"@
    } else {
        Seq::empty()
    }
}

/// The times of a session.
pub open spec fn times(s: Session) -> Seq<char> {
    "\n## Timing\n\n"@ + (if s.started_at is Some {
        "- Started: "@ + timestamp_text(s.started_at->0 as nat) + "\n"@
    } else {
        Seq::empty()
    }) + (if s.completed_at is Some {
        "- Completed: "@ + timestamp_text(s.completed_at->0 as nat) + "\n"@
    } else {
        Seq::empty()
    }) + (if s.started_at is Some && s.completed_at is Some {
        "- Duration: "@ + decimal_int(s.completed_at->0 - s.started_at->0) + "s\n"@
    } else {
        Seq::empty()
    }) + "\n"@
}

/// What a session's agent did, where it printed something.
pub open spec fn work(events: Seq<SessionEvent>) -> Seq<char> {
    if exists|i: int|
        {
            &&& 0 <= i < events.len()
            &&& (#[trigger] events[i]).stream@ == "stdout"@
            &&& events[i].kind@ == "line"@
        } {
        "## Work Performed\n\n```\n"@ + transcript(events, events.len() as int) + "```\n\n"@
    } else {
        Seq::empty()
    }
}

/// What there is to be concerned about.
pub open spec fn concerns(s: SessionStatus) -> Seq<char> {
    if s == SessionStatus::Error {
        "## Concerns\n\n- Session ended with an error and may need retry.\n\n"@
    } else if s == SessionStatus::Stopped {
        "## Concerns\n\n- Session was stopped by the user — work may be incomplete.\n\n"@
    } else {
        Seq::empty()
    }
}

/// What a handoff advises.
pub open spec fn advice(s: SessionStatus) -> Seq<char> {
    "## Recommended Next Action\n\n"@ + (if s == SessionStatus::Complete {
        "Task completed. Review the output above for accuracy.\n"@
    } else if s == SessionStatus::Stopped {
        "Session was interrupted. Consider re-running with the same prompt to continue.\n"@
    } else if s == SessionStatus::Error {
        "Session failed. Check the error output and retry with adjusted parameters.\n"@
    } else if s == SessionStatus::Pending {
        "Review session state and decide next step.\n"@
    } else {
        "Session may still be running or crashed. Check process status before re-running.\n"@
    }) + "\n"@
}

proof fn lemma_sections(s: Session, events: Seq<SessionEvent>)
    ensures
        objective(s) == crate::store::sessions::objective_section(s),
        configuration(s) == crate::store::sessions::configuration_section(s),
        state(s) == crate::store::sessions::status_section(s),
        times(s) == crate::store::sessions::timing_section(s),
        concerns(s.status) == crate::store::sessions::concerns_section(s.status),
        advice(s.status) == crate::store::sessions::next_section(s.status),
{
}

proof fn lemma_work(events: Seq<SessionEvent>)
    ensures
        work(events) == crate::store::sessions::work_section(events),
{
    lemma_transcript(events, events.len() as int);
    if printed(events) {
        let i = choose|i: int| 0 <= i < events.len() && is_output(#[trigger] events[i]);
        assert(events[i].stream@ == "stdout"@);
    }
    if exists|i: int|
        {
            &&& 0 <= i < events.len()
            &&& (#[trigger] events[i]).stream@ == "stdout"@
            &&& events[i].kind@ == "line"@
        } {
        let i = choose|i: int|
            {
                &&& 0 <= i < events.len()
                &&& (#[trigger] events[i]).stream@ == "stdout"@
                &&& events[i].kind@ == "line"@
            };
        assert(is_output(events[i]));
    }
}

/// A handoff holds the task, the configuration, the state, the times, what was
/// printed, and what to do next.
pub proof fn law_handoff(s: &Session, events: &Vec<SessionEvent>, r: String)
    requires
        call_ensures(generate_handoff, (s, events), r),
    ensures
        r@ == objective(*s) + configuration(*s) + state(*s) + times(*s) + work(events@) + concerns(
            s.status,
        ) + advice(s.status) + ("---\n\n<!-- cyberdeck-session-meta\nsession_id: "@ + s.id@
            + "\nproject: "@ + s.project_dir@ + "\nmodel: "@ + s.model@ + "\nstatus: "@
            + status_word(s.status) + "\n-->\n"@),
{
    lemma_sections(*s, events@);
    lemma_work(events@);
}

/// A text of a time stands for a date and a clock.
pub proof fn law_written_times(ts: i64, r: String)
    requires
        call_ensures(format_timestamp, (ts,), r),
    ensures
        r@ == timestamp_text(ts as nat),
{
}

/// A harness's judgement passes above a half and scores the quality.
pub proof fn law_judgement_of_a_harness(
    ev: &LmEval,
    quality: Measure,
    version: Option<&str>,
    run: i64,
    at: i64,
    e: Evaluation,
)
    requires
        call_ensures(LmEval::evaluate, (ev, quality, version, run, at), e),
    ensures
        quality.bits <= 0x7ff0_0000_0000_0000 ==> (e.passed <==> quality.bits
            > 0x3fe0_0000_0000_0000),
        e.score == quality,
        e.method@ == "lm_eval"@,
        e.matrix_run_id == run,
        e.at == at,
{
}

/// A judgement by schema passes where the output is a document with the
/// members that the schema requires.
pub proof fn law_judgement_by_schema(
    ev: &JsonSchema,
    output: &str,
    run: i64,
    at: i64,
    r: Result<Evaluation, String>,
)
    requires
        call_ensures(JsonSchema::evaluate, (ev, output, run, at), r),
        json_reading(ev.schema@) is Ok,
        rewritten_json(ev.schema@) is Some,
    ensures
        r is Ok,
        json_reading(trim(output@)) is Err ==> !(r->Ok_0).passed && (r->Ok_0).score.bits == 0,
        json_reading(trim(output@)) is Ok && (json_reading(ev.schema@)->Ok_0).get("required"@)
            is None ==> (r->Ok_0).passed && (r->Ok_0).score.bits == 0x3ff0_0000_0000_0000,
        (r->Ok_0).method@ == "json_schema"@,
        (r->Ok_0).matrix_run_id == run,
{
}

} // verus!
