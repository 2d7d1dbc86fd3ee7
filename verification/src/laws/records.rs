//! What is kept: judgements, sessions, settings and their log.
use vstd::prelude::*;

use crate::engines::evaluation::{
    check_required, evaluator_for, has_members_upto, AnyEvaluator, Evaluation, Exact, JsonSchema,
    LexicalPlaceholder, LmEval, RegexEval,
};
use crate::json::{json_reading, json_string, Json, JsonView};
use crate::library::{diff_fields, ConfigOrigin, Provenance};
use crate::measure::Measure;
use crate::profile::Profile;
use crate::store::agents::{list_quota, quotas_upto, set_harness_binding, set_quota, Setting};
use crate::store::engine_bin::resolve_engine_bin;
use crate::store::profiles::save_profile_edited;
use crate::store::releases::{is_known, same_release, Release};
use crate::store::sessions::{
    format_timestamp, is_leap, leap, month_at, month_days, year_at, year_days, SessionStatus,
    SqlView,
};
use crate::store::settings::{settings_set, settings_undo, AuditEntry, SettingChange};
use crate::text::{contains, decimal_padded, has_prefix, opt_text, texts, trim};

verus! {

/// An exact judgement passes where the output is the expected text, space at
/// the ends aside; the score is all or nothing.
pub proof fn law_exact_judgement(ev: &Exact, output: &str, run: i64, at: i64, e: Evaluation)
    requires
        call_ensures(Exact::evaluate, (ev, output, run, at), e),
    ensures
        e.passed <==> trim(output@) == trim(ev.expected@),
        e.score.bits == if e.passed {
            0x3ff0_0000_0000_0000u64
        } else {
            0
        },
        e.method@ == "exact"@,
        e.matrix_run_id == run,
        e.at == at,
        e.details_json@ == "{\""@ + "expected"@ + "\":"@ + json_string(ev.expected@) + "}"@,
{
}

/// A judgement by pattern passes as the search says.
pub proof fn law_pattern_judgement(ev: &RegexEval, passed: bool, run: i64, at: i64, e: Evaluation)
    requires
        call_ensures(RegexEval::judge, (ev, passed, run, at), e),
    ensures
        e.passed == passed,
        e.score.bits == if passed {
            0x3ff0_0000_0000_0000u64
        } else {
            0
        },
        e.method@ == "regex"@,
        e.matrix_run_id == run,
        e.at == at,
{
}

proof fn lemma_members(req: Seq<JsonView>, value: JsonView, n: int)
    requires
        0 <= n <= req.len(),
    ensures
        has_members_upto(req, value, n) <==> forall|k: int|
            0 <= k < n ==> is_member(#[trigger] req[k], value),
    decreases n,
{
    if n > 0 {
        lemma_members(req, value, n - 1);
        assert(is_member(req[n - 1], value) == match req[n - 1].text() {
            Some(k) => value.get(k) is Some,
            None => false,
        });
    }
}

/// The name is a text, and the value has a member of that name.
pub open spec fn is_member(name: JsonView, value: JsonView) -> bool {
    name is Str && value.get(name->Str_0) is Some
}

/// A value meets a schema where it has every member that the schema requires.
pub proof fn law_required_members(schema: &Json, value: &Json, r: bool, req: Seq<JsonView>)
    requires
        call_ensures(check_required, (schema, value), r),
    ensures
        schema@.get("required"@) == Some(JsonView::Array(req)) ==> (r <==> forall|k: int|
            0 <= k < req.len() ==> is_member(#[trigger] req[k], value@)),
        schema@.get("required"@) is None ==> r,
{
    lemma_members(req, value@, req.len() as int);
}

/// A judgement by words passes above a half; its score is the quality.
pub proof fn law_judgement_by_words(
    ev: &LexicalPlaceholder,
    quality: Measure,
    run: i64,
    at: i64,
    e: Evaluation,
)
    requires
        call_ensures(LexicalPlaceholder::evaluate, (ev, quality, run, at), e),
    ensures
        quality.bits <= 0x7ff0_0000_0000_0000 ==> (e.passed <==> quality.bits
            > 0x3fe0_0000_0000_0000),
        quality.bits > 0x7ff0_0000_0000_0000 ==> !e.passed,
        e.score == quality,
        e.method@ == "lexical-placeholder"@,
        e.matrix_run_id == run,
        e.at == at,
{
}

/// An evaluator is found by its name; what has none is judged by words.
pub proof fn law_evaluators(name: &str, config: &str, r: AnyEvaluator)
    requires
        call_ensures(evaluator_for, (name, config), r),
    ensures
        has_prefix(name@, "lm_eval"@) <==> r is LmEval,
        r is LmEval && config@.len() > 0 ==> (r->LmEval_0).tasks_csv@ == config@,
        !has_prefix(name@, "lm_eval"@) ==> {
            &&& name@ == "exact"@ <==> r is Exact
            &&& r is Exact ==> (r->Exact_0).expected@ == config@
            &&& name@ == "regex"@ <==> r is Regex
            &&& r is Regex ==> (r->Regex_0).pattern@ == config@
            &&& name@ == "json_schema"@ <==> r is JsonSchema
            &&& r is JsonSchema ==> (r->JsonSchema_0).schema@ == config@
        },
{
    reveal_strlit("exact");
    reveal_strlit("regex");
    reveal_strlit("json_schema");
    assert("exact"@[0] == 'e' && "regex"@[0] == 'r' && "json_schema"@[0] == 'j');
}

/// How long a year is.
pub open spec fn days_in_year(y: nat) -> nat {
    if y % 400 == 0 {
        366
    } else if y % 100 == 0 {
        365
    } else if y % 4 == 0 {
        366
    } else {
        365
    }
}

/// How long a month is.
pub open spec fn days_in_month(y: nat, m: nat) -> nat {
    if m == 2 {
        (days_in_year(y) - 337) as nat
    } else if m == 4 || m == 6 || m == 9 || m == 11 {
        30
    } else {
        31
    }
}

/// The days from the beginning of 1970 to that of a year.
pub open spec fn days_to_year(y: nat) -> nat
    decreases y,
{
    if y <= 1970 {
        0
    } else {
        days_to_year((y - 1) as nat) + days_in_year((y - 1) as nat)
    }
}

/// The days from the beginning of a year to that of a month.
pub open spec fn days_to_month(y: nat, m: nat) -> nat
    decreases m,
{
    if m <= 1 {
        0
    } else {
        days_to_month(y, (m - 1) as nat) + days_in_month(y, (m - 1) as nat)
    }
}

proof fn lemma_year_lengths(y: nat, m: nat)
    ensures
        year_days(y) == days_in_year(y),
        month_days(y, m) == days_in_month(y, m),
{
    assert(y % 400 == 0 ==> y % 100 == 0 && y % 4 == 0);
    assert(y % 100 == 0 ==> y % 4 == 0);
}

proof fn lemma_days_grow(a: nat, b: nat)
    requires
        1970 <= a <= b,
    ensures
        days_to_year(a) <= days_to_year(b),
        a < b ==> days_to_year(a) + days_in_year(a) <= days_to_year(b),
    decreases b - a,
{
    if a < b {
        lemma_days_grow(a, (b - 1) as nat);
    }
}

proof fn lemma_year_at(y: nat, target: nat, rest: nat)
    requires
        1970 <= y <= target,
        rest < days_in_year(target),
    ensures
        year_at(y, (days_to_year(target) - days_to_year(y) + rest) as nat) == (target, rest),
    decreases target - y,
{
    lemma_year_lengths(y, 1);
    lemma_days_grow(y, target);
    if y < target {
        lemma_days_grow(y + 1, target);
        assert(days_to_year(y + 1) == days_to_year(y) + days_in_year(y));
        lemma_year_at(y + 1, target, rest);
    }
}

proof fn lemma_months_grow(y: nat, a: nat, b: nat)
    requires
        1 <= a <= b,
    ensures
        days_to_month(y, a) <= days_to_month(y, b),
        a < b ==> days_to_month(y, a) + days_in_month(y, a) <= days_to_month(y, b),
    decreases b - a,
{
    if a < b {
        lemma_months_grow(y, a, (b - 1) as nat);
    }
}

proof fn lemma_month_at(y: nat, m: nat, target: nat, rest: nat)
    requires
        1 <= m <= target <= 12,
        rest < days_in_month(y, target),
    ensures
        month_at(y, m, (days_to_month(y, target) - days_to_month(y, m) + rest) as nat) == (
            target,
            rest,
        ),
    decreases target - m,
{
    lemma_year_lengths(y, m);
    lemma_months_grow(y, m, target);
    if m < target {
        lemma_months_grow(y, m + 1, target);
        assert(days_to_month(y, m + 1) == days_to_month(y, m) + days_in_month(y, m));
        lemma_month_at(y, m + 1, target, rest);
    }
}

proof fn lemma_within_year(y: nat, m: nat, d: nat)
    requires
        1 <= m <= 12,
        d < days_in_month(y, m),
    ensures
        days_to_month(y, m) + d < days_in_year(y),
{
    lemma_months_grow(y, m, 12);
    reveal_with_fuel(days_to_month, 13);
}

/// A time is written as the date and the clock that it denotes: a day of a
/// month of a year of the Gregorian calendar, counted from 1970.
pub proof fn law_times_are_dates(
    ts: i64,
    r: String,
    y: nat,
    m: nat,
    d: nat,
    h: nat,
    min: nat,
    s: nat,
)
    requires
        call_ensures(format_timestamp, (ts,), r),
        1970 <= y,
        1 <= m <= 12,
        1 <= d <= days_in_month(y, m),
        h < 24,
        min < 60,
        s < 60,
        ts == (days_to_year(y) + days_to_month(y, m) + d - 1) * 86400 + h * 3600 + min * 60 + s,
    ensures
        r@ == decimal_padded(y, 4) + "-"@ + decimal_padded(m, 2) + "-"@ + decimal_padded(d, 2)
            + " "@ + decimal_padded(h, 2) + ":"@ + decimal_padded(min, 2) + ":"@ + decimal_padded(
            s,
            2,
        ),
{
    let days = (days_to_year(y) + days_to_month(y, m) + d - 1) as nat;
    let time = (h * 3600 + min * 60 + s) as nat;
    assert(time < 86400);
    assert(ts as nat / 86400 == days && ts as nat % 86400 == time) by {
        vstd::arithmetic::div_mod::lemma_fundamental_div_mod_converse(
            ts as int,
            86400,
            days as int,
            time as int,
        );
    }
    lemma_within_year(y, m, (d - 1) as nat);
    lemma_year_at(1970, y, (days_to_month(y, m) + d - 1) as nat);
    lemma_month_at(y, 1, m, (d - 1) as nat);
    assert(time / 3600 == h && time % 3600 / 60 == min && time % 60 == s);
}

/// A leap year is one in four, but of full centuries one in four.
pub proof fn law_leap_years(y: u64, r: bool)
    requires
        call_ensures(is_leap, (y,), r),
    ensures
        y % 400 == 0 ==> r,
        y % 100 == 0 && y % 400 != 0 ==> !r,
        y % 4 == 0 && y % 100 != 0 ==> r,
        y % 4 != 0 ==> !r,
{
}

/// The word for a status.
pub open spec fn status_word(s: SessionStatus) -> Seq<char> {
    match s {
        SessionStatus::Pending => "pending"@,
        SessionStatus::Running => "running"@,
        SessionStatus::Complete => "complete"@,
        SessionStatus::Stopped => "stopped"@,
        SessionStatus::Error => "error"@,
        SessionStatus::Disconnected => "disconnected"@,
    }
}

/// Statuses are kept by their words; a word that is none reads as an error.
pub proof fn law_status_words(s: SessionStatus, w: &'static str, t: &str, r: SessionStatus)
    requires
        call_ensures(SessionStatus::word, (&s,), w),
        call_ensures(SessionStatus::of_row, (t,), r),
    ensures
        w@ == status_word(s),
        t@ == w@ ==> r == s,
        (forall|u: SessionStatus| t@ != #[trigger] status_word(u)) ==> r == SessionStatus::Error,
{
    crate::store::sessions::law_status_round_trip(s);
    assert(status_word(SessionStatus::Pending) == "pending"@);
    assert(status_word(SessionStatus::Running) == "running"@);
    assert(status_word(SessionStatus::Complete) == "complete"@);
    assert(status_word(SessionStatus::Stopped) == "stopped"@);
    assert(status_word(SessionStatus::Error) == "error"@);
    assert(status_word(SessionStatus::Disconnected) == "disconnected"@);
}

/// A release is known by its source, its repository and its revision.
pub proof fn law_known_releases(catalog: Seq<Release>, r: Release, i: int)
    ensures
        0 <= i < catalog.len() && catalog[i].source@ == r.source@ && catalog[i].repo@ == r.repo@
            && catalog[i].rev@ == r.rev@ ==> is_known(catalog, r),
        (forall|k: int|
            0 <= k < catalog.len() ==> (#[trigger] catalog[k]).source@ != r.source@
                || catalog[k].repo@ != r.repo@ || catalog[k].rev@ != r.rev@) ==> !is_known(
            catalog,
            r,
        ),
{
    if 0 <= i < catalog.len() && catalog[i].source@ == r.source@ && catalog[i].repo@ == r.repo@
        && catalog[i].rev@ == r.rev@ {
        assert(same_release(catalog[i], r));
    }
}

/// A setting takes the value that it is given, and the log tells who changed
/// it, when, why, and from what to what; an empty value before is none. What
/// is no document is refused.
pub proof fn law_setting(
    key: &str,
    value: &str,
    actor: &str,
    reason: &str,
    old: Option<&str>,
    now: i64,
    r: Result<SettingChange, String>,
)
    requires
        call_ensures(settings_set, (key, value, actor, reason, old, now), r),
    ensures
        r is Ok <==> json_reading(value@) is Ok,
        r is Ok ==> {
            let c = r->Ok_0;
            &&& c.key@ == key@
            &&& c.value is Some && (c.value->0)@ == value@
            &&& c.updated_at == now
            &&& c.audit.ts == now
            &&& c.audit.actor@ == actor@
            &&& c.audit.key@ == key@
            &&& c.audit.reason@ == reason@
            &&& c.audit.new_json is Some && (c.audit.new_json->0)@ == value@
            &&& old is Some && (old->0)@.len() > 0 ==> c.audit.old_json is Some && (
            c.audit.old_json->0)@ == (old->0)@
            &&& old is None || (old->0)@.len() == 0 ==> c.audit.old_json is None
        },
{
}

/// Taking a change back puts the value before it in place, or removes the
/// setting where there was none; the log tells this too.
pub proof fn law_taking_back(
    id: i64,
    a: &AuditEntry,
    current: Option<&str>,
    now: i64,
    r: Result<SettingChange, String>,
)
    requires
        call_ensures(settings_undo, (id, a, current, now), r),
        a.old_json is Some ==> json_reading((a.old_json->0)@) is Ok,
    ensures
        r is Ok,
        (r->Ok_0).key@ == a.key@,
        opt_text((r->Ok_0).value) == opt_text(a.old_json),
        (r->Ok_0).audit.actor@ == "undo"@,
        (r->Ok_0).audit.key@ == a.key@,
        (r->Ok_0).audit.ts == now,
        opt_text((r->Ok_0).audit.new_json) == opt_text(a.old_json),
        a.old_json is None ==> opt_text((r->Ok_0).audit.old_json) == opt_text(a.new_json),
        a.old_json is Some && current is Some && (current->0)@.len() > 0 ==> opt_text(
            (r->Ok_0).audit.old_json,
        ) == Some((current->0)@),
{
}

/// A quota is kept under the provider's name, a binding under its own.
pub proof fn law_quotas_and_bindings(
    id: &str,
    json: &str,
    old: Option<&str>,
    now: i64,
    q: Result<SettingChange, String>,
    b: Result<SettingChange, String>,
)
    requires
        call_ensures(set_quota, (id, json, old, now), q),
        call_ensures(set_harness_binding, (id, json, old, now), b),
    ensures
        q is Ok <==> json_reading(json@) is Ok,
        b is Ok <==> json_reading(json@) is Ok,
        q is Ok ==> (q->Ok_0).key@ == "agents.quota."@ + id@ && opt_text((q->Ok_0).value) == Some(
            json@,
        ) && (q->Ok_0).audit.actor@ == "deck-agents"@,
        b is Ok ==> (b->Ok_0).key@ == id@ && opt_text((b->Ok_0).value) == Some(json@) && (
        b->Ok_0).audit.actor@ == "deck-agents"@,
{
}

proof fn lemma_quotas(all: Seq<Setting>, n: int)
    requires
        0 <= n <= all.len(),
    ensures
        forall|i: int|
            0 <= i < n && has_prefix((#[trigger] all[i]).0@, "agents.quota."@) ==> quotas_upto(
                all,
                n,
            ).contains((all[i].0@, all[i].1@)),
        forall|k: int|
            0 <= k < quotas_upto(all, n).len() ==> has_prefix(
                (#[trigger] quotas_upto(all, n)[k]).0,
                "agents.quota."@,
            ) && is_setting(all, quotas_upto(all, n)[k]),
    decreases n,
{
    if n > 0 {
        lemma_quotas(all, n - 1);
        let rest = quotas_upto(all, n - 1);
        let list = quotas_upto(all, n);
        assert forall|i: int|
            0 <= i < n && has_prefix((#[trigger] all[i]).0@, "agents.quota."@) implies list.contains(
            (all[i].0@, all[i].1@),
        ) by {
            if i == n - 1 {
                assert(list[rest.len() as int] == (all[i].0@, all[i].1@));
            } else {
                assert(rest.contains((all[i].0@, all[i].1@)));
                let x = choose|x: int| 0 <= x < rest.len() && rest[x] == (all[i].0@, all[i].1@);
                assert(list[x] == (all[i].0@, all[i].1@));
            }
        }
        assert forall|k: int| 0 <= k < list.len() implies has_prefix(
            (#[trigger] list[k]).0,
            "agents.quota."@,
        ) && is_setting(all, list[k]) by {
            if k < rest.len() {
                assert(rest[k] == list[k]);
            } else {
                assert(list[k] == (all[n - 1].0@, all[n - 1].1@));
            }
        }
    }
}

/// The pair is one of the settings.
pub open spec fn is_setting(all: Seq<Setting>, kv: (Seq<char>, Seq<char>)) -> bool {
    exists|i: int| 0 <= i < all.len() && (#[trigger] all[i]).0@ == kv.0 && all[i].1@ == kv.1
}

/// The quotas are the settings under their prefix, all of them.
pub proof fn law_quotas_listed(all: &Vec<Setting>, r: Vec<(String, String)>, i: int)
    requires
        call_ensures(list_quota, (all,), r),
    ensures
        0 <= i < all@.len() && has_prefix(all@[i].0@, "agents.quota."@)
            ==> crate::params::pair_texts(r@).contains((all@[i].0@, all@[i].1@)),
        0 <= i < r@.len() ==> has_prefix(r@[i].0@, "agents.quota."@) && is_setting(
            all@,
            (r@[i].0@, r@[i].1@),
        ),
{
    lemma_quotas(all@, all@.len() as int);
    if 0 <= i < r@.len() {
        assert(crate::params::pair_texts(r@)[i] == (r@[i].0@, r@[i].1@));
        assert(quotas_upto(all@, all@.len() as int)[i] == (r@[i].0@, r@[i].1@));
    }
}

/// A program that is a path to no file gives way to the configured one.
pub proof fn law_configured_program(p: Profile, configured: Option<&str>, is_file: bool, r: Profile)
    requires
        call_ensures(resolve_engine_bin, (p, configured, is_file), r),
    ensures
        configured is None ==> r.bin@ == p.bin@,
        is_file ==> r.bin@ == p.bin@,
        !contains(p.bin@, "/"@) && !contains(p.bin@, "\\"@) ==> r.bin@ == p.bin@,
        configured is Some && !is_file && (contains(p.bin@, "/"@) || contains(p.bin@, "\\"@))
            ==> r.bin@ == (configured->0)@,
        r.model@ == p.model@,
        r.name@ == p.name@,
        r.ctx_size == p.ctx_size,
{
}

/// An edited loadout is an override exactly where it differs from its
/// baseline, and keeps what it was derived from.
pub proof fn law_edits_are_overrides(
    provenance: Provenance,
    edited: &Profile,
    r: Option<(Provenance, ConfigOrigin)>,
    changed: Vec<String>,
)
    requires
        call_ensures(save_profile_edited, (Some(provenance), edited), r),
        call_ensures(diff_fields, (&provenance.baseline, edited), changed),
    ensures
        r is Some,
        (r->0).1 == ConfigOrigin::Override <==> changed@.len() > 0,
        texts((r->0).0.overridden_fields@) == texts(changed@),
        (r->0).0.why@ == provenance.why@,
        (r->0).0.runtime_id@ == provenance.runtime_id@,
        (r->0).0.artifact_path@ == provenance.artifact_path@,
        (r->0).0.vram_mb == provenance.vram_mb,
{
    assert(texts(changed@).len() == changed@.len());
}

} // verus!
