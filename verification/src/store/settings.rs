//! Settings and their audit log: every change is recorded with what was there
//! before, so that it can be undone.
use vstd::prelude::*;
use vstd::string::StringExecFns;

use crate::json::{json_reading, parse_json};
use crate::text::{clone_opt, decimal_int, decimal_of_signed, opt_str, opt_text, owned};

verus! {

/// A line of the audit log.
#[derive(Debug, Clone, PartialEq, Eq)]
pub struct AuditEntry {
    /// Unix time in seconds.
    pub ts: i64,
    pub actor: String,
    pub key: String,
    /// The value before; none where there was none.
    pub old_json: Option<String>,
    /// The value after; none where it was removed.
    pub new_json: Option<String>,
    pub reason: String,
}

/// A change of the settings: the value that a key gets (none removes it), and
/// the line of the log that records it.
#[derive(Debug, Clone, PartialEq, Eq)]
pub struct SettingChange {
    pub key: String,
    pub value: Option<String>,
    pub updated_at: i64,
    pub audit: AuditEntry,
}

/// The values of a line of the audit log.
pub struct AuditView {
    pub ts: i64,
    pub actor: Seq<char>,
    pub key: Seq<char>,
    pub old_json: Option<Seq<char>>,
    pub new_json: Option<Seq<char>>,
    pub reason: Seq<char>,
}

/// The values of a change.
pub struct ChangeView {
    pub key: Seq<char>,
    pub value: Option<Seq<char>>,
    pub updated_at: i64,
    pub audit: AuditView,
}

impl View for AuditEntry {
    type V = AuditView;

    open spec fn view(&self) -> AuditView {
        AuditView {
            ts: self.ts,
            actor: self.actor@,
            key: self.key@,
            old_json: opt_text(self.old_json),
            new_json: opt_text(self.new_json),
            reason: self.reason@,
        }
    }
}

impl View for SettingChange {
    type V = ChangeView;

    open spec fn view(&self) -> ChangeView {
        ChangeView {
            key: self.key@,
            value: opt_text(self.value),
            updated_at: self.updated_at,
            audit: self.audit@,
        }
    }
}

/// The change that sets a key, of which `old` is the value before.
pub open spec fn set_change(
    key: Seq<char>,
    value: Seq<char>,
    actor: Seq<char>,
    reason: Seq<char>,
    old: Option<Seq<char>>,
    now: i64,
) -> ChangeView {
    ChangeView {
        key,
        value: Some(value),
        updated_at: now,
        audit: AuditView {
            ts: now,
            actor,
            key,
            old_json: match old {
                Some(o) => if o.len() > 0 {
                    Some(o)
                } else {
                    None
                },
                None => None,
            },
            new_json: Some(value),
            reason,
        },
    }
}

/// Sets a key to a value that is a JSON document or not.
pub fn set_checked(
    valid: bool,
    key: &str,
    value_json: &str,
    actor: &str,
    reason: &str,
    old: Option<&str>,
    now: i64,
) -> (r: Result<SettingChange, String>)
    ensures
        valid ==> r is Ok && r->Ok_0@ == set_change(
            key@,
            value_json@,
            actor@,
            reason@,
            opt_str(old),
            now,
        ),
        !valid ==> r is Err && r->Err_0@ == "value must be valid JSON"@,
{
    if !valid {
        return Err(owned("value must be valid JSON"));
    }
    let old_json = match old {
        Some(o) => if o.is_empty() {
            None
        } else {
            Some(owned(o))
        },
        None => None,
    };
    Ok(
        SettingChange {
            key: owned(key),
            value: Some(owned(value_json)),
            updated_at: now,
            audit: AuditEntry {
                ts: now,
                actor: owned(actor),
                key: owned(key),
                old_json,
                new_json: Some(owned(value_json)),
                reason: owned(reason),
            },
        },
    )
}

/// Sets a key; a value that is no JSON document is refused. `old` is the value
/// before.
pub fn settings_set(
    key: &str,
    value_json: &str,
    actor: &str,
    reason: &str,
    old: Option<&str>,
    now: i64,
) -> (r: Result<SettingChange, String>)
    ensures
        json_reading(value_json@) is Ok ==> r is Ok && r->Ok_0@ == set_change(
            key@,
            value_json@,
            actor@,
            reason@,
            opt_str(old),
            now,
        ),
        json_reading(value_json@) is Err ==> r is Err && r->Err_0@ == "value must be valid JSON"@,
{
    let valid = match parse_json(value_json) {
        Ok(_) => true,
        Err(_) => false,
    };
    set_checked(valid, key, value_json, actor, reason, old, now)
}

/// The change that undoes line `id` of the log, where `current` is the value
/// now: what was there before is set again, or removed where nothing was.
pub open spec fn undo_change(id: i64, a: AuditView, current: Option<Seq<char>>, now: i64) -> ChangeView {
    match a.old_json {
        Some(v) => set_change(a.key, v, "undo"@, "revert #"@ + decimal_int(id as int), current, now),
        None => ChangeView {
            key: a.key,
            value: None,
            updated_at: now,
            audit: AuditView {
                ts: now,
                actor: "undo"@,
                key: a.key,
                old_json: a.new_json,
                new_json: None,
                reason: "undo #"@ + decimal_int(id as int),
            },
        },
    }
}

/// Undoes line `id` of the log. A value that is no JSON document cannot be set
/// again.
pub fn settings_undo(id: i64, a: &AuditEntry, current: Option<&str>, now: i64) -> (r: Result<
    SettingChange,
    String,
>)
    ensures
        a.old_json is None || json_reading(a.old_json->0@) is Ok ==> r is Ok && r->Ok_0@
            == undo_change(id, a@, opt_str(current), now),
        a.old_json is Some && json_reading(a.old_json->0@) is Err ==> r is Err && r->Err_0@
            == "value must be valid JSON"@,
{
    match &a.old_json {
        Some(v) => {
            let mut reason = owned("revert #");
            reason.append(decimal_of_signed(id).as_str());
            settings_set(a.key.as_str(), v.as_str(), "undo", reason.as_str(), current, now)
        },
        None => {
            let mut reason = owned("undo #");
            reason.append(decimal_of_signed(id).as_str());
            Ok(
                SettingChange {
                    key: owned(a.key.as_str()),
                    value: None,
                    updated_at: now,
                    audit: AuditEntry {
                        ts: now,
                        actor: owned("undo"),
                        key: owned(a.key.as_str()),
                        old_json: clone_opt(&a.new_json),
                        new_json: None,
                        reason,
                    },
                },
            )
        },
    }
}

/// The settings after a change.
pub open spec fn after_change(t: Map<Seq<char>, Seq<char>>, c: ChangeView) -> Map<
    Seq<char>,
    Seq<char>,
> {
    match c.value {
        Some(v) => t.insert(c.key, v),
        None => t.remove(c.key),
    }
}

/// The value of a key.
pub open spec fn value_at(t: Map<Seq<char>, Seq<char>>, key: Seq<char>) -> Option<Seq<char>> {
    if t.dom().contains(key) {
        Some(t[key])
    } else {
        None
    }
}

/// Undoing a change gives back the settings as they were before it. A document
/// is never empty, so neither is a value that was set before.
pub proof fn law_undo_restores(
    t: Map<Seq<char>, Seq<char>>,
    key: Seq<char>,
    value: Seq<char>,
    actor: Seq<char>,
    reason: Seq<char>,
    id: i64,
    before: i64,
    now: i64,
)
    requires
        t.dom().contains(key) ==> t[key].len() > 0,
    ensures
        ({
            let c = set_change(key, value, actor, reason, value_at(t, key), before);
            let changed = after_change(t, c);
            after_change(changed, undo_change(id, c.audit, value_at(changed, key), now)) == t
        }),
{
    let c = set_change(key, value, actor, reason, value_at(t, key), before);
    let changed = after_change(t, c);
    let back = after_change(changed, undo_change(id, c.audit, value_at(changed, key), now));
    assert(back =~= t);
}

/// The log records what a key held before a change and what it holds after.
pub proof fn law_log_tells_before_and_after(
    t: Map<Seq<char>, Seq<char>>,
    key: Seq<char>,
    value: Seq<char>,
    actor: Seq<char>,
    reason: Seq<char>,
    now: i64,
)
    requires
        t.dom().contains(key) ==> t[key].len() > 0,
    ensures
        ({
            let c = set_change(key, value, actor, reason, value_at(t, key), now);
            c.audit.old_json == value_at(t, key) && c.audit.new_json == value_at(
                after_change(t, c),
                key,
            )
        }),
{
}

} // verus!
