//! Agent sessions: what is recorded of a coding task, how a record changes,
//! and the document that hands a session over.
use vstd::prelude::*;
use vstd::string::StringExecFns;

use crate::text::{
    decimal, decimal_int, decimal_of, decimal_of_signed, decimal_padded, decimal_padded_of, join,
    join_texts, opt_text, owned, same, texts,
};

verus! {

#[derive(Debug, Clone, Copy, PartialEq, Eq, Structural)]
pub enum SessionStatus {
    Pending,
    Running,
    Complete,
    Stopped,
    Error,
    Disconnected,
}

/// The word for a status.
pub open spec fn status_text(s: SessionStatus) -> Seq<char> {
    match s {
        SessionStatus::Pending => "pending"@,
        SessionStatus::Running => "running"@,
        SessionStatus::Complete => "complete"@,
        SessionStatus::Stopped => "stopped"@,
        SessionStatus::Error => "error"@,
        SessionStatus::Disconnected => "disconnected"@,
    }
}

/// The status that a word stands for.
pub open spec fn status_of_text(s: Seq<char>) -> Option<SessionStatus> {
    if s == "pending"@ {
        Some(SessionStatus::Pending)
    } else if s == "running"@ {
        Some(SessionStatus::Running)
    } else if s == "complete"@ {
        Some(SessionStatus::Complete)
    } else if s == "stopped"@ {
        Some(SessionStatus::Stopped)
    } else if s == "error"@ {
        Some(SessionStatus::Error)
    } else if s == "disconnected"@ {
        Some(SessionStatus::Disconnected)
    } else {
        None
    }
}

impl SessionStatus {
    /// The word for the status.
    pub fn word(&self) -> (r: &'static str)
        ensures
            r@ == status_text(*self),
    {
        match self {
            SessionStatus::Pending => "pending",
            SessionStatus::Running => "running",
            SessionStatus::Complete => "complete",
            SessionStatus::Stopped => "stopped",
            SessionStatus::Error => "error",
            SessionStatus::Disconnected => "disconnected",
        }
    }

    /// The status that a word stands for.
    pub fn from_str(s: &str) -> (r: Result<SessionStatus, String>)
        ensures
            match r {
                Ok(v) => status_of_text(s@) == Some(v),
                Err(e) => status_of_text(s@) is None && e@ == "unknown session status: "@ + s@,
            },
    {
        if same(s, "pending") {
            Ok(SessionStatus::Pending)
        } else if same(s, "running") {
            Ok(SessionStatus::Running)
        } else if same(s, "complete") {
            Ok(SessionStatus::Complete)
        } else if same(s, "stopped") {
            Ok(SessionStatus::Stopped)
        } else if same(s, "error") {
            Ok(SessionStatus::Error)
        } else if same(s, "disconnected") {
            Ok(SessionStatus::Disconnected)
        } else {
            let mut e = owned("unknown session status: ");
            e.append(s);
            Err(e)
        }
    }

    /// The status of a stored row; a word that stands for none is an error.
    pub fn of_row(s: &str) -> (r: SessionStatus)
        ensures
            r == match status_of_text(s@) {
                Some(v) => v,
                None => SessionStatus::Error,
            },
    {
        match SessionStatus::from_str(s) {
            Ok(v) => v,
            Err(_) => SessionStatus::Error,
        }
    }
}

/// Reading a status's word gives the status back.
pub proof fn law_status_round_trip(s: SessionStatus)
    ensures
        status_of_text(status_text(s)) == Some(s),
{
    reveal_strlit("pending");
    reveal_strlit("running");
    reveal_strlit("complete");
    reveal_strlit("stopped");
    reveal_strlit("error");
    reveal_strlit("disconnected");
    assert("pending"@[0] == 'p');
    assert("running"@[0] == 'r');
    assert("complete"@[0] == 'c');
    assert("stopped"@[0] == 's');
    assert("error"@[0] == 'e');
    assert("disconnected"@[0] == 'd');
}

/// A recorded session.
#[derive(Debug, Clone, PartialEq)]
pub struct Session {
    pub id: String,
    pub project_dir: String,
    pub agent: String,
    pub model: String,
    pub task: String,
    pub status: SessionStatus,
    pub created_at: i64,
    pub started_at: Option<i64>,
    pub completed_at: Option<i64>,
    pub auto_mode: bool,
    pub ctx_size: u32,
    pub exit_code: Option<i32>,
    pub handoff_json: Option<String>,
    pub error_message: Option<String>,
}

/// One line of a session's log.
#[derive(Debug, Clone, PartialEq)]
pub struct SessionEvent {
    pub id: i64,
    pub session_id: String,
    pub timestamp: i64,
    pub kind: String,
    pub stream: String,
    pub text: String,
}

/// A value that a statement binds.
#[derive(Debug, Clone, PartialEq)]
pub enum SqlValue {
    Int(i64),
    Text(String),
}

/// What a bound value says.
pub enum SqlView {
    Int(i64),
    Text(Seq<char>),
}

impl View for SqlValue {
    type V = SqlView;

    open spec fn view(&self) -> SqlView {
        match self {
            SqlValue::Int(v) => SqlView::Int(*v),
            SqlValue::Text(s) => SqlView::Text(s@),
        }
    }
}

/// The views of a list of bound values.
pub open spec fn sql_views(v: Seq<SqlValue>) -> Seq<SqlView> {
    Seq::new(v.len(), |i: int| v[i]@)
}

/// What an optional bound value says.
pub open spec fn opt_sql(o: Option<SqlValue>) -> Option<SqlView> {
    match o {
        Some(v) => Some(v@),
        None => None,
    }
}

/// A column to be set: to a value, or to nothing.
pub struct Change {
    pub column: Seq<char>,
    pub value: Option<SqlView>,
}

/// The change of a column that a nested option asks for.
pub open spec fn int_change(column: Seq<char>, v: Option<Option<i64>>) -> Seq<Change> {
    match v {
        Some(Some(n)) => seq![Change { column, value: Some(SqlView::Int(n)) }],
        Some(None) => seq![Change { column, value: None }],
        None => Seq::empty(),
    }
}

/// The change of a column that a nested option asks for.
pub open spec fn text_change(column: Seq<char>, v: Option<Option<String>>) -> Seq<Change> {
    match v {
        Some(Some(s)) => seq![Change { column, value: Some(SqlView::Text(s@)) }],
        Some(None) => seq![Change { column, value: None }],
        None => Seq::empty(),
    }
}

/// The values that the first `n` changes bind.
pub open spec fn bound_upto(changes: Seq<Change>, n: int) -> Seq<SqlView>
    decreases n,
{
    if n <= 0 {
        Seq::empty()
    } else {
        let rest = bound_upto(changes, n - 1);
        match changes[n - 1].value {
            Some(v) => rest.push(v),
            None => rest,
        }
    }
}

/// The assignment of change `i`. The first parameter is the id of the row, so
/// the values start at the second.
pub open spec fn assignment(changes: Seq<Change>, i: int) -> Seq<char> {
    match changes[i].value {
        Some(_) => changes[i].column + " = ?"@ + decimal(
            (bound_upto(changes, i).len() + 2) as nat,
        ),
        None => changes[i].column + " = NULL"@,
    }
}

/// The assignments of a list of changes.
pub open spec fn assignments(changes: Seq<Change>) -> Seq<Seq<char>> {
    Seq::new(changes.len(), |i: int| assignment(changes, i))
}

/// The statement that makes the changes.
pub open spec fn update_statement(changes: Seq<Change>) -> Seq<char> {
    "UPDATE sessions SET "@ + join(assignments(changes), ", "@) + " WHERE id = ?1"@
}

/// A statement with the values that it binds, the first for `?1`.
#[derive(Debug, Clone, PartialEq)]
pub struct Statement {
    pub sql: String,
    pub params: Vec<SqlValue>,
}

/// Each placeholder refers to the value of its own column: parameter `k` of
/// the statement is the value at position `k - 1`, and the id is parameter one.
pub proof fn law_placeholder_binds_its_value(id: Seq<char>, changes: Seq<Change>, i: int)
    requires
        0 <= i < changes.len(),
        changes[i].value is Some,
    ensures
        ({
            let params = seq![SqlView::Text(id)] + bound_upto(changes, changes.len() as int);
            let k = bound_upto(changes, i).len() + 2;
            &&& assignment(changes, i) == changes[i].column + " = ?"@ + decimal(k as nat)
            &&& k - 1 < params.len()
            &&& params[k - 1] == changes[i].value->0
        }),
{
    lemma_bound_at(changes, i, changes.len() as int);
}

proof fn lemma_bound_at(changes: Seq<Change>, i: int, n: int)
    requires
        0 <= i < n <= changes.len(),
        changes[i].value is Some,
    ensures
        bound_upto(changes, i).len() < bound_upto(changes, n).len(),
        bound_upto(changes, n)[bound_upto(changes, i).len() as int] == changes[i].value->0,
    decreases n,
{
    if i < n - 1 {
        lemma_bound_at(changes, i, n - 1);
    }
}

/// Collects the changes of a session.
struct Update {
    sets: Vec<String>,
    params: Vec<SqlValue>,
}

impl Update {
    spec fn holds(self, id: Seq<char>, changes: Seq<Change>) -> bool {
        &&& self.sets@.len() == changes.len()
        &&& changes.len() <= 6
        &&& forall|i: int| 0 <= i < changes.len() ==> (#[trigger] self.sets@[i])@ == assignment(changes, i)
        &&& sql_views(self.params@) =~= seq![SqlView::Text(id)] + bound_upto(
            changes,
            changes.len() as int,
        )
    }

    fn set(&mut self, column: &str, value: Option<SqlValue>, Ghost(id): Ghost<Seq<char>>, Ghost(
        changes,
    ): Ghost<Seq<Change>>)
        requires
            old(self).holds(id, changes),
            changes.len() < 6,
        ensures
            final(self).holds(
                id,
                changes.push(
                    Change {
                        column: column@,
                        value: opt_sql(value),
                    },
                ),
            ),
    {
        let ghost more = changes.push(Change { column: column@, value: opt_sql(value) });
        proof {
            assert forall|n: int| 0 <= n <= changes.len() implies #[trigger] bound_upto(more, n)
                == bound_upto(changes, n) by {
                lemma_bound_same(changes, more, n);
            }
            lemma_bound_len(changes, changes.len() as int);
            assert(sql_views(self.params@).len() == self.params@.len());
        }
        let ghost before = self.params@;
        let mut a = owned(column);
        match value {
            Some(v) => {
                a.append(" = ?");
                a.append(decimal_of(self.params.len() as u64 + 1).as_str());
                self.params.push(v);
                assert(sql_views(self.params@) =~= sql_views(before).push(v@));
            },
            None => {
                a.append(" = NULL");
            },
        }
        assert(a@ == assignment(more, changes.len() as int));
        proof {
            let n = changes.len() as int;
            assert(bound_upto(more, n) == bound_upto(changes, n));
            let rest = seq![SqlView::Text(id)] + bound_upto(changes, n);
            match opt_sql(value) {
                Some(v) => {
                    assert(bound_upto(more, n + 1) == bound_upto(changes, n).push(v));
                    assert(rest.push(v) =~= seq![SqlView::Text(id)] + bound_upto(more, n + 1));
                },
                None => {
                    assert(bound_upto(more, n + 1) == bound_upto(changes, n));
                },
            }
        }
        self.sets.push(a);
        assert forall|i: int| 0 <= i < more.len() implies (#[trigger] self.sets@[i])@ == assignment(
            more,
            i,
        ) by {
            if i < changes.len() {
                assert(assignment(more, i) == assignment(changes, i));
            }
        }
    }
}

impl Update {
    fn set_int(&mut self, column: &str, v: Option<Option<i64>>, Ghost(id): Ghost<Seq<char>>, Ghost(
        changes,
    ): Ghost<Seq<Change>>)
        requires
            old(self).holds(id, changes),
            changes.len() < 6,
        ensures
            final(self).holds(id, changes + int_change(column@, v)),
    {
        let ghost all = changes + int_change(column@, v);
        match v {
            Some(v) => {
                let value = match v {
                    Some(n) => Some(SqlValue::Int(n)),
                    None => None,
                };
                self.set(column, value, Ghost(id), Ghost(changes));
                assert(all =~= changes.push(Change { column: column@, value: opt_sql(value) }));
            },
            None => {
                assert(all =~= changes);
            },
        }
    }

    fn set_text(
        &mut self,
        column: &str,
        v: Option<Option<String>>,
        Ghost(id): Ghost<Seq<char>>,
        Ghost(changes): Ghost<Seq<Change>>,
    )
        requires
            old(self).holds(id, changes),
            changes.len() < 6,
        ensures
            final(self).holds(id, changes + text_change(column@, v)),
    {
        let ghost all = changes + text_change(column@, v);
        match v {
            Some(v) => {
                let value = match v {
                    Some(s) => Some(SqlValue::Text(s)),
                    None => None,
                };
                let ghost view = opt_sql(value);
                self.set(column, value, Ghost(id), Ghost(changes));
                assert(all =~= changes.push(Change { column: column@, value: view }));
            },
            None => {
                assert(all =~= changes);
            },
        }
    }
}

proof fn lemma_bound_same(a: Seq<Change>, b: Seq<Change>, n: int)
    requires
        n <= a.len() <= b.len(),
        forall|i: int| 0 <= i < a.len() ==> a[i] == b[i],
    ensures
        bound_upto(a, n) == bound_upto(b, n),
    decreases n,
{
    if n > 0 {
        lemma_bound_same(a, b, n - 1);
    }
}

proof fn lemma_bound_len(changes: Seq<Change>, n: int)
    requires
        0 <= n <= changes.len(),
    ensures
        bound_upto(changes, n).len() <= n,
    decreases n,
{
    if n > 0 {
        lemma_bound_len(changes, n - 1);
    }
}

/// The changes that an update of a session asks for, in the order of the
/// statement.
pub open spec fn session_changes(
    status: Option<SessionStatus>,
    started_at: Option<Option<i64>>,
    completed_at: Option<Option<i64>>,
    exit_code: Option<Option<i64>>,
    handoff: Option<Option<String>>,
    error: Option<Option<String>>,
) -> Seq<Change> {
    (match status {
        Some(s) => seq![
            Change { column: "status"@, value: Some(SqlView::Text(status_text(s))) },
        ],
        None => Seq::empty(),
    }) + int_change("started_at"@, started_at) + int_change("completed_at"@, completed_at)
        + int_change("exit_code"@, exit_code) + text_change("handoff_json"@, handoff) + text_change(
        "error_message"@,
        error,
    )
}

/// An exit code as a wider number.
pub open spec fn wide_code(c: Option<Option<i32>>) -> Option<Option<i64>> {
    match c {
        Some(Some(n)) => Some(Some(n as i64)),
        Some(None) => Some(None),
        None => None,
    }
}

/// The statement that changes the mutable fields of a session, or nothing
/// where nothing is to be changed. The identity of a session (its project,
/// model and task) never changes.
pub fn update_session(
    id: &str,
    status: Option<SessionStatus>,
    started_at: Option<Option<i64>>,
    completed_at: Option<Option<i64>>,
    exit_code: Option<Option<i32>>,
    handoff: Option<Option<String>>,
    error: Option<Option<String>>,
) -> (r: Option<Statement>)
    ensures
        ({
            let changes = session_changes(
                status,
                started_at,
                completed_at,
                wide_code(exit_code),
                handoff,
                error,
            );
            match r {
                Some(s) => changes.len() > 0 && s.sql@ == update_statement(changes) && sql_views(
                    s.params@,
                ) == seq![SqlView::Text(id@)] + bound_upto(changes, changes.len() as int),
                None => changes.len() == 0,
            }
        }),
{
    let mut params: Vec<SqlValue> = Vec::new();
    params.push(SqlValue::Text(owned(id)));
    let mut u = Update { sets: Vec::new(), params };
    let ghost all = session_changes(
        status,
        started_at,
        completed_at,
        wide_code(exit_code),
        handoff,
        error,
    );
    let ghost c0: Seq<Change> = Seq::empty();
    assert(sql_views(u.params@) =~= seq![SqlView::Text(id@)] + bound_upto(c0, 0));
    let word: Option<Option<String>> = match status {
        Some(s) => Some(Some(owned(s.word()))),
        None => None,
    };
    let ghost c1 = c0 + text_change("status"@, word);
    u.set_text("status", word, Ghost(id@), Ghost(c0));
    let ghost c2 = c1 + int_change("started_at"@, started_at);
    u.set_int("started_at", started_at, Ghost(id@), Ghost(c1));
    let ghost c3 = c2 + int_change("completed_at"@, completed_at);
    u.set_int("completed_at", completed_at, Ghost(id@), Ghost(c2));
    let code: Option<Option<i64>> = match exit_code {
        Some(v) => Some(
            match v {
                Some(n) => Some(n as i64),
                None => None,
            },
        ),
        None => None,
    };
    assert(code == wide_code(exit_code));
    let ghost c4 = c3 + int_change("exit_code"@, code);
    u.set_int("exit_code", code, Ghost(id@), Ghost(c3));
    let ghost c5 = c4 + text_change("handoff_json"@, handoff);
    u.set_text("handoff_json", handoff, Ghost(id@), Ghost(c4));
    let ghost cs = c5 + text_change("error_message"@, error);
    u.set_text("error_message", error, Ghost(id@), Ghost(c5));
    assert(cs =~= all);
    if u.sets.len() == 0 {
        return None;
    }
    let mut sql = owned("UPDATE sessions SET ");
    assert(texts(u.sets@) =~= assignments(cs));
    sql.append(join_texts(&u.sets, ", ").as_str());
    sql.append(" WHERE id = ?1");
    Some(Statement { sql, params: u.params })
}


pub open spec fn leap(y: nat) -> bool {
    (y % 4 == 0 && y % 100 != 0) || y % 400 == 0
}

pub fn is_leap(y: u64) -> (r: bool)
    ensures
        r == leap(y as nat),
{
    (y % 4 == 0 && y % 100 != 0) || y % 400 == 0
}

/// The days of a year.
pub open spec fn year_days(y: nat) -> nat {
    if leap(y) {
        366
    } else {
        365
    }
}

/// The days of a month, the first being month one.
pub open spec fn month_days(y: nat, m: nat) -> nat {
    if m == 2 {
        if leap(y) {
            29
        } else {
            28
        }
    } else if m == 4 || m == 6 || m == 9 || m == 11 {
        30
    } else {
        31
    }
}

/// The year in which day `days` after the start of year `y` falls, and the day
/// within that year, counted from zero.
pub open spec fn year_at(y: nat, days: nat) -> (nat, nat)
    decreases days,
{
    if days < year_days(y) {
        (y, days)
    } else {
        year_at(y + 1, (days - year_days(y)) as nat)
    }
}

/// The month in which day `days` after the start of month `m` of year `y`
/// falls, and the day within that month, counted from zero.
pub open spec fn month_at(y: nat, m: nat, days: nat) -> (nat, nat)
    decreases 12 - m,
{
    if m >= 12 || days < month_days(y, m) {
        (m, days)
    } else {
        month_at(y, m + 1, (days - month_days(y, m)) as nat)
    }
}

/// A date of the Gregorian calendar.
pub struct Date {
    pub year: nat,
    pub month: nat,
    pub day: nat,
}

/// The date of a day, counted from the first of January 1970.
pub open spec fn date_of(days: nat) -> Date {
    let (y, d) = year_at(1970, days);
    let (m, e) = month_at(y, 1, d);
    Date { year: y, month: m, day: e + 1 }
}

/// The days of the years from `from` to before `to`.
pub open spec fn days_of_years(from: nat, to: nat) -> nat
    decreases to - from,
{
    if from >= to {
        0
    } else {
        year_days(from) + days_of_years(from + 1, to)
    }
}

/// The days of the months of a year from `from` to before `to`.
pub open spec fn days_of_months(y: nat, from: nat, to: nat) -> nat
    decreases to - from,
{
    if from >= to {
        0
    } else {
        month_days(y, from) + days_of_months(y, from + 1, to)
    }
}

proof fn lemma_year_at(y: nat, days: nat)
    ensures
        ({
            let (z, d) = year_at(y, days);
            z >= y && d < year_days(z) && days_of_years(y, z) + d == days
        }),
    decreases days,
{
    if days >= year_days(y) {
        lemma_year_at(y + 1, (days - year_days(y)) as nat);
    }
}

proof fn lemma_month_at(y: nat, m: nat, days: nat)
    requires
        1 <= m <= 12,
        days < days_of_months(y, m, 13),
    ensures
        ({
            let (k, d) = month_at(y, m, days);
            m <= k <= 12 && d < month_days(y, k) && days_of_months(y, m, k) + d == days
        }),
    decreases 12 - m,
{
    if m == 12 {
        assert(days_of_months(y, 13, 13) == 0);
    } else if days >= month_days(y, m) {
        lemma_month_at(y, m + 1, (days - month_days(y, m)) as nat);
    }
}

/// The months of a year are its days.
proof fn lemma_year_is_months(y: nat)
    ensures
        days_of_months(y, 1, 13) == year_days(y),
{
    reveal_with_fuel(days_of_months, 14);
}

/// The date of a day is a day of the calendar, and it is as many days after
/// the first of January 1970.
pub proof fn law_date_denotes_day(days: nat)
    ensures
        ({
            let t = date_of(days);
            &&& t.year >= 1970
            &&& 1 <= t.month <= 12
            &&& 1 <= t.day <= month_days(t.year, t.month)
            &&& days_of_years(1970, t.year) + days_of_months(t.year, 1, t.month) + t.day - 1 == days
        }),
{
    lemma_year_at(1970, days);
    let (y, d) = year_at(1970, days);
    lemma_year_is_months(y);
    lemma_month_at(y, 1, d);
}

/// A time in seconds after the start of 1970, as a date and a time of day.
pub open spec fn timestamp_text(secs: nat) -> Seq<char> {
    let t = date_of(secs / 86400);
    let time = secs % 86400;
    decimal_padded(t.year, 4) + "-"@ + decimal_padded(t.month, 2) + "-"@ + decimal_padded(t.day, 2)
        + " "@ + decimal_padded(time / 3600, 2) + ":"@ + decimal_padded(time % 3600 / 60, 2) + ":"@
        + decimal_padded(time % 60, 2)
}

/// Formats a time in seconds after the start of 1970.
pub fn format_timestamp(ts: i64) -> (r: String)
    requires
        ts >= 0,
    ensures
        r@ == timestamp_text(ts as nat),
{
    let secs: u64 = ts as u64;
    let days: u64 = secs / 86400;
    let time: u64 = secs % 86400;
    let mut y: u64 = 1970;
    let mut rest: u64 = days;
    loop
        invariant
            year_at(1970, days as nat) == year_at(y as nat, rest as nat),
            y + rest <= 1970 + days,
            days <= 0x7fff_ffff_ffff_ffff,
        ensures
            year_at(1970, days as nat) == (y as nat, rest as nat),
            rest < 366,
        decreases rest,
    {
        let n: u64 = if is_leap(y) {
            366
        } else {
            365
        };
        if rest < n {
            break;
        }
        rest = rest - n;
        y = y + 1;
    }
    let ghost in_year = rest;
    let mut m: u64 = 1;
    loop
        invariant
            1 <= m <= 12,
            rest < 366,
            month_at(y as nat, 1, in_year as nat) == month_at(y as nat, m as nat, rest as nat),
        ensures
            month_at(y as nat, 1, in_year as nat) == (m as nat, rest as nat),
            rest < 366,
        decreases 12 - m,
    {
        let n: u64 = if m == 2 {
            if is_leap(y) {
                29
            } else {
                28
            }
        } else if m == 4 || m == 6 || m == 9 || m == 11 {
            30
        } else {
            31
        };
        if m == 12 || rest < n {
            break;
        }
        rest = rest - n;
        m = m + 1;
    }
    let mut r = decimal_padded_of(y, 4);
    r.append("-");
    r.append(decimal_padded_of(m, 2).as_str());
    r.append("-");
    r.append(decimal_padded_of(rest + 1, 2).as_str());
    r.append(" ");
    r.append(decimal_padded_of(time / 3600, 2).as_str());
    r.append(":");
    r.append(decimal_padded_of(time % 3600 / 60, 2).as_str());
    r.append(":");
    r.append(decimal_padded_of(time % 60, 2).as_str());
    r
}

pub open spec fn bool_text(b: bool) -> Seq<char> {
    if b {
        "true"@
    } else {
        "false"@
    }
}

/// The section on what the session was to do.
pub open spec fn objective_section(s: Session) -> Seq<char> {
    "## Objective\n\n"@ + if s.task@.len() == 0 {
        "_No task specified._\n\n"@
    } else {
        s.task@ + "\n\n"@
    }
}

/// A line on a field, or nothing where the field is empty.
pub open spec fn optional_line(before: Seq<char>, field: Seq<char>, after: Seq<char>) -> Seq<char> {
    if field.len() == 0 {
        Seq::empty()
    } else {
        before + field + after
    }
}

/// The section on how the session was set up.
pub open spec fn configuration_section(s: Session) -> Seq<char> {
    "## Configuration\n\n- **Project:** `"@ + s.project_dir@ + "`\n"@ + optional_line(
        "- **Agent:** "@,
        s.agent@,
        "\n"@,
    ) + optional_line("- **Model:** `"@, s.model@, "`\n"@) + "- **Auto mode:** "@ + bool_text(
        s.auto_mode,
    ) + "\n- **Context size:** "@ + decimal(s.ctx_size as nat) + "\n\n"@
}

/// The label of a status.
pub open spec fn status_label(s: SessionStatus) -> Seq<char> {
    match s {
        SessionStatus::Complete => "COMPLETE"@,
        SessionStatus::Stopped => "STOPPED (by user)"@,
        SessionStatus::Error => "ERROR"@,
        SessionStatus::Running => "INTERRUPTED (was running at disconnect)"@,
        SessionStatus::Pending => "PENDING (never started)"@,
        SessionStatus::Disconnected => "DISCONNECTED"@,
    }
}

/// The section on how the session ended.
pub open spec fn status_section(s: Session) -> Seq<char> {
    "## Status\n\n**"@ + status_label(s.status) + "**\n\n"@ + (match s.exit_code {
        Some(c) => "- Exit code: "@ + decimal_int(c as int) + "\n"@,
        None => Seq::empty(),
    }) + match opt_text(s.error_message) {
        Some(e) => "- Error: "@ + e + "\n"@,
        None => Seq::empty(),
    }
}

/// A line on a time, or nothing.
pub open spec fn time_line(label: Seq<char>, ts: Option<i64>) -> Seq<char> {
    match ts {
        Some(t) => label + timestamp_text(t as nat) + "\n"@,
        None => Seq::empty(),
    }
}

/// The section on when the session ran.
pub open spec fn timing_section(s: Session) -> Seq<char> {
    "\n## Timing\n\n"@ + time_line("- Started: "@, s.started_at) + time_line(
        "- Completed: "@,
        s.completed_at,
    ) + (match (s.started_at, s.completed_at) {
        (Some(a), Some(b)) => "- Duration: "@ + decimal_int(b - a) + "s\n"@,
        _ => Seq::empty(),
    }) + "\n"@
}

/// The event is a line that the session printed.
pub open spec fn is_output(e: SessionEvent) -> bool {
    e.stream@ == "stdout"@ && e.kind@ == "line"@
}

/// The lines that the session printed, among the first `n` events.
pub open spec fn output_upto(events: Seq<SessionEvent>, n: int) -> Seq<char>
    decreases n,
{
    if n <= 0 {
        Seq::empty()
    } else {
        let rest = output_upto(events, n - 1);
        if is_output(events[n - 1]) {
            rest + events[n - 1].text@ + "\n"@
        } else {
            rest
        }
    }
}

/// The session printed a line.
pub open spec fn printed(events: Seq<SessionEvent>) -> bool {
    exists|i: int| 0 <= i < events.len() && is_output(#[trigger] events[i])
}

/// The section on what the session printed.
pub open spec fn work_section(events: Seq<SessionEvent>) -> Seq<char> {
    if printed(events) {
        "## Work Performed\n\n```\n"@ + output_upto(events, events.len() as int) + "```\n\n"@
    } else {
        Seq::empty()
    }
}

/// The section on what may be wrong.
pub open spec fn concerns_section(s: SessionStatus) -> Seq<char> {
    match s {
        SessionStatus::Error =>
        "## Concerns\n\n- Session ended with an error and may need retry.\n\n"@,
        SessionStatus::Stopped =>
        "## Concerns\n\n- Session was stopped by the user — work may be incomplete.\n\n"@,
        _ => Seq::empty(),
    }
}

/// The section on what to do next.
pub open spec fn next_section(s: SessionStatus) -> Seq<char> {
    "## Recommended Next Action\n\n"@ + (match s {
        SessionStatus::Complete =>
        "Task completed. Review the output above for accuracy.\n"@,
        SessionStatus::Stopped =>
        "Session was interrupted. Consider re-running with the same prompt to continue.\n"@,
        SessionStatus::Error =>
        "Session failed. Check the error output and retry with adjusted parameters.\n"@,
        SessionStatus::Running | SessionStatus::Disconnected =>
        "Session may still be running or crashed. Check process status before re-running.\n"@,
        SessionStatus::Pending => "Review session state and decide next step.\n"@,
    }) + "\n"@
}

/// The part from which a session can be resumed.
pub open spec fn meta_section(s: Session) -> Seq<char> {
    "---\n\n<!-- cyberdeck-session-meta\nsession_id: "@ + s.id@ + "\nproject: "@ + s.project_dir@
        + "\nmodel: "@ + s.model@ + "\nstatus: "@ + status_text(s.status) + "\n-->\n"@
}

/// The document that hands a session over.
pub open spec fn handoff_text(s: Session, events: Seq<SessionEvent>) -> Seq<char> {
    objective_section(s) + configuration_section(s) + status_section(s) + timing_section(s)
        + work_section(events) + concerns_section(s.status) + next_section(s.status) + meta_section(
        s,
    )
}

fn write_objective(s: &Session) -> (r: String)
    ensures
        r@ == objective_section(*s),
{
    let mut r = owned("## Objective\n\n");
    let mut rest = owned(s.task.as_str());
    if s.task.as_str().is_empty() {
        rest = owned("_No task specified._\n\n");
    } else {
        rest.append("\n\n");
    }
    r.append(rest.as_str());
    r
}

fn write_optional(before: &str, field: &str, after: &str) -> (r: String)
    ensures
        r@ == optional_line(before@, field@, after@),
{
    if field.is_empty() {
        String::new()
    } else {
        let mut r = owned(before);
        r.append(field);
        r.append(after);
        r
    }
}

fn write_configuration(s: &Session) -> (r: String)
    ensures
        r@ == configuration_section(*s),
{
    let mut r = owned("## Configuration\n\n- **Project:** `");
    r.append(s.project_dir.as_str());
    r.append("`\n");
    r.append(write_optional("- **Agent:** ", s.agent.as_str(), "\n").as_str());
    r.append(write_optional("- **Model:** `", s.model.as_str(), "`\n").as_str());
    r.append("- **Auto mode:** ");
    r.append(
        if s.auto_mode {
            "true"
        } else {
            "false"
        },
    );
    r.append("\n- **Context size:** ");
    r.append(decimal_of(s.ctx_size as u64).as_str());
    r.append("\n\n");
    r
}

fn write_status(s: &Session) -> (r: String)
    ensures
        r@ == status_section(*s),
{
    let mut r = owned("## Status\n\n**");
    r.append(
        match s.status {
            SessionStatus::Complete => "COMPLETE",
            SessionStatus::Stopped => "STOPPED (by user)",
            SessionStatus::Error => "ERROR",
            SessionStatus::Running => "INTERRUPTED (was running at disconnect)",
            SessionStatus::Pending => "PENDING (never started)",
            SessionStatus::Disconnected => "DISCONNECTED",
        },
    );
    r.append("**\n\n");
    let code = match s.exit_code {
        Some(c) => {
            let mut l = owned("- Exit code: ");
            l.append(decimal_of_signed(c as i64).as_str());
            l.append("\n");
            l
        },
        None => String::new(),
    };
    r.append(code.as_str());
    let error = match &s.error_message {
        Some(e) => {
            let mut l = owned("- Error: ");
            l.append(e.as_str());
            l.append("\n");
            l
        },
        None => String::new(),
    };
    r.append(error.as_str());
    r
}

fn write_time(label: &str, ts: Option<i64>) -> (r: String)
    requires
        ts is Some ==> ts->0 >= 0,
    ensures
        r@ == time_line(label@, ts),
{
    match ts {
        Some(t) => {
            let mut r = owned(label);
            r.append(format_timestamp(t).as_str());
            r.append("\n");
            r
        },
        None => String::new(),
    }
}

/// The times of a session are not before 1970.
pub open spec fn times_valid(s: Session) -> bool {
    &&& s.started_at is Some ==> s.started_at->0 >= 0
    &&& s.completed_at is Some ==> s.completed_at->0 >= 0
}

fn write_timing(s: &Session) -> (r: String)
    requires
        times_valid(*s),
    ensures
        r@ == timing_section(*s),
{
    let mut r = owned("\n## Timing\n\n");
    r.append(write_time("- Started: ", s.started_at).as_str());
    r.append(write_time("- Completed: ", s.completed_at).as_str());
    let duration = match (s.started_at, s.completed_at) {
        (Some(a), Some(b)) => {
            let mut l = owned("- Duration: ");
            l.append(decimal_of_signed(b - a).as_str());
            l.append("s\n");
            l
        },
        _ => String::new(),
    };
    r.append(duration.as_str());
    r.append("\n");
    r
}

fn write_work(events: &Vec<SessionEvent>) -> (r: String)
    ensures
        r@ == work_section(events@),
{
    let mut out = String::new();
    let mut any = false;
    let mut i: usize = 0;
    while i < events.len()
        invariant
            i <= events@.len(),
            out@ == output_upto(events@, i as int),
            any == exists|j: int| 0 <= j < i && is_output(#[trigger] events@[j]),
        decreases events@.len() - i,
    {
        let e = &events[i];
        if same(e.stream.as_str(), "stdout") && same(e.kind.as_str(), "line") {
            out.append(e.text.as_str());
            out.append("\n");
            any = true;
            assert(is_output(events@[i as int]));
        }
        i = i + 1;
    }
    if any {
        let mut r = owned("## Work Performed\n\n```\n");
        r.append(out.as_str());
        r.append("```\n\n");
        r
    } else {
        String::new()
    }
}

fn write_concerns(s: SessionStatus) -> (r: String)
    ensures
        r@ == concerns_section(s),
{
    match s {
        SessionStatus::Error => owned(
            "## Concerns\n\n- Session ended with an error and may need retry.\n\n",
        ),
        SessionStatus::Stopped => owned(
            "## Concerns\n\n- Session was stopped by the user — work may be incomplete.\n\n",
        ),
        _ => String::new(),
    }
}

fn write_next(s: SessionStatus) -> (r: String)
    ensures
        r@ == next_section(s),
{
    let mut r = owned("## Recommended Next Action\n\n");
    r.append(
        match s {
            SessionStatus::Complete => "Task completed. Review the output above for accuracy.\n",
            SessionStatus::Stopped =>
            "Session was interrupted. Consider re-running with the same prompt to continue.\n",
            SessionStatus::Error =>
            "Session failed. Check the error output and retry with adjusted parameters.\n",
            SessionStatus::Running | SessionStatus::Disconnected =>
            "Session may still be running or crashed. Check process status before re-running.\n",
            SessionStatus::Pending => "Review session state and decide next step.\n",
        },
    );
    r.append("\n");
    r
}

fn write_meta(s: &Session) -> (r: String)
    ensures
        r@ == meta_section(*s),
{
    let mut r = owned("---\n\n<!-- cyberdeck-session-meta\nsession_id: ");
    r.append(s.id.as_str());
    r.append("\nproject: ");
    r.append(s.project_dir.as_str());
    r.append("\nmodel: ");
    r.append(s.model.as_str());
    r.append("\nstatus: ");
    r.append(s.status.word());
    r.append("\n-->\n");
    r
}

/// Writes the document that hands a session over, from the session and its
/// log.
pub fn generate_handoff(s: &Session, events: &Vec<SessionEvent>) -> (r: String)
    requires
        times_valid(*s),
    ensures
        r@ == handoff_text(*s, events@),
{
    let mut r = write_objective(s);
    r.append(write_configuration(s).as_str());
    r.append(write_status(s).as_str());
    r.append(write_timing(s).as_str());
    r.append(write_work(events).as_str());
    r.append(write_concerns(s.status).as_str());
    r.append(write_next(s.status).as_str());
    r.append(write_meta(s).as_str());
    r
}

} // verus!
