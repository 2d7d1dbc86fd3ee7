//! Transactional hot-swap of a runtime or configuration.
//!
//! The candidate is verified on its own test port while the live instance
//! keeps serving; a candidate that fails never touches the live service. If
//! the installed candidate fails its live health check, the previous profile
//! is reinstalled and restarted.
//!
//! The transaction is a machine: it says which action comes next, and the
//! outcome of the action moves it on.
use vstd::prelude::*;
use vstd::string::StringExecFns;

use crate::engines::health::BringupOutcome;
use crate::engines::swap_ops::{answered_by, SwapBackend, SwapCall, SwapOps, SwapRecord};
use crate::engines::unit::{unit_name_for, unit_of};
use crate::measure::Measure;
use crate::profile::{profile_runtime, same_but_ctx, Profile};
use crate::runtime::RuntimeManifest;
use crate::text::{decimal, decimal_of, owned, same};

verus! {

/// Outcome of a swap.
#[derive(Debug, Clone, PartialEq)]
pub struct SwapReport {
    pub from_runtime: String,
    pub to_runtime: String,
    pub from_unit: String,
    pub to_unit: String,
    /// The candidate passed verification, or verification was waived.
    pub verified: bool,
    pub swapped: bool,
    pub rolled_back: bool,
    pub ctx: u32,
    pub tps: Option<Measure>,
    pub summary: String,
}

/// Where a swap stands: the action that comes next, or how it ended.
#[derive(Debug, Clone, Copy, PartialEq, Eq, Structural)]
pub enum SwapPhase {
    /// Try the candidate on the test port.
    Verify,
    /// Install the candidate's unit.
    Install,
    /// Stop the old unit.
    StopOld,
    /// Start the candidate's unit.
    Start,
    /// Look whether the candidate serves.
    Check,
    /// Install the old profile again.
    ReinstallOld,
    /// Start the old unit again.
    RestartOld,
    /// Stop the candidate's unit.
    StopNew,
    /// The candidate failed on the test port.
    Rejected,
    /// The candidate serves.
    Swapped,
    /// The old profile was restored.
    RolledBack,
}

/// What an action led to.
#[derive(Debug)]
pub enum SwapEvent {
    /// The candidate was tried.
    Verified(BringupOutcome),
    /// A unit was installed, started or stopped.
    Done(Result<(), String>),
    /// The health check answered.
    Healthy(bool),
}

/// What an event says.
pub enum EventView {
    Verified { running: bool, ctx: u32, tps: Option<Measure>, verdict: Seq<char>, summary: Seq<char> },
    Done(Option<Seq<char>>),
    Healthy(bool),
}

impl View for SwapEvent {
    type V = EventView;

    open spec fn view(&self) -> EventView {
        match self {
            SwapEvent::Verified(o) => EventView::Verified {
                running: o.verdict@ == "RUNNING"@,
                ctx: o.ctx,
                tps: o.tok_per_sec,
                verdict: o.verdict@,
                summary: o.summary@,
            },
            SwapEvent::Done(r) => EventView::Done(
                match r {
                    Ok(_) => None,
                    Err(e) => Some(e@),
                },
            ),
            SwapEvent::Healthy(b) => EventView::Healthy(*b),
        }
    }
}

/// The state of a swap.
pub struct SwapView {
    pub phase: SwapPhase,
    pub verified: bool,
    pub ctx: u32,
    pub tps: Option<Measure>,
    /// Why the candidate was refused.
    pub reason: Seq<char>,
}

/// A swap at its start. Waived verification counts as passed.
pub open spec fn swap_start(ctx: u32, verify: bool) -> SwapView {
    SwapView {
        phase: if verify {
            SwapPhase::Verify
        } else {
            SwapPhase::Install
        },
        verified: !verify,
        ctx,
        tps: None,
        reason: Seq::empty(),
    }
}

/// The phase is an end.
pub open spec fn is_end(p: SwapPhase) -> bool {
    p == SwapPhase::Rejected || p == SwapPhase::Swapped || p == SwapPhase::RolledBack
}

/// The swap goes back to the old profile.
pub open spec fn fall_back(s: SwapView, why: Seq<char>) -> SwapView {
    SwapView { phase: SwapPhase::ReinstallOld, reason: why, ..s }
}

/// The swap after an event. An event that does not answer the action that was
/// due counts as its failure.
pub open spec fn swap_step(s: SwapView, ev: EventView, same_unit: bool) -> SwapView {
    let failure = match ev {
        EventView::Done(Some(e)) => e,
        _ => "unexpected answer"@,
    };
    let done = ev is Done && ev->Done_0 is None;
    match s.phase {
        SwapPhase::Verify => match ev {
            EventView::Verified { running, ctx, tps, verdict, summary } => if running {
                SwapView { phase: SwapPhase::Install, verified: true, ctx, tps, ..s }
            } else {
                SwapView {
                    phase: SwapPhase::Rejected,
                    tps,
                    reason: summary + " ("@ + verdict + ")"@,
                    ..s
                }
            },
            _ => SwapView { phase: SwapPhase::Rejected, reason: failure, ..s },
        },
        SwapPhase::Install => if done {
            SwapView {
                phase: if same_unit {
                    SwapPhase::Start
                } else {
                    SwapPhase::StopOld
                },
                ..s
            }
        } else {
            fall_back(s, failure)
        },
        SwapPhase::StopOld => if done {
            SwapView { phase: SwapPhase::Start, ..s }
        } else {
            fall_back(s, failure)
        },
        SwapPhase::Start => if done {
            SwapView { phase: SwapPhase::Check, ..s }
        } else {
            fall_back(s, failure)
        },
        SwapPhase::Check => match ev {
            EventView::Healthy(true) => SwapView { phase: SwapPhase::Swapped, ..s },
            _ => fall_back(s, "live health check timed out"@),
        },
        SwapPhase::ReinstallOld => SwapView { phase: SwapPhase::RestartOld, ..s },
        SwapPhase::RestartOld => SwapView {
            phase: if same_unit {
                SwapPhase::RolledBack
            } else {
                SwapPhase::StopNew
            },
            ..s
        },
        SwapPhase::StopNew => SwapView { phase: SwapPhase::RolledBack, ..s },
        SwapPhase::Rejected | SwapPhase::Swapped | SwapPhase::RolledBack => s,
    }
}

/// The swap after a list of events.
pub open spec fn swap_after(start: SwapView, evs: Seq<EventView>, same_unit: bool) -> SwapView
    decreases evs.len(),
{
    if evs.len() == 0 {
        start
    } else {
        swap_step(swap_after(start, evs.drop_last(), same_unit), evs.last(), same_unit)
    }
}

/// A swap: what it is between, and where it stands.
#[derive(Debug, Clone)]
pub struct Swap {
    pub from_runtime: String,
    pub to_runtime: String,
    pub from_unit: String,
    pub to_unit: String,
    pub phase: SwapPhase,
    pub verified: bool,
    pub ctx: u32,
    pub tps: Option<Measure>,
    pub reason: String,
}

impl View for Swap {
    type V = SwapView;

    open spec fn view(&self) -> SwapView {
        SwapView {
            phase: self.phase,
            verified: self.verified,
            ctx: self.ctx,
            tps: self.tps,
            reason: self.reason@,
        }
    }
}

/// The text that sums a swap up.
pub open spec fn swap_summary(from: Seq<char>, to: Seq<char>, s: SwapView) -> Seq<char> {
    match s.phase {
        SwapPhase::Rejected => "candidate rejected on the test port: "@ + s.reason
            + " — live instance untouched"@,
        SwapPhase::Swapped => "swapped "@ + from + " → "@ + to + " at ctx "@ + decimal(
            s.ctx as nat,
        ),
        SwapPhase::RolledBack => "candidate "@ + to + " failed live health ("@ + s.reason
            + "); restored "@ + from,
        _ => Seq::empty(),
    }
}

/// The report is that of a swap.
pub open spec fn is_report(
    r: SwapReport,
    from_runtime: Seq<char>,
    to_runtime: Seq<char>,
    from_unit: Seq<char>,
    to_unit: Seq<char>,
    s: SwapView,
) -> bool {
    &&& r.from_runtime@ == from_runtime
    &&& r.to_runtime@ == to_runtime
    &&& r.from_unit@ == from_unit
    &&& r.to_unit@ == to_unit
    &&& r.verified == s.verified
    &&& r.swapped == (s.phase == SwapPhase::Swapped)
    &&& r.rolled_back == (s.phase == SwapPhase::RolledBack)
    &&& r.ctx == s.ctx
    &&& r.tps == s.tps
    &&& r.summary@ == swap_summary(from_runtime, to_runtime, s)
}

impl Swap {
    /// Whether the two profiles share a unit.
    pub open spec fn same_unit(self) -> bool {
        self.from_unit@ == self.to_unit@
    }

    /// What does not change while the swap runs.
    pub open spec fn same_ends(self, other: Swap) -> bool {
        &&& self.from_runtime == other.from_runtime
        &&& self.to_runtime == other.to_runtime
        &&& self.from_unit == other.from_unit
        &&& self.to_unit == other.to_unit
    }

    /// Begins a swap of `old` for `new`.
    pub fn begin(old: &Profile, new: &Profile, verify: bool, manifests: &Vec<RuntimeManifest>) -> (r:
        Swap)
        ensures
            r@ == swap_start(new.ctx_size, verify),
            r.from_runtime@ == profile_runtime(*old),
            r.to_runtime@ == profile_runtime(*new),
            r.from_unit@ == unit_of(*old, manifests@),
            r.to_unit@ == unit_of(*new, manifests@),
    {
        Swap {
            from_runtime: old.runtime_key(),
            to_runtime: new.runtime_key(),
            from_unit: unit_name_for(old, manifests),
            to_unit: unit_name_for(new, manifests),
            phase: if verify {
                SwapPhase::Verify
            } else {
                SwapPhase::Install
            },
            verified: !verify,
            ctx: new.ctx_size,
            tps: None,
            reason: String::new(),
        }
    }

    fn fall_back(&mut self, why: String)
        ensures
            final(self)@ == fall_back(old(self)@, why@),
            final(self).same_ends(*old(self)),
    {
        self.phase = SwapPhase::ReinstallOld;
        self.reason = why;
    }

    /// Moves the swap on by what its action led to.
    pub fn step(&mut self, ev: SwapEvent)
        ensures
            final(self)@ == swap_step(old(self)@, ev@, old(self).same_unit()),
            final(self).same_ends(*old(self)),
    {
        let same_unit = same(self.from_unit.as_str(), self.to_unit.as_str());
        match self.phase {
            SwapPhase::Verify => match ev {
                SwapEvent::Verified(o) => {
                    self.tps = o.tok_per_sec;
                    if same(o.verdict.as_str(), "RUNNING") {
                        self.phase = SwapPhase::Install;
                        self.verified = true;
                        self.ctx = o.ctx;
                    } else {
                        self.phase = SwapPhase::Rejected;
                        let mut why = owned(o.summary.as_str());
                        why.append(" (");
                        why.append(o.verdict.as_str());
                        why.append(")");
                        self.reason = why;
                    }
                },
                SwapEvent::Done(Err(e)) => {
                    self.phase = SwapPhase::Rejected;
                    self.reason = e;
                },
                _ => {
                    self.phase = SwapPhase::Rejected;
                    self.reason = owned("unexpected answer");
                },
            },
            SwapPhase::Install => match ev {
                SwapEvent::Done(Ok(_)) => {
                    self.phase = if same_unit {
                        SwapPhase::Start
                    } else {
                        SwapPhase::StopOld
                    };
                },
                SwapEvent::Done(Err(e)) => {
                    self.fall_back(e);
                },
                _ => {
                    self.fall_back(owned("unexpected answer"));
                },
            },
            SwapPhase::StopOld => match ev {
                SwapEvent::Done(Ok(_)) => {
                    self.phase = SwapPhase::Start;
                },
                SwapEvent::Done(Err(e)) => {
                    self.fall_back(e);
                },
                _ => {
                    self.fall_back(owned("unexpected answer"));
                },
            },
            SwapPhase::Start => match ev {
                SwapEvent::Done(Ok(_)) => {
                    self.phase = SwapPhase::Check;
                },
                SwapEvent::Done(Err(e)) => {
                    self.fall_back(e);
                },
                _ => {
                    self.fall_back(owned("unexpected answer"));
                },
            },
            SwapPhase::Check => match ev {
                SwapEvent::Healthy(true) => {
                    self.phase = SwapPhase::Swapped;
                },
                _ => {
                    self.fall_back(owned("live health check timed out"));
                },
            },
            SwapPhase::ReinstallOld => {
                self.phase = SwapPhase::RestartOld;
            },
            SwapPhase::RestartOld => {
                self.phase = if same_unit {
                    SwapPhase::RolledBack
                } else {
                    SwapPhase::StopNew
                };
            },
            SwapPhase::StopNew => {
                self.phase = SwapPhase::RolledBack;
            },
            SwapPhase::Rejected | SwapPhase::Swapped | SwapPhase::RolledBack => {},
        }
    }

    fn summary(&self) -> (r: String)
        ensures
            r@ == swap_summary(self.from_runtime@, self.to_runtime@, self@),
    {
        match self.phase {
            SwapPhase::Rejected => {
                let mut r = owned("candidate rejected on the test port: ");
                r.append(self.reason.as_str());
                r.append(" — live instance untouched");
                r
            },
            SwapPhase::Swapped => {
                let mut r = owned("swapped ");
                r.append(self.from_runtime.as_str());
                r.append(" → ");
                r.append(self.to_runtime.as_str());
                r.append(" at ctx ");
                r.append(decimal_of(self.ctx as u64).as_str());
                r
            },
            SwapPhase::RolledBack => {
                let mut r = owned("candidate ");
                r.append(self.to_runtime.as_str());
                r.append(" failed live health (");
                r.append(self.reason.as_str());
                r.append("); restored ");
                r.append(self.from_runtime.as_str());
                r
            },
            _ => String::new(),
        }
    }

    /// The report of the swap.
    pub fn report(&self) -> (r: SwapReport)
        ensures
            is_report(
                r,
                self.from_runtime@,
                self.to_runtime@,
                self.from_unit@,
                self.to_unit@,
                self@,
            ),
    {
        SwapReport {
            from_runtime: owned(self.from_runtime.as_str()),
            to_runtime: owned(self.to_runtime.as_str()),
            from_unit: owned(self.from_unit.as_str()),
            to_unit: owned(self.to_unit.as_str()),
            verified: self.verified,
            swapped: self.phase == SwapPhase::Swapped,
            rolled_back: self.phase == SwapPhase::RolledBack,
            ctx: self.ctx,
            tps: self.tps,
            summary: self.summary(),
        }
    }
}

/// How long the candidate may take on the test port.
pub const VERIFY_TIMEOUT_S: u64 = 180;

/// How long the candidate may take to serve.
pub const LIVE_TIMEOUT_S: u64 = 60;

/// How many actions a swap takes at most from a phase on.
spec fn actions_left(p: SwapPhase) -> nat {
    match p {
        SwapPhase::Verify => 9,
        SwapPhase::Install => 8,
        SwapPhase::StopOld => 7,
        SwapPhase::Start => 6,
        SwapPhase::Check => 5,
        SwapPhase::ReinstallOld => 4,
        SwapPhase::RestartOld => 3,
        SwapPhase::StopNew => 2,
        _ => 0,
    }
}

/// What a call was answered.
pub open spec fn answer_of(c: SwapCall) -> EventView {
    match c {
        SwapCall::Verify { outcome, .. } => SwapEvent::Verified(outcome)@,
        SwapCall::Install { result, .. } => SwapEvent::Done(result)@,
        SwapCall::Start { result, .. } => SwapEvent::Done(result)@,
        SwapCall::Stop { result, .. } => SwapEvent::Done(result)@,
        SwapCall::Health { up, .. } => EventView::Healthy(up),
    }
}

/// What the first `n` calls were answered.
pub open spec fn answers(calls: Seq<SwapCall>, n: int) -> Seq<EventView> {
    Seq::new(n as nat, |k: int| answer_of(calls[k]))
}

/// What a swap is about: the two profiles, their names and units, and the test
/// port.
pub struct SwapPair {
    pub old: Profile,
    pub new: Profile,
    pub from_runtime: Seq<char>,
    pub to_runtime: Seq<char>,
    pub from_unit: Seq<char>,
    pub to_unit: Seq<char>,
    pub test_port: u16,
}

/// What a swap of two profiles is about.
pub open spec fn pair_of(
    old: Profile,
    new: Profile,
    test_port: u16,
    ms: Seq<RuntimeManifest>,
) -> SwapPair {
    SwapPair {
        old,
        new,
        from_runtime: profile_runtime(old),
        to_runtime: profile_runtime(new),
        from_unit: unit_of(old, ms),
        to_unit: unit_of(new, ms),
        test_port,
    }
}

impl SwapPair {
    /// Whether the two profiles share a unit.
    pub open spec fn same_unit(self) -> bool {
        self.from_unit == self.to_unit
    }

    /// The swap after the first `n` calls.
    pub open spec fn state(self, verify: bool, calls: Seq<SwapCall>, n: int) -> SwapView {
        swap_after(swap_start(self.new.ctx_size, verify), answers(calls, n), self.same_unit())
    }

    /// The call is the action that is due in a state.
    pub open spec fn is_action(self, s: SwapView, c: SwapCall) -> bool {
        match (s.phase, c) {
            (
                SwapPhase::Verify,
                SwapCall::Verify { candidate, test_port, timeout_s, .. },
            ) => candidate == self.new && test_port == self.test_port && timeout_s
                == VERIFY_TIMEOUT_S,
            (SwapPhase::Install, SwapCall::Install { profile, .. }) => same_but_ctx(
                profile,
                self.new,
            ) && profile.ctx_size == s.ctx,
            (SwapPhase::StopOld, SwapCall::Stop { unit, .. }) => unit == self.from_unit,
            (SwapPhase::Start, SwapCall::Start { unit, .. }) => unit == self.to_unit,
            (SwapPhase::Check, SwapCall::Health { host, port, timeout_s, .. }) => host
                == self.new.host@ && port == self.new.port && timeout_s == LIVE_TIMEOUT_S,
            (SwapPhase::ReinstallOld, SwapCall::Install { profile, .. }) => profile == self.old,
            (SwapPhase::RestartOld, SwapCall::Start { unit, .. }) => unit == self.from_unit,
            (SwapPhase::StopNew, SwapCall::Stop { unit, .. }) => unit == self.to_unit,
            _ => false,
        }
    }

    /// Call `k` is the action that was due.
    pub open spec fn due(self, verify: bool, calls: Seq<SwapCall>, k: int) -> bool {
        self.is_action(self.state(verify, calls, k), calls[k])
    }

    /// What is told before the action of a state.
    pub open spec fn told_before(self, s: SwapView) -> Seq<Seq<char>> {
        match s.phase {
            SwapPhase::Verify => seq![
                "verifying "@ + self.to_runtime + " on :"@ + decimal(self.test_port as nat)
                    + " (live :"@ + decimal(self.old.port as nat) + " untouched)"@,
            ],
            SwapPhase::ReinstallOld => seq![
                "candidate failed ("@ + s.reason + "); rolling back to "@ + self.from_runtime,
            ],
            _ => Seq::empty(),
        }
    }

    /// What is told up to the call at `n`.
    pub open spec fn told(self, verify: bool, calls: Seq<SwapCall>, n: int) -> Seq<Seq<char>>
        decreases n,
    {
        if n <= 0 {
            Seq::empty()
        } else {
            self.told(verify, calls, n - 1) + self.told_before(self.state(verify, calls, n - 1))
        }
    }

    /// The calls are those of a swap that came to its end, each the action that
    /// was due, and the report says how it ended.
    pub open spec fn swapped_by(self, verify: bool, calls: Seq<SwapCall>, r: SwapReport) -> bool {
        let s = self.state(verify, calls, calls.len() as int);
        &&& forall|k: int| 0 <= k < calls.len() ==> #[trigger] self.due(verify, calls, k)
        &&& is_end(s.phase)
        &&& is_report(r, self.from_runtime, self.to_runtime, self.from_unit, self.to_unit, s)
    }
}

/// The swap knows its pair.
spec fn holds_pair(swap: Swap, pair: SwapPair) -> bool {
    &&& swap.from_runtime@ == pair.from_runtime
    &&& swap.to_runtime@ == pair.to_runtime
    &&& swap.from_unit@ == pair.from_unit
    &&& swap.to_unit@ == pair.to_unit
}

fn announce_verify<B: SwapBackend>(
    ops: &mut SwapOps<B>,
    swap: &Swap,
    test_port: u16,
    live_port: u16,
)
    ensures
        final(ops)@ == (SwapRecord {
            told: old(ops)@.told.push(
                "verifying "@ + swap.to_runtime@ + " on :"@ + decimal(test_port as nat)
                    + " (live :"@ + decimal(live_port as nat) + " untouched)"@,
            ),
            ..old(ops)@
        }),
        final(ops).backend() == old(ops).backend(),
{
    let mut m = owned("verifying ");
    m.append(swap.to_runtime.as_str());
    m.append(" on :");
    m.append(decimal_of(test_port as u64).as_str());
    m.append(" (live :");
    m.append(decimal_of(live_port as u64).as_str());
    m.append(" untouched)");
    ops.progress(m.as_str());
}

fn announce_rollback<B: SwapBackend>(ops: &mut SwapOps<B>, swap: &Swap)
    ensures
        final(ops)@ == (SwapRecord {
            told: old(ops)@.told.push(
                "candidate failed ("@ + swap.reason@ + "); rolling back to "@
                    + swap.from_runtime@,
            ),
            ..old(ops)@
        }),
        final(ops).backend() == old(ops).backend(),
{
    let mut m = owned("candidate failed (");
    m.append(swap.reason.as_str());
    m.append("); rolling back to ");
    m.append(swap.from_runtime.as_str());
    ops.progress(m.as_str());
}

/// One call was made: the action due in a state, with its announcement; its
/// answer is the event.
spec fn acted<B: SwapBackend>(
    before: SwapOps<B>,
    after: SwapOps<B>,
    pair: SwapPair,
    s: SwapView,
    ev: EventView,
) -> bool {
    &&& after.backend() == before.backend()
    &&& after@.calls.len() == before@.calls.len() + 1
    &&& after@.calls.drop_last() == before@.calls
    &&& pair.is_action(s, after@.calls.last())
    &&& answered_by(before.backend(), after@.calls.last())
    &&& answer_of(after@.calls.last()) == ev
    &&& after@.told == before@.told + pair.told_before(s)
}

/// Performs the action that is due.
fn perform<B: SwapBackend>(
    ops: &mut SwapOps<B>,
    swap: &Swap,
    prev: &Profile,
    new: &Profile,
    test_port: u16,
    Ghost(pair): Ghost<SwapPair>,
) -> (ev: SwapEvent)
    requires
        !is_end(swap.phase),
        holds_pair(*swap, pair),
        pair.old == *prev,
        pair.new == *new,
        pair.test_port == test_port,
    ensures
        acted(*old(ops), *final(ops), pair, swap@, ev@),
{
    let ghost before = ops@;
    let ev = match swap.phase {
        SwapPhase::Verify => {
            announce_verify(ops, swap, test_port, prev.port);
            SwapEvent::Verified(ops.verify(new, test_port, VERIFY_TIMEOUT_S))
        },
        SwapPhase::Install => {
            let candidate = new.at_ctx(swap.ctx);
            SwapEvent::Done(ops.install(&candidate))
        },
        SwapPhase::StopOld => SwapEvent::Done(ops.stop(swap.from_unit.as_str())),
        SwapPhase::Start => SwapEvent::Done(ops.start(swap.to_unit.as_str())),
        SwapPhase::Check => SwapEvent::Healthy(
            ops.health(new.host.as_str(), new.port, LIVE_TIMEOUT_S),
        ),
        SwapPhase::ReinstallOld => {
            announce_rollback(ops, swap);
            SwapEvent::Done(ops.install(prev))
        },
        SwapPhase::RestartOld => SwapEvent::Done(ops.start(swap.from_unit.as_str())),
        _ => SwapEvent::Done(ops.stop(swap.to_unit.as_str())),
    };
    assert(ops@.calls.drop_last() =~= before.calls);
    assert(ops@.told =~= before.told + pair.told_before(swap@));
    ev
}

proof fn lemma_answers(calls: Seq<SwapCall>, more: Seq<SwapCall>, n: int)
    requires
        0 <= n <= calls.len() <= more.len(),
        forall|k: int| 0 <= k < n ==> calls[k] == more[k],
    ensures
        answers(calls, n) == answers(more, n),
{
    assert(answers(calls, n) =~= answers(more, n));
}

proof fn lemma_told(pair: SwapPair, verify: bool, calls: Seq<SwapCall>, more: Seq<SwapCall>, n: int)
    requires
        0 <= n <= calls.len() <= more.len(),
        forall|k: int| 0 <= k < n ==> calls[k] == more[k],
    ensures
        pair.told(verify, calls, n) == pair.told(verify, more, n),
    decreases n,
{
    if n > 0 {
        lemma_told(pair, verify, calls, more, n - 1);
        lemma_answers(calls, more, n - 1);
    }
}

proof fn lemma_one_more(pair: SwapPair, verify: bool, calls: Seq<SwapCall>, c: SwapCall)
    requires
        forall|k: int| 0 <= k < calls.len() ==> #[trigger] pair.due(verify, calls, k),
        pair.is_action(pair.state(verify, calls, calls.len() as int), c),
    ensures
        forall|k: int|
            0 <= k < calls.push(c).len() ==> #[trigger] pair.due(verify, calls.push(c), k),
        pair.state(verify, calls.push(c), calls.push(c).len() as int) == swap_step(
            pair.state(verify, calls, calls.len() as int),
            answer_of(c),
            pair.same_unit(),
        ),
        pair.told(verify, calls.push(c), calls.push(c).len() as int) == pair.told(
            verify,
            calls,
            calls.len() as int,
        ) + pair.told_before(pair.state(verify, calls, calls.len() as int)),
{
    let more = calls.push(c);
    let n = calls.len() as int;
    lemma_answers(calls, more, n);
    lemma_told(pair, verify, calls, more, n);
    assert(answers(more, n + 1).drop_last() =~= answers(more, n));
    assert(answers(more, n + 1).last() == answer_of(c));
    assert forall|k: int| 0 <= k < more.len() implies #[trigger] pair.due(verify, more, k) by {
        lemma_answers(calls, more, k);
        if k < n {
            assert(pair.due(verify, calls, k));
        }
    }
}

/// Swaps `prev` for `new`. The calls that are made are those of the machine, in
/// order, and no others.
pub fn swap_with<B: SwapBackend>(
    ops: &mut SwapOps<B>,
    prev: &Profile,
    new: &Profile,
    new_test_port: u16,
    verify: bool,
    manifests: &Vec<RuntimeManifest>,
) -> (r: SwapReport)
    ensures
        final(ops).backend() == old(ops).backend(),
        ({
            let pair = pair_of(*prev, *new, new_test_port, manifests@);
            let n = old(ops)@.calls.len();
            let calls = final(ops)@.calls.skip(n as int);
            &&& n <= final(ops)@.calls.len()
            &&& final(ops)@.calls.take(n as int) == old(ops)@.calls
            &&& pair.swapped_by(verify, calls, r)
            &&& forall|k: int|
                0 <= k < calls.len() ==> answered_by(old(ops).backend(), #[trigger] calls[k])
            &&& final(ops)@.told == old(ops)@.told + pair.told(verify, calls, calls.len() as int)
        }),
{
    let ghost pair = pair_of(*prev, *new, new_test_port, manifests@);
    let ghost before = ops@.calls;
    let ghost told = ops@.told;
    let ghost n = before.len() as int;
    let ghost backend = ops.backend();
    let mut swap = Swap::begin(prev, new, verify, manifests);
    assert(answers(ops@.calls.skip(n), 0) =~= Seq::<EventView>::empty());
    assert(ops@.told =~= told + pair.told(verify, ops@.calls.skip(n), 0));
    while swap.phase != SwapPhase::Rejected && swap.phase != SwapPhase::Swapped && swap.phase
        != SwapPhase::RolledBack
        invariant
            pair == pair_of(*prev, *new, new_test_port, manifests@),
            holds_pair(swap, pair),
            n == before.len(),
            n <= ops@.calls.len(),
            ops@.calls.take(n) == before,
            ops.backend() == backend,
            swap@ == pair.state(verify, ops@.calls.skip(n), ops@.calls.len() - n),
            forall|k: int|
                0 <= k < ops@.calls.len() - n ==> #[trigger] pair.due(
                    verify,
                    ops@.calls.skip(n),
                    k,
                ),
            forall|k: int|
                0 <= k < ops@.calls.len() - n ==> answered_by(
                    backend,
                    #[trigger] ops@.calls.skip(n)[k],
                ),
            ops@.told == told + pair.told(verify, ops@.calls.skip(n), ops@.calls.len() - n),
        decreases actions_left(swap.phase),
    {
        let ghost made = ops@.calls.skip(n);
        let ghost said = ops@.told;
        let ghost was = swap@;
        let ev = perform(ops, &swap, prev, new, new_test_port, Ghost(pair));
        proof {
            let c = ops@.calls.last();
            assert(ops@.calls.skip(n) =~= made.push(c));
            assert(ops@.calls.take(n) =~= before);
            lemma_one_more(pair, verify, made, c);
            assert(ops@.told =~= told + (pair.told(verify, made, made.len() as int)
                + pair.told_before(was)));
        }
        swap.step(ev);
    }
    swap.report()
}

proof fn lemma_next(pair: SwapPair, verify: bool, calls: Seq<SwapCall>, k: int)
    requires
        0 <= k < calls.len(),
    ensures
        pair.state(verify, calls, k + 1) == swap_step(
            pair.state(verify, calls, k),
            answer_of(calls[k]),
            pair.same_unit(),
        ),
{
    assert(answers(calls, k + 1).drop_last() =~= answers(calls, k));
}

proof fn lemma_first(pair: SwapPair, verify: bool, calls: Seq<SwapCall>)
    ensures
        pair.state(verify, calls, 0) == swap_start(pair.new.ctx_size, verify),
{
    assert(answers(calls, 0) =~= Seq::<EventView>::empty());
}

/// The candidate was tried, and serves at a context.
pub open spec fn found_running(c: SwapCall) -> bool {
    c is Verify && c->outcome.verdict@ == "RUNNING"@
}

/// The call was answered well.
pub open spec fn went_well(c: SwapCall) -> bool {
    match c {
        SwapCall::Verify { .. } => found_running(c),
        SwapCall::Install { result, .. } => result is Ok,
        SwapCall::Start { result, .. } => result is Ok,
        SwapCall::Stop { result, .. } => result is Ok,
        SwapCall::Health { up, .. } => up,
    }
}

/// The first call of a swap tries the candidate, unless that is waived; no
/// other follows unless it was found running. So a candidate that fails on the
/// test port touches nothing that is live.
pub proof fn law_verify_before_touch(
    pair: SwapPair,
    verify: bool,
    calls: Seq<SwapCall>,
    r: SwapReport,
)
    requires
        pair.swapped_by(verify, calls, r),
    ensures
        calls.len() > 0,
        verify <==> calls[0] is Verify,
        forall|k: int| 0 < k < calls.len() ==> !(#[trigger] calls[k] is Verify),
        verify ==> calls[0]->candidate == pair.new && calls[0]->test_port == pair.test_port,
        r.verified <==> !verify || found_running(calls[0]),
        r.ctx == if verify && r.verified {
            calls[0]->outcome.ctx
        } else {
            pair.new.ctx_size
        },
        r.tps == if verify {
            calls[0]->outcome.tok_per_sec
        } else {
            None
        },
        !r.verified ==> calls.len() == 1 && calls[0] is Verify,
        !r.verified ==> !r.swapped && !r.rolled_back,
{
    lemma_first(pair, verify, calls);
    assert(calls.len() > 0);
    assert(pair.due(verify, calls, 0));
    lemma_next(pair, verify, calls, 0);
    if pair.state(verify, calls, 1).phase == SwapPhase::Rejected {
        if calls.len() > 1 {
            assert(pair.due(verify, calls, 1));
        }
    } else {
        lemma_stays_verified(pair, verify, calls, calls.len() as int);
        assert forall|k: int| 0 < k < calls.len() implies !(#[trigger] calls[k] is Verify) by {
            lemma_stays_verified(pair, verify, calls, k);
            assert(pair.due(verify, calls, k));
        }
    }
}

proof fn lemma_stays_verified(pair: SwapPair, verify: bool, calls: Seq<SwapCall>, n: int)
    requires
        0 < n <= calls.len(),
        pair.state(verify, calls, 1).verified,
        pair.state(verify, calls, 1).phase != SwapPhase::Verify,
        pair.state(verify, calls, 1).phase != SwapPhase::Rejected,
    ensures
        pair.state(verify, calls, n).verified,
        pair.state(verify, calls, n).phase != SwapPhase::Verify,
        pair.state(verify, calls, n).phase != SwapPhase::Rejected,
        pair.state(verify, calls, n).ctx == pair.state(verify, calls, 1).ctx,
        pair.state(verify, calls, n).tps == pair.state(verify, calls, 1).tps,
    decreases n,
{
    if n > 1 {
        lemma_stays_verified(pair, verify, calls, n - 1);
        lemma_next(pair, verify, calls, n - 1);
    }
}

/// The call starts a unit.
pub open spec fn starts(c: SwapCall, unit: Seq<char>) -> bool {
    match c {
        SwapCall::Start { unit: u, .. } => u == unit,
        _ => false,
    }
}

/// The call stops a unit.
pub open spec fn stops(c: SwapCall, unit: Seq<char>) -> bool {
    match c {
        SwapCall::Stop { unit: u, .. } => u == unit,
        _ => false,
    }
}

/// The call installs the candidate at a context.
pub open spec fn installs_new(pair: SwapPair, c: SwapCall, ctx: u32) -> bool {
    match c {
        SwapCall::Install { profile, .. } => same_but_ctx(profile, pair.new) && profile.ctx_size
            == ctx,
        _ => false,
    }
}

/// The call installs the old profile.
pub open spec fn installs_old(pair: SwapPair, c: SwapCall) -> bool {
    match c {
        SwapCall::Install { profile, .. } => profile == pair.old,
        _ => false,
    }
}

/// The call looks whether the candidate serves.
pub open spec fn looks(pair: SwapPair, c: SwapCall) -> bool {
    match c {
        SwapCall::Health { host, port, timeout_s, .. } => host == pair.new.host@ && port
            == pair.new.port && timeout_s == LIVE_TIMEOUT_S,
        _ => false,
    }
}

/// The `i`-th of the actions that bring the candidate in: its unit is
/// installed, the old one stopped where it is another, the candidate's started,
/// and its health looked at.
pub open spec fn brings_in(pair: SwapPair, c: SwapCall, i: int, ctx: u32) -> bool {
    if pair.same_unit() {
        if i == 0 {
            installs_new(pair, c, ctx)
        } else if i == 1 {
            starts(c, pair.to_unit)
        } else {
            looks(pair, c)
        }
    } else {
        if i == 0 {
            installs_new(pair, c, ctx)
        } else if i == 1 {
            stops(c, pair.from_unit)
        } else if i == 2 {
            starts(c, pair.to_unit)
        } else {
            looks(pair, c)
        }
    }
}

/// How many actions bring the candidate in.
pub open spec fn commit_len(pair: SwapPair) -> int {
    if pair.same_unit() {
        3
    } else {
        4
    }
}

/// The calls from `at` on bring the old profile back: its unit is installed and
/// started again, and the candidate's stopped where it is another. Nothing
/// follows.
pub open spec fn brings_back(pair: SwapPair, calls: Seq<SwapCall>, at: int) -> bool {
    &&& calls.len() == at + commit_len(pair) - 1
    &&& installs_old(pair, calls[at])
    &&& starts(calls[at + 1], pair.from_unit)
    &&& !pair.same_unit() ==> stops(calls[at + 2], pair.to_unit)
}

/// The first `done` of the actions from `at` on bring the candidate in, and
/// all but the last of them went well.
pub open spec fn commits(
    pair: SwapPair,
    calls: Seq<SwapCall>,
    at: int,
    done: int,
    ctx: u32,
) -> bool {
    &&& 0 < done <= commit_len(pair)
    &&& at + done <= calls.len()
    &&& forall|i: int| 0 <= i < done ==> brings_in(pair, #[trigger] calls[at + i], i, ctx)
    &&& forall|i: int| 0 <= i < done - 1 ==> went_well(#[trigger] calls[at + i])
}

/// What a verified candidate meets: its actions follow in order until one goes
/// wrong. Where none does, it is swapped in and nothing follows; else the old
/// profile is brought back, and that is the end.
pub proof fn law_swapped_or_rolled_back(
    pair: SwapPair,
    verify: bool,
    calls: Seq<SwapCall>,
    r: SwapReport,
) -> (done: int)
    requires
        pair.swapped_by(verify, calls, r),
        r.verified,
    ensures
        ({
            let at: int = if verify {
                1
            } else {
                0
            };
            &&& commits(pair, calls, at, done, r.ctx)
            &&& r.swapped <==> went_well(calls[at + done - 1])
            &&& r.swapped ==> done == commit_len(pair) && calls.len() == at + done
            &&& r.rolled_back <==> !r.swapped
            &&& r.rolled_back ==> brings_back(pair, calls, at + done)
        }),
{
    let at: int = if verify {
        1
    } else {
        0
    };
    let n = calls.len() as int;
    lemma_first(pair, verify, calls);
    assert(n > 0);
    assert(pair.due(verify, calls, 0));
    if verify {
        law_verify_before_touch(pair, verify, calls, r);
        lemma_next(pair, verify, calls, 0);
    }
    let s = pair.state(verify, calls, at);
    assert(s.phase == SwapPhase::Install);
    assert(s.verified);
    lemma_step_due(pair, verify, calls, at);
    if !went_well(calls[at]) {
        lemma_rollback(pair, verify, calls, at + 1);
        assert(brings_in(pair, calls[at + 0], 0, s.ctx));
        1
    } else if pair.same_unit() {
        lemma_step_due(pair, verify, calls, at + 1);
        if !went_well(calls[at + 1]) {
            lemma_rollback(pair, verify, calls, at + 2);
            2
        } else {
            lemma_step_due(pair, verify, calls, at + 2);
            if !went_well(calls[at + 2]) {
                lemma_rollback(pair, verify, calls, at + 3);
            } else if n > at + 3 {
                assert(pair.due(verify, calls, at + 3));
            }
            3
        }
    } else {
        lemma_step_due(pair, verify, calls, at + 1);
        if !went_well(calls[at + 1]) {
            lemma_rollback(pair, verify, calls, at + 2);
            2
        } else {
            lemma_step_due(pair, verify, calls, at + 2);
            if !went_well(calls[at + 2]) {
                lemma_rollback(pair, verify, calls, at + 3);
                3
            } else {
                lemma_step_due(pair, verify, calls, at + 3);
                if !went_well(calls[at + 3]) {
                    lemma_rollback(pair, verify, calls, at + 4);
                } else if n > at + 4 {
                    assert(pair.due(verify, calls, at + 4));
                }
                4
            }
        }
    }
}

proof fn lemma_step_due(pair: SwapPair, verify: bool, calls: Seq<SwapCall>, k: int)
    requires
        0 <= k <= calls.len(),
        forall|i: int| 0 <= i < calls.len() ==> #[trigger] pair.due(verify, calls, i),
        is_end(pair.state(verify, calls, calls.len() as int).phase),
        !is_end(pair.state(verify, calls, k).phase),
    ensures
        k < calls.len(),
        pair.is_action(pair.state(verify, calls, k), calls[k]),
        pair.state(verify, calls, k + 1) == swap_step(
            pair.state(verify, calls, k),
            answer_of(calls[k]),
            pair.same_unit(),
        ),
{
    assert(k < calls.len());
    assert(pair.due(verify, calls, k));
    lemma_next(pair, verify, calls, k);
}

proof fn lemma_rollback(pair: SwapPair, verify: bool, calls: Seq<SwapCall>, k: int)
    requires
        0 <= k <= calls.len(),
        forall|i: int| 0 <= i < calls.len() ==> #[trigger] pair.due(verify, calls, i),
        is_end(pair.state(verify, calls, calls.len() as int).phase),
        pair.state(verify, calls, k).phase == SwapPhase::ReinstallOld,
    ensures
        brings_back(pair, calls, k),
        pair.state(verify, calls, calls.len() as int) == (SwapView {
            phase: SwapPhase::RolledBack,
            ..pair.state(verify, calls, k)
        }),
{
    lemma_step_due(pair, verify, calls, k);
    lemma_step_due(pair, verify, calls, k + 1);
    if !pair.same_unit() {
        lemma_step_due(pair, verify, calls, k + 2);
        if calls.len() > k + 3 {
            assert(pair.due(verify, calls, k + 3));
        }
    } else if calls.len() > k + 2 {
        assert(pair.due(verify, calls, k + 2));
    }
}

} // verus!
