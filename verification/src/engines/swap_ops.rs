//! The operations of a swap, and the record of what was asked of them.
//!
//! The backend that acts on the machine is held privately, so that whoever has
//! the operations reaches it only through the methods here, each of which adds
//! to the record what it asked and what was answered.
use vstd::prelude::*;

use crate::engines::health::BringupOutcome;
use crate::profile::Profile;

verus! {

/// What a swap does to the machine.
pub trait SwapBackend {
    fn verify(&self, candidate: &Profile, test_port: u16, timeout_s: u64) -> BringupOutcome;

    fn install(&self, p: &Profile) -> Result<(), String>;

    fn start(&self, unit: &str) -> Result<(), String>;

    fn stop(&self, unit: &str) -> Result<(), String>;

    fn health(&self, host: &str, port: u16, timeout_s: u64) -> bool;

    fn progress(&self, message: &str);
}

/// One operation: what was asked, and what was answered.
pub enum SwapCall {
    Verify { candidate: Profile, test_port: u16, timeout_s: u64, outcome: BringupOutcome },
    Install { profile: Profile, result: Result<(), String> },
    Start { unit: Seq<char>, result: Result<(), String> },
    Stop { unit: Seq<char>, result: Result<(), String> },
    Health { host: Seq<char>, port: u16, timeout_s: u64, up: bool },
}

/// What was asked so far, in order.
pub struct SwapRecord {
    pub calls: Seq<SwapCall>,
    /// The messages on how the swap goes.
    pub told: Seq<Seq<char>>,
}

/// The backend answered so when it was to look at a place.
pub open spec fn looked<B: SwapBackend>(
    backend: B,
    host: Seq<char>,
    port: u16,
    timeout_s: u64,
    up: bool,
) -> bool {
    exists|h: &str|
        h@ == host && #[trigger] call_ensures(B::health, (&backend, h, port, timeout_s), up)
}

/// The backend answered the call so.
pub open spec fn answered_by<B: SwapBackend>(backend: B, c: SwapCall) -> bool {
    match c {
        SwapCall::Verify { candidate, test_port, timeout_s, outcome } => call_ensures(
            B::verify,
            (&backend, &candidate, test_port, timeout_s),
            outcome,
        ),
        SwapCall::Install { profile, result } => call_ensures(
            B::install,
            (&backend, &profile),
            result,
        ),
        SwapCall::Start { unit, result } => exists|u: &str|
            u@ == unit && #[trigger] call_ensures(B::start, (&backend, u), result),
        SwapCall::Stop { unit, result } => exists|u: &str|
            u@ == unit && #[trigger] call_ensures(B::stop, (&backend, u), result),
        SwapCall::Health { host, port, timeout_s, up } => looked(
            backend,
            host,
            port,
            timeout_s,
            up,
        ),
    }
}

/// The operations of a swap.
pub struct SwapOps<B: SwapBackend> {
    backend: B,
    record: Ghost<SwapRecord>,
}

impl<B: SwapBackend> View for SwapOps<B> {
    type V = SwapRecord;

    closed spec fn view(&self) -> SwapRecord {
        self.record@
    }
}

impl<B: SwapBackend> SwapOps<B> {
    /// The backend that acts.
    pub closed spec fn backend(self) -> B {
        self.backend
    }

    /// The operations after one more call.
    pub open spec fn called(self, c: SwapCall, after: SwapOps<B>) -> bool {
        &&& after@ == (SwapRecord { calls: self@.calls.push(c), ..self@ })
        &&& after.backend() == self.backend()
        &&& answered_by(self.backend(), c)
    }

    /// The operations of a backend of which nothing was asked yet.
    pub fn new(backend: B) -> (r: SwapOps<B>)
        ensures
            r.backend() == backend,
            r@.calls.len() == 0,
            r@.told.len() == 0,
    {
        SwapOps { backend, record: Ghost(SwapRecord { calls: Seq::empty(), told: Seq::empty() }) }
    }

    /// Tries a candidate on a test port.
    pub fn verify(&mut self, candidate: &Profile, test_port: u16, timeout_s: u64) -> (outcome:
        BringupOutcome)
        ensures
            old(self).called(
                (SwapCall::Verify { candidate: *candidate, test_port, timeout_s, outcome }),
                *final(self),
            ),
    {
        let outcome = self.backend.verify(candidate, test_port, timeout_s);
        assert(call_ensures(
            B::verify,
            (&self.backend, candidate, test_port, timeout_s),
            outcome,
        ));
        let ghost c = SwapCall::Verify { candidate: *candidate, test_port, timeout_s, outcome };
        self.record = Ghost(SwapRecord { calls: self.record@.calls.push(c), ..self.record@ });
        outcome
    }

    /// Installs a profile's unit.
    pub fn install(&mut self, p: &Profile) -> (result: Result<(), String>)
        ensures
            old(self).called((SwapCall::Install { profile: *p, result }), *final(self)),
    {
        let result = self.backend.install(p);
        assert(call_ensures(B::install, (&self.backend, p), result));
        let ghost c = SwapCall::Install { profile: *p, result };
        self.record = Ghost(SwapRecord { calls: self.record@.calls.push(c), ..self.record@ });
        result
    }

    /// Starts a unit.
    pub fn start(&mut self, unit: &str) -> (result: Result<(), String>)
        ensures
            old(self).called((SwapCall::Start { unit: unit@, result }), *final(self)),
    {
        let result = self.backend.start(unit);
        assert(call_ensures(B::start, (&self.backend, unit), result));
        let ghost c = SwapCall::Start { unit: unit@, result };
        self.record = Ghost(SwapRecord { calls: self.record@.calls.push(c), ..self.record@ });
        result
    }

    /// Stops a unit.
    pub fn stop(&mut self, unit: &str) -> (result: Result<(), String>)
        ensures
            old(self).called((SwapCall::Stop { unit: unit@, result }), *final(self)),
    {
        let result = self.backend.stop(unit);
        assert(call_ensures(B::stop, (&self.backend, unit), result));
        let ghost c = SwapCall::Stop { unit: unit@, result };
        self.record = Ghost(SwapRecord { calls: self.record@.calls.push(c), ..self.record@ });
        result
    }

    /// Whether something serves at a place.
    pub fn health(&mut self, host: &str, port: u16, timeout_s: u64) -> (up: bool)
        ensures
            old(self).called((SwapCall::Health { host: host@, port, timeout_s, up }), *final(self)),
    {
        let up = self.backend.health(host, port, timeout_s);
        assert(call_ensures(B::health, (&self.backend, host, port, timeout_s), up));
        let ghost c = SwapCall::Health { host: host@, port, timeout_s, up };
        assert(looked(self.backend, host@, port, timeout_s, up));
        self.record = Ghost(SwapRecord { calls: self.record@.calls.push(c), ..self.record@ });
        up
    }

    /// Tells how the swap goes.
    pub fn progress(&mut self, message: &str)
        ensures
            final(self)@ == (SwapRecord { told: old(self)@.told.push(message@), ..old(self)@ }),
            final(self).backend() == old(self).backend(),
    {
        self.backend.progress(message);
        self.record = Ghost(
            SwapRecord { told: self.record@.told.push(message@), ..self.record@ },
        );
    }
}

} // verus!
