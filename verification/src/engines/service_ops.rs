//! The operations that bring a unit up, and the record of what was asked of
//! them.
//!
//! The backend that acts on the machine is held privately, so that whoever has
//! the operations reaches it only through the methods here, each of which adds
//! to the record what it asked and what was answered.
use vstd::prelude::*;

use crate::profile::Profile;
use crate::text::texts;

verus! {

/// What bringing a profile up does to the machine.
pub trait ServiceBackend {
    fn install(&self, p: &Profile) -> Result<(), String>;

    /// The paths of the files beside the units, among them the backups.
    fn unit_files(&self) -> Vec<String>;

    fn start(&self, unit: &str) -> Result<(), String>;

    fn healthy(&self, host: &str, port: u16) -> bool;

    /// Puts a backup in the place of the unit, and says whether that was done.
    fn restore(&self, backup: &str, unit: &str) -> bool;
}

/// One operation: what was asked, and what was answered.
pub enum ServiceCall {
    Install { profile: Profile, result: Result<(), String> },
    UnitFiles { paths: Seq<Seq<char>> },
    Start { unit: Seq<char>, result: Result<(), String> },
    Health { host: Seq<char>, port: u16, up: bool },
    Restore { backup: Seq<char>, unit: Seq<char>, restored: bool },
}

/// The backend answered so when it was to look at a place.
pub open spec fn found_healthy<B: ServiceBackend>(
    backend: B,
    host: Seq<char>,
    port: u16,
    up: bool,
) -> bool {
    exists|h: &str| h@ == host && #[trigger] call_ensures(B::healthy, (&backend, h, port), up)
}

/// The backend answered so when it was to put a backup back.
pub open spec fn put_back<B: ServiceBackend>(
    backend: B,
    backup: Seq<char>,
    unit: Seq<char>,
    restored: bool,
) -> bool {
    exists|b: &str, u: &str|
        b@ == backup && u@ == unit && #[trigger] call_ensures(
            B::restore,
            (&backend, b, u),
            restored,
        )
}

/// The backend answered the call so.
pub open spec fn answered_by<B: ServiceBackend>(backend: B, c: ServiceCall) -> bool {
    match c {
        ServiceCall::Install { profile, result } => call_ensures(
            B::install,
            (&backend, &profile),
            result,
        ),
        ServiceCall::UnitFiles { paths } => exists|v: Vec<String>|
            texts(v@) == paths && #[trigger] call_ensures(B::unit_files, (&backend,), v),
        ServiceCall::Start { unit, result } => exists|u: &str|
            u@ == unit && #[trigger] call_ensures(B::start, (&backend, u), result),
        ServiceCall::Health { host, port, up } => found_healthy(backend, host, port, up),
        ServiceCall::Restore { backup, unit, restored } => put_back(
            backend,
            backup,
            unit,
            restored,
        ),
    }
}

/// The operations that bring a unit up.
pub struct ServiceOps<B: ServiceBackend> {
    backend: B,
    calls: Ghost<Seq<ServiceCall>>,
}

impl<B: ServiceBackend> View for ServiceOps<B> {
    type V = Seq<ServiceCall>;

    closed spec fn view(&self) -> Seq<ServiceCall> {
        self.calls@
    }
}

impl<B: ServiceBackend> ServiceOps<B> {
    /// The backend that acts.
    pub closed spec fn backend(self) -> B {
        self.backend
    }

    /// The operations after one more call.
    pub open spec fn called(self, c: ServiceCall, after: ServiceOps<B>) -> bool {
        &&& after@ == self@.push(c)
        &&& after.backend() == self.backend()
        &&& answered_by(self.backend(), c)
    }

    /// The operations of a backend of which nothing was asked yet.
    pub fn new(backend: B) -> (r: ServiceOps<B>)
        ensures
            r.backend() == backend,
            r@.len() == 0,
    {
        ServiceOps { backend, calls: Ghost(Seq::empty()) }
    }

    /// Installs a profile's unit, over a backup of the one that is there.
    pub fn install(&mut self, p: &Profile) -> (result: Result<(), String>)
        ensures
            old(self).called((ServiceCall::Install { profile: *p, result }), *final(self)),
    {
        let result = self.backend.install(p);
        assert(call_ensures(B::install, (&self.backend, p), result));
        let ghost c = ServiceCall::Install { profile: *p, result };
        self.calls = Ghost(self.calls@.push(c));
        result
    }

    /// The files beside the units.
    pub fn unit_files(&mut self) -> (paths: Vec<String>)
        ensures
            old(self).called((ServiceCall::UnitFiles { paths: texts(paths@) }), *final(self)),
    {
        let paths = self.backend.unit_files();
        assert(call_ensures(B::unit_files, (&self.backend,), paths));
        let ghost c = ServiceCall::UnitFiles { paths: texts(paths@) };
        self.calls = Ghost(self.calls@.push(c));
        paths
    }

    /// Starts a unit.
    pub fn start(&mut self, unit: &str) -> (result: Result<(), String>)
        ensures
            old(self).called((ServiceCall::Start { unit: unit@, result }), *final(self)),
    {
        let result = self.backend.start(unit);
        assert(call_ensures(B::start, (&self.backend, unit), result));
        let ghost c = ServiceCall::Start { unit: unit@, result };
        self.calls = Ghost(self.calls@.push(c));
        result
    }

    /// Whether something serves at a place.
    pub fn healthy(&mut self, host: &str, port: u16) -> (up: bool)
        ensures
            old(self).called((ServiceCall::Health { host: host@, port, up }), *final(self)),
    {
        let up = self.backend.healthy(host, port);
        assert(found_healthy(self.backend, host@, port, up));
        let ghost c = ServiceCall::Health { host: host@, port, up };
        self.calls = Ghost(self.calls@.push(c));
        up
    }

    /// Puts a backup in the place of a unit.
    pub fn restore(&mut self, backup: &str, unit: &str) -> (restored: bool)
        ensures
            old(self).called(
                (ServiceCall::Restore { backup: backup@, unit: unit@, restored }),
                *final(self),
            ),
    {
        let restored = self.backend.restore(backup, unit);
        assert(put_back(self.backend, backup@, unit@, restored));
        let ghost c = ServiceCall::Restore { backup: backup@, unit: unit@, restored };
        self.calls = Ghost(self.calls@.push(c));
        restored
    }
}

} // verus!
