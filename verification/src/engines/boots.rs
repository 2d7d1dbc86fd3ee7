//! Boots on a test port, and the record of them.
//!
//! The booter is held privately, so that whoever has the boots reaches it only
//! through the method here, which adds to the record what was booted and what
//! came of it.
use vstd::prelude::*;

use crate::measure::Measure;
use crate::profile::Profile;

verus! {

/// Boots a loadout on a test port and takes it down again: the rate that it
/// reported while it served, or a word and a reason.
pub trait Booter {
    fn boot(&self, p: &Profile, test_port: u16) -> Result<Option<Measure>, (String, String)>;
}

/// One boot: what was booted, and what came of it.
pub struct BootCall {
    pub profile: Profile,
    pub test_port: u16,
    pub answer: Result<Option<Measure>, (String, String)>,
}

/// The booter answered so.
pub open spec fn answered_by<B: Booter>(booter: B, c: BootCall) -> bool {
    call_ensures(B::boot, (&booter, &c.profile, c.test_port), c.answer)
}

/// The boots of a booter.
pub struct Boots<B: Booter> {
    booter: B,
    calls: Ghost<Seq<BootCall>>,
}

impl<B: Booter> View for Boots<B> {
    type V = Seq<BootCall>;

    closed spec fn view(&self) -> Seq<BootCall> {
        self.calls@
    }
}

impl<B: Booter> Boots<B> {
    /// The booter that acts.
    pub closed spec fn booter(self) -> B {
        self.booter
    }

    /// The boots of a booter that booted nothing yet.
    pub fn new(booter: B) -> (r: Boots<B>)
        ensures
            r.booter() == booter,
            r@.len() == 0,
    {
        Boots { booter, calls: Ghost(Seq::empty()) }
    }

    /// Boots a loadout on a test port and takes it down again.
    pub fn boot(&mut self, p: &Profile, test_port: u16) -> (answer: Result<
        Option<Measure>,
        (String, String),
    >)
        ensures
            final(self)@ == old(self)@.push(BootCall { profile: *p, test_port, answer }),
            final(self).booter() == old(self).booter(),
            answered_by(old(self).booter(), (BootCall { profile: *p, test_port, answer })),
    {
        let answer = self.booter.boot(p, test_port);
        assert(call_ensures(B::boot, (&self.booter, p, test_port), answer));
        let ghost c = BootCall { profile: *p, test_port, answer };
        self.calls = Ghost(self.calls@.push(c));
        answer
    }
}

} // verus!
