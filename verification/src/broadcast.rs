//! The broadcaster's tick as a state machine.
//!
//! A tick is: sleep, take a sample, deliver it to every live client and
//! drop the clients that could not be reached. Sleeping, sampling and
//! sending are done by whoever drives the machine; the machine says what is
//! to be done next and settles the registry when a pass is over.

use crate::registry::Registry;
use vstd::prelude::*;

verus! {

/// The pause between the end of one tick and the start of the next, in
/// milliseconds.
pub const TICK_INTERVAL_MS: u64 = 500;

/// Where in its tick the broadcaster stands.
#[derive(Clone, Copy, Debug, PartialEq, Eq, Structural)]
pub enum Phase {
    /// Waiting out the interval.
    Sleeping,
    /// Waiting for the sample's frame.
    Sampling,
    /// Waiting for the outcomes of the deliveries to all live clients.
    Delivering,
}

/// What the driver is to do next.
#[derive(Clone, Copy, Debug, PartialEq, Eq, Structural)]
pub enum Action {
    /// Sleep for `millis` milliseconds, then report `woke`.
    Sleep { millis: u64 },
    /// Take a sample and encode it, then report `sampled` with the frame.
    Sample,
    /// With the registry held exclusively, send the frame to every live
    /// handle, wait for all sends to end, then report `delivered` with one
    /// outcome for each handle.
    Deliver,
}

/// The action that a phase asks for.
pub open spec fn action_in(phase: Phase) -> Action {
    match phase {
        Phase::Sleeping => Action::Sleep { millis: TICK_INTERVAL_MS },
        Phase::Sampling => Action::Sample,
        Phase::Delivering => Action::Deliver,
    }
}

/// The broadcaster's state: its phase and, while it delivers, the frame.
pub struct Broadcaster {
    phase: Phase,
    payload: String,
}

impl Broadcaster {
    /// The phase the broadcaster is in.
    pub closed spec fn phase(&self) -> Phase {
        self.phase
    }

    /// The frame of the pass under way; empty outside a pass.
    pub closed spec fn frame(&self) -> Seq<char> {
        self.payload@
    }

    #[verifier::type_invariant]
    spec fn inv(self) -> bool {
        self.phase != Phase::Delivering ==> self.payload@.len() == 0
    }

    /// A broadcaster at the start of its first tick: it sleeps first.
    pub fn new() -> (broadcaster: Self)
        ensures
            broadcaster.phase() == Phase::Sleeping,
            broadcaster.frame() == Seq::<char>::empty(),
    {
        Broadcaster { phase: Phase::Sleeping, payload: String::new() }
    }

    /// What the driver is to do now.
    pub fn action(&self) -> (action: Action)
        ensures
            action == action_in(self.phase()),
    {
        match self.phase {
            Phase::Sleeping => Action::Sleep { millis: TICK_INTERVAL_MS },
            Phase::Sampling => Action::Sample,
            Phase::Delivering => Action::Deliver,
        }
    }

    /// The frame to send in the pass under way. Outside a pass there is
    /// none, and the result is empty.
    pub fn payload(&self) -> (payload: &str)
        ensures
            payload@ == self.frame(),
            self.phase() != Phase::Delivering ==> payload@.len() == 0,
    {
        proof {
            use_type_invariant(self);
        }
        self.payload.as_str()
    }

    /// The interval is over: a sleeping broadcaster goes on to sample.
    /// In any other phase nothing changes.
    pub fn woke(&mut self)
        ensures
            final(self).phase() == if old(self).phase() == Phase::Sleeping {
                Phase::Sampling
            } else {
                old(self).phase()
            },
            final(self).frame() == old(self).frame(),
    {
        proof {
            use_type_invariant(&*self);
        }
        match self.phase {
            Phase::Sleeping => {
                self.phase = Phase::Sampling;
            },
            _ => {},
        }
    }

    /// The sample was taken and encoded as `payload`: a sampling
    /// broadcaster goes on to deliver it. In any other phase nothing
    /// changes and `payload` is discarded.
    pub fn sampled(&mut self, payload: String)
        ensures
            old(self).phase() == Phase::Sampling ==> final(self).phase() == Phase::Delivering
                && final(self).frame() == payload@,
            old(self).phase() != Phase::Sampling ==> final(self).phase() == old(self).phase()
                && final(self).frame() == old(self).frame(),
    {
        match self.phase {
            Phase::Sampling => {
                self.phase = Phase::Delivering;
                self.payload = payload;
            },
            _ => {},
        }
    }

    /// All deliveries of the pass have ended, `outcomes[i]` telling whether
    /// the one to the `i`-th live handle succeeded. A delivering
    /// broadcaster drops the handles whose delivery failed, forgets the
    /// frame and goes back to sleep; a failed delivery never stops it.
    /// In any other phase nothing changes, the registry included.
    pub fn delivered<H>(&mut self, registry: &mut Registry<H>, outcomes: &[bool])
        ensures
            old(self).phase() == Phase::Delivering ==> final(self).phase() == Phase::Sleeping
                && final(self).frame() == Seq::<char>::empty() && final(registry)@ == old(
                registry,
            )@.prune(outcomes@),
            old(self).phase() != Phase::Delivering ==> final(self).phase() == old(self).phase()
                && final(self).frame() == old(self).frame() && final(registry)@ == old(registry)@,
            old(registry)@.wf() ==> final(registry)@.wf(),
    {
        match self.phase {
            Phase::Delivering => {
                registry.prune(outcomes);
                self.payload = String::new();
                self.phase = Phase::Sleeping;
            },
            _ => {},
        }
    }
}

} // verus!
