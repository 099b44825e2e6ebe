//! The sampler's bookkeeping: which reading a tick's frame carries.
//!
//! The operating system is asked for one reading per logical core. How a
//! reading is taken, and what a single core's value looks like, is the
//! caller's business: `R` stands for one core's value. What is decided here
//! is that every sample has as many entries as the first one had.

use vstd::prelude::*;

verus! {

/// The sample that follows `current` when the operating system hands in
/// `reading`: the reading itself if it covers as many cores as `current`,
/// and `current` once more if it does not.
pub open spec fn next_sample<R>(current: Seq<R>, reading: Seq<R>) -> Seq<R> {
    if reading.len() == current.len() {
        reading
    } else {
        current
    }
}

/// The sample after a run of readings, first to last.
pub open spec fn sample_after<R>(first: Seq<R>, readings: Seq<Seq<R>>) -> Seq<R>
    decreases readings.len(),
{
    if readings.len() == 0 {
        first
    } else {
        next_sample(sample_after(first, readings.drop_last()), readings.last())
    }
}

/// Holds the latest sample. Its view is that sample, one entry per core in
/// the order the cores were first reported.
pub struct Sampler<R> {
    latest: Vec<R>,
}

impl<R> Sampler<R> {
    pub closed spec fn view(&self) -> Seq<R> {
        self.latest@
    }

    /// Starts from the first reading, which fixes the number of cores.
    pub fn new(first: Vec<R>) -> (sampler: Self)
        ensures
            sampler@ == first@,
    {
        Sampler { latest: first }
    }

    /// The number of cores counted at the start.
    pub fn cores(&self) -> (count: usize)
        ensures
            count == self@.len(),
    {
        self.latest.len()
    }

    /// Takes in this tick's reading and says whether it became the sample.
    /// A reading that covers another number of cores than the first one is
    /// set aside, and the last good sample stands.
    pub fn record(&mut self, reading: Vec<R>) -> (fresh: bool)
        ensures
            fresh == (reading@.len() == old(self)@.len()),
            final(self)@ == next_sample(old(self)@, reading@),
            final(self)@.len() == old(self)@.len(),
    {
        if reading.len() == self.latest.len() {
            self.latest = reading;
            true
        } else {
            false
        }
    }

    /// The sample to send: one entry per core.
    pub fn sample(&self) -> (sample: &[R])
        ensures
            sample@ == self@,
    {
        self.latest.as_slice()
    }
}

/// Every sample has as many entries as cores were counted at the start,
/// whatever readings came in since and however many.
pub proof fn law_sample_width_is_fixed<R>(first: Seq<R>, readings: Seq<Seq<R>>)
    ensures
        sample_after(first, readings).len() == first.len(),
    decreases readings.len(),
{
    if readings.len() > 0 {
        law_sample_width_is_fixed(first, readings.drop_last());
    }
}

} // verus!
