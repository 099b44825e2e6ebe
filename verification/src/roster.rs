//! The mathematics of the client registry: what registering and pruning do
//! to the live set, and what follows from that for every client.
//!
//! Every registration is given a ticket, an ordinal that is never reused.
//! Tickets give a client an identity that does not depend on where its
//! handle sits in the live set, or on what a handle is.

use vstd::prelude::*;

verus! {

/// The mathematical state of a registry.
#[verifier::ext_equal]
pub struct Roster<H> {
    /// The live handles, oldest registration first.
    pub handles: Seq<H>,
    /// `tickets[i]` is the ticket under which `handles[i]` was registered.
    pub tickets: Seq<nat>,
    /// How many registrations there have been so far.
    pub issued: nat,
}

/// What can happen to a registry: a client registers, or a broadcast pass
/// ends with its delivery outcomes.
pub enum Step<H> {
    Register(H),
    Pass(Seq<bool>),
}

/// Whether position `i` comes through a pass with the outcomes `delivered`:
/// a handle leaves only when a failed delivery was recorded for it.
pub open spec fn spared(delivered: Seq<bool>, i: int) -> bool {
    !(0 <= i < delivered.len()) || delivered[i]
}

/// What is left of `live` after a pass with the outcomes `delivered`: the
/// items at spared positions, in their old order.
pub open spec fn survivors<T>(live: Seq<T>, delivered: Seq<bool>) -> Seq<T>
    decreases live.len(),
{
    if live.len() == 0 {
        Seq::empty()
    } else {
        let earlier = survivors(live.drop_last(), delivered);
        if spared(delivered, live.len() - 1) {
            earlier.push(live.last())
        } else {
            earlier
        }
    }
}

/// How many of the positions below `n` are spared by `delivered`.
pub open spec fn spared_before(delivered: Seq<bool>, n: int) -> nat
    decreases n,
{
    if n <= 0 {
        0
    } else {
        spared_before(delivered, n - 1) + if spared(delivered, n - 1) {
            1nat
        } else {
            0nat
        }
    }
}

impl<H> Roster<H> {
    /// The roster of a registry that nobody has connected to yet.
    pub open spec fn empty() -> Roster<H> {
        Roster { handles: Seq::empty(), tickets: Seq::empty(), issued: 0 }
    }

    /// Every handle has a ticket, tickets were issued in ascending order,
    /// and none is from the future.
    pub open spec fn wf(self) -> bool {
        &&& self.tickets.len() == self.handles.len()
        &&& forall|i: int| 0 <= i < self.tickets.len() ==> self.tickets[i] < self.issued
        &&& forall|i: int, j: int|
            0 <= i < j < self.tickets.len() ==> self.tickets[i] < self.tickets[j]
    }

    /// Whether the client registered under `ticket` is in the live set.
    pub open spec fn holds(self, ticket: nat) -> bool {
        self.tickets.contains(ticket)
    }

    /// The roster after `handle` was registered.
    pub open spec fn register(self, handle: H) -> Roster<H> {
        Roster {
            handles: self.handles.push(handle),
            tickets: self.tickets.push(self.issued),
            issued: self.issued + 1,
        }
    }

    /// The roster after a pass with the outcomes `delivered`.
    pub open spec fn prune(self, delivered: Seq<bool>) -> Roster<H> {
        Roster {
            handles: survivors(self.handles, delivered),
            tickets: survivors(self.tickets, delivered),
            issued: self.issued,
        }
    }

    /// The roster after the handles of `arrivals` were registered one after
    /// another, first to last.
    pub open spec fn register_all(self, arrivals: Seq<H>) -> Roster<H>
        decreases arrivals.len(),
    {
        if arrivals.len() == 0 {
            self
        } else {
            self.register_all(arrivals.drop_last()).register(arrivals.last())
        }
    }

    /// The roster after one step.
    pub open spec fn step(self, step: Step<H>) -> Roster<H> {
        match step {
            Step::Register(handle) => self.register(handle),
            Step::Pass(delivered) => self.prune(delivered),
        }
    }

    /// The roster after a run of steps, first to last.
    pub open spec fn replay(self, steps: Seq<Step<H>>) -> Roster<H>
        decreases steps.len(),
    {
        if steps.len() == 0 {
            self
        } else {
            self.replay(steps.drop_last()).step(steps.last())
        }
    }

    /// Whether a pass with the outcomes `delivered` records a failed
    /// delivery for the client registered under `ticket`.
    pub open spec fn fails_on(self, delivered: Seq<bool>, ticket: nat) -> bool {
        exists|i: int|
            0 <= i < self.tickets.len() && self.tickets[i] == ticket && !spared(delivered, i)
    }

    /// Whether some pass in the run `steps`, started from this roster,
    /// records a failed delivery for the client registered under `ticket`.
    pub open spec fn evicted(self, steps: Seq<Step<H>>, ticket: nat) -> bool
        decreases steps.len(),
    {
        if steps.len() == 0 {
            false
        } else {
            ||| self.evicted(steps.drop_last(), ticket)
            ||| steps.last() matches Step::Pass(delivered) && self.replay(
                steps.drop_last(),
            ).fails_on(delivered, ticket)
        }
    }
}

/// Whether every step of `steps` is a pass.
pub open spec fn passes_only<H>(steps: Seq<Step<H>>) -> bool {
    forall|n: int| 0 <= n < steps.len() ==> steps[n] is Pass
}

/// Counting spared positions never goes down as the bound grows.
pub proof fn lemma_spared_before_monotone(delivered: Seq<bool>, i: int, j: int)
    requires
        i <= j,
    ensures
        spared_before(delivered, i) <= spared_before(delivered, j),
    decreases j - i,
{
    if i < j {
        lemma_spared_before_monotone(delivered, i, j - 1);
    }
}

/// A pass leaves as many items as there were spared positions.
pub proof fn lemma_survivors_len<T>(live: Seq<T>, delivered: Seq<bool>)
    ensures
        survivors(live, delivered).len() == spared_before(delivered, live.len() as int),
    decreases live.len(),
{
    if live.len() > 0 {
        lemma_survivors_len(live.drop_last(), delivered);
    }
}

/// The item at a spared position `i` comes through the pass, and stands
/// behind exactly the spared items that stood before it.
pub proof fn lemma_survivor_at<T>(live: Seq<T>, delivered: Seq<bool>, i: int)
    requires
        0 <= i < live.len(),
        spared(delivered, i),
    ensures
        spared_before(delivered, i) < survivors(live, delivered).len(),
        survivors(live, delivered)[spared_before(delivered, i) as int] == live[i],
    decreases live.len(),
{
    let earlier = live.drop_last();
    lemma_survivors_len(earlier, delivered);
    if i < live.len() - 1 {
        lemma_survivor_at(earlier, delivered, i);
    }
}

/// Every item that a pass leaves stood at a spared position before it; the
/// result is that position.
pub proof fn lemma_survivor_source<T>(live: Seq<T>, delivered: Seq<bool>, k: int) -> (i: int)
    requires
        0 <= k < survivors(live, delivered).len(),
    ensures
        0 <= i < live.len(),
        spared(delivered, i),
        spared_before(delivered, i) == k,
        survivors(live, delivered)[k] == live[i],
    decreases live.len(),
{
    let earlier = live.drop_last();
    lemma_survivors_len(earlier, delivered);
    if spared(delivered, live.len() - 1) && k == survivors(earlier, delivered).len() {
        live.len() - 1
    } else {
        lemma_survivor_source(earlier, delivered, k)
    }
}

/// A pass over the first `n + 1` items is a pass over the first `n`, then a
/// decision on item `n`.
pub proof fn lemma_survivors_extend<T>(live: Seq<T>, delivered: Seq<bool>, n: int)
    requires
        0 <= n < live.len(),
    ensures
        survivors(live.take(n + 1), delivered) == if spared(delivered, n) {
            survivors(live.take(n), delivered).push(live[n])
        } else {
            survivors(live.take(n), delivered)
        },
{
    assert(live.take(n + 1).drop_last() =~= live.take(n));
}

/// A pass that spares every position leaves the sequence as it is.
pub proof fn lemma_survivors_untouched<T>(live: Seq<T>, delivered: Seq<bool>)
    requires
        forall|i: int| 0 <= i < live.len() ==> spared(delivered, i),
    ensures
        survivors(live, delivered) == live,
    decreases live.len(),
{
    if live.len() > 0 {
        lemma_survivors_untouched(live.drop_last(), delivered);
        assert(live.drop_last().push(live.last()) =~= live);
    }
}

/// Registering keeps a roster well formed.
pub proof fn lemma_register_wf<H>(before: Roster<H>, handle: H)
    requires
        before.wf(),
    ensures
        before.register(handle).wf(),
{
}

/// A pass keeps a roster well formed.
pub proof fn lemma_prune_wf<H>(before: Roster<H>, delivered: Seq<bool>)
    requires
        before.wf(),
    ensures
        before.prune(delivered).wf(),
{
    let after = before.prune(delivered);
    lemma_survivors_len(before.handles, delivered);
    lemma_survivors_len(before.tickets, delivered);
    assert forall|k: int| 0 <= k < after.tickets.len() implies after.tickets[k]
        < after.issued by {
        let i = lemma_survivor_source(before.tickets, delivered, k);
    }
    assert forall|k: int, l: int| 0 <= k < l < after.tickets.len() implies after.tickets[k]
        < after.tickets[l] by {
        let i = lemma_survivor_source(before.tickets, delivered, k);
        let j = lemma_survivor_source(before.tickets, delivered, l);
        if j <= i {
            lemma_spared_before_monotone(delivered, j, i);
        }
    }
}

/// A run of steps keeps a roster well formed, and takes no ticket back.
pub proof fn lemma_replay_wf<H>(before: Roster<H>, steps: Seq<Step<H>>)
    requires
        before.wf(),
    ensures
        before.replay(steps).wf(),
        before.issued <= before.replay(steps).issued,
    decreases steps.len(),
{
    if steps.len() > 0 {
        lemma_replay_wf(before, steps.drop_last());
        let midway = before.replay(steps.drop_last());
        match steps.last() {
            Step::Register(handle) => lemma_register_wf(midway, handle),
            Step::Pass(delivered) => lemma_prune_wf(midway, delivered),
        }
    }
}

/// Registering brings in the newcomer's ticket and nobody else's, and
/// takes nobody out.
pub proof fn lemma_register_holds<H>(before: Roster<H>, handle: H, ticket: nat)
    ensures
        before.register(handle).holds(ticket) <==> before.holds(ticket) || ticket == before.issued,
{
    let after = before.register(handle);
    if before.holds(ticket) {
        let i = choose|i: int| 0 <= i < before.tickets.len() && before.tickets[i] == ticket;
        assert(after.tickets[i] == ticket);
    }
    if ticket == before.issued {
        assert(after.tickets[before.tickets.len() as int] == ticket);
    }
}

/// A pass brings nobody in.
pub proof fn lemma_pass_admits_nobody<H>(before: Roster<H>, delivered: Seq<bool>, ticket: nat)
    requires
        !before.holds(ticket),
    ensures
        !before.prune(delivered).holds(ticket),
{
    let after = before.prune(delivered);
    if after.holds(ticket) {
        let k = choose|k: int| 0 <= k < after.tickets.len() && after.tickets[k] == ticket;
        let j = lemma_survivor_source(before.tickets, delivered, k);
        assert(before.tickets[j] == ticket);
    }
}

/// A pass keeps the client registered under `ticket` exactly if it records
/// no failed delivery for it.
pub proof fn lemma_pass_keeps_unless_failed<H>(
    before: Roster<H>,
    delivered: Seq<bool>,
    ticket: nat,
)
    requires
        before.wf(),
        before.holds(ticket),
    ensures
        before.prune(delivered).holds(ticket) <==> !before.fails_on(delivered, ticket),
{
    let after = before.prune(delivered);
    let i = choose|i: int| 0 <= i < before.tickets.len() && before.tickets[i] == ticket;
    // Tickets ascend, so `i` is the only position that holds `ticket`.
    assert forall|j: int| 0 <= j < before.tickets.len() && before.tickets[j] == ticket implies j
        == i by {
        assert(!(j < i) && !(i < j));
    }
    if spared(delivered, i) {
        lemma_survivor_at(before.tickets, delivered, i);
        assert(after.tickets[spared_before(delivered, i) as int] == ticket);
    } else if after.holds(ticket) {
        let k = choose|k: int| 0 <= k < after.tickets.len() && after.tickets[k] == ticket;
        let j = lemma_survivor_source(before.tickets, delivered, k);
    }
}

/// No lost and no duplicated registrations. When any number of clients
/// register one after another, in whatever order they got hold of the
/// registry, the live set afterwards is the old live set followed by exactly
/// those handles, each once and under a ticket of its own.
pub proof fn law_registrations_accumulate<H>(before: Roster<H>, arrivals: Seq<H>)
    requires
        before.wf(),
    ensures
        before.register_all(arrivals).wf(),
        before.register_all(arrivals).handles == before.handles + arrivals,
        before.register_all(arrivals).handles.len() == before.handles.len() + arrivals.len(),
        before.register_all(arrivals).tickets == before.tickets + Seq::new(
            arrivals.len(),
            |k: int| (before.issued + k) as nat,
        ),
        before.register_all(arrivals).issued == before.issued + arrivals.len(),
        before.register_all(arrivals).tickets.no_duplicates(),
    decreases arrivals.len(),
{
    let after = before.register_all(arrivals);
    if arrivals.len() > 0 {
        law_registrations_accumulate(before, arrivals.drop_last());
        lemma_register_wf(before.register_all(arrivals.drop_last()), arrivals.last());
    }
    assert(after.handles =~= before.handles + arrivals);
    assert(after.tickets =~= before.tickets + Seq::new(
        arrivals.len(),
        |k: int| (before.issued + k) as nat,
    ));
    assert forall|i: int, j: int|
        0 <= i < after.tickets.len() && 0 <= j < after.tickets.len() && i != j
        implies after.tickets[i] != after.tickets[j] by {
        assert(i < j || j < i);
    }
}

/// A pass works on a fixed snapshot. If a client registers after the
/// outcomes of a pass were gathered and before the pass prunes, the result
/// is the same as if it had registered after the pass: the newcomer is
/// neither lost nor pruned, and the pass drops whom it would have dropped.
pub proof fn law_registration_commutes_with_pass<H>(
    before: Roster<H>,
    handle: H,
    delivered: Seq<bool>,
)
    requires
        before.wf(),
        delivered.len() <= before.handles.len(),
    ensures
        before.register(handle).prune(delivered) == before.prune(delivered).register(handle),
{
    assert(before.handles.push(handle).drop_last() =~= before.handles);
    assert(before.tickets.push(before.issued).drop_last() =~= before.tickets);
}

/// A registered client is in the registry after a run of registrations and
/// passes exactly if no pass of the run recorded a failed delivery to it:
/// nothing but a failed delivery removes it, and a failed delivery does.
pub proof fn law_client_lives_until_delivery_fails<H>(
    before: Roster<H>,
    steps: Seq<Step<H>>,
    ticket: nat,
)
    requires
        before.wf(),
        before.holds(ticket),
    ensures
        before.replay(steps).holds(ticket) <==> !before.evicted(steps, ticket),
    decreases steps.len(),
{
    if steps.len() > 0 {
        let earlier = steps.drop_last();
        law_client_lives_until_delivery_fails(before, earlier, ticket);
        lemma_replay_wf(before, earlier);
        let midway = before.replay(earlier);
        match steps.last() {
            Step::Register(handle) => {
                lemma_register_holds(midway, handle, ticket);
            },
            Step::Pass(delivered) => {
                if midway.holds(ticket) {
                    lemma_pass_keeps_unless_failed(midway, delivered, ticket);
                } else {
                    lemma_pass_admits_nobody(midway, delivered, ticket);
                }
            },
        }
    }
}

/// A client whose delivery failed in a pass is out of the registry after
/// that pass, and no later registration or pass brings it back.
pub proof fn law_failed_client_never_returns<H>(
    before: Roster<H>,
    delivered: Seq<bool>,
    i: int,
    later: Seq<Step<H>>,
)
    requires
        before.wf(),
        0 <= i < before.tickets.len(),
        !spared(delivered, i),
    ensures
        !before.prune(delivered).holds(before.tickets[i]),
        !before.prune(delivered).replay(later).holds(before.tickets[i]),
    decreases later.len(),
{
    let ticket = before.tickets[i];
    let after = before.prune(delivered);
    assert(before.holds(ticket));
    lemma_pass_keeps_unless_failed(before, delivered, ticket);
    lemma_prune_wf(before, delivered);
    if later.len() > 0 {
        let earlier = later.drop_last();
        law_failed_client_never_returns(before, delivered, i, earlier);
        lemma_replay_wf(after, earlier);
        let midway = after.replay(earlier);
        match later.last() {
            Step::Register(handle) => lemma_register_holds(midway, handle, ticket),
            Step::Pass(outcomes) => lemma_pass_admits_nobody(midway, outcomes, ticket),
        }
    }
}

/// A client to which no delivery failed in a pass is still registered after
/// it, with the handle it had, behind exactly those that were served before
/// it.
pub proof fn law_served_client_remains<H>(before: Roster<H>, delivered: Seq<bool>, i: int)
    requires
        before.wf(),
        0 <= i < before.tickets.len(),
        spared(delivered, i),
    ensures
        spared_before(delivered, i) < before.prune(delivered).tickets.len(),
        before.prune(delivered).tickets[spared_before(delivered, i) as int] == before.tickets[i],
        before.prune(delivered).handles[spared_before(delivered, i) as int] == before.handles[i],
        before.prune(delivered).holds(before.tickets[i]),
{
    lemma_survivor_at(before.tickets, delivered, i);
    lemma_survivor_at(before.handles, delivered, i);
}

/// A pass in which no delivery failed changes nothing.
pub proof fn law_pass_without_failure_is_noop<H>(before: Roster<H>, delivered: Seq<bool>)
    requires
        before.wf(),
        forall|i: int| 0 <= i < before.handles.len() ==> spared(delivered, i),
    ensures
        before.prune(delivered) == before,
{
    lemma_survivors_untouched(before.handles, delivered);
    lemma_survivors_untouched(before.tickets, delivered);
}

/// With nobody connected a pass is a no-op, tick after tick: however many
/// passes run and whatever outcomes they are handed, the registry stays as
/// it was, with no client in it.
pub proof fn law_idle_passes_change_nothing<H>(before: Roster<H>, passes: Seq<Step<H>>)
    requires
        before.wf(),
        before.handles.len() == 0,
        passes_only(passes),
    ensures
        before.replay(passes) == before,
    decreases passes.len(),
{
    if passes.len() > 0 {
        law_idle_passes_change_nothing(before, passes.drop_last());
        law_pass_without_failure_is_noop(before, passes.last()->Pass_0);
    }
}

} // verus!
