//! The client registry: the live set of outbound handles that a broadcast
//! pass delivers to and prunes.

use crate::roster::{lemma_prune_wf, lemma_survivors_extend, survivors, Roster};
use vstd::prelude::*;

verus! {

/// The registry of client handles. It owns every handle from registration
/// until a failed delivery removes it. Exclusive access is the caller's
/// `&mut`: whoever shares a registry puts it behind a lock.
///
/// A registry starts out well formed and every method keeps it so.
pub struct Registry<H> {
    handles: Vec<H>,
    tickets: Ghost<Seq<nat>>,
    issued: Ghost<nat>,
}

/// Mutable references to all items of `slice`, first to last. What is
/// written through them is what the slice holds afterwards.
fn each_mut<'a, H>(slice: &'a mut [H]) -> (refs: Vec<&'a mut H>)
    ensures
        refs@.len() == old(slice)@.len(),
        forall|i: int| 0 <= i < refs@.len() ==> *(#[trigger] refs@[i]) == old(slice)@[i],
        final(slice)@.len() == old(slice)@.len(),
        forall|i: int| 0 <= i < refs@.len() ==> final(slice)@[i] == *final(#[trigger] refs@[i]),
{
    let ghost whole = slice@;
    let ghost end = final(slice)@;
    let mut refs: Vec<&'a mut H> = Vec::new();
    let mut rest = slice;
    while rest.len() > 0
        invariant
            refs@.len() + rest@.len() == whole.len(),
            rest@ == whole.skip(refs@.len() as int),
            forall|i: int| 0 <= i < refs@.len() ==> *(#[trigger] refs@[i]) == whole[i],
            end.len() == refs@.len() + final(rest)@.len(),
            forall|i: int| 0 <= i < refs@.len() ==> end[i] == *final(#[trigger] refs@[i]),
            forall|i: int|
                0 <= i < final(rest)@.len() ==> end[refs@.len() + i] == #[trigger] final(rest)@[i],
        decreases rest@.len(),
    {
        let ghost taken = refs@;
        let ghost after = final(rest)@;
        let current = rest;
        let (head, tail) = current.split_at_mut(1);
        let ghost head_after = final(head)@;
        let ghost tail_after = final(tail)@;
        assert(after == head_after + tail_after);
        match head.first_mut() {
            Some(first) => {
                assert(after[0] == head_after[0]);
                assert(end[taken.len() as int + 0] == after[0]);
                refs.push(first);
            },
            None => {},
        }
        rest = tail;
        proof {
            assert forall|i: int| 0 <= i < refs@.len() implies end[i] == *final(#[trigger] refs@[i])
            by {
                if i < taken.len() {
                    assert(refs@[i] == taken[i]);
                }
            }
            assert forall|i: int| 0 <= i < final(rest)@.len() implies end[refs@.len() + i]
                == #[trigger] final(rest)@[i] by {
                assert(after[1 + i] == tail_after[i]);
                assert(end[taken.len() as int + (1 + i)] == after[1 + i]);
            }
        }
    }
    refs
}

impl<H> Registry<H> {
    /// The state of the registry: its handles and their tickets.
    pub closed spec fn view(&self) -> Roster<H> {
        Roster { handles: self.handles@, tickets: self.tickets@, issued: self.issued@ }
    }

    /// A registry with no clients.
    pub fn new() -> (registry: Self)
        ensures
            registry@ == Roster::<H>::empty(),
            registry@.wf(),
    {
        Registry { handles: Vec::new(), tickets: Ghost(Seq::empty()), issued: Ghost(0) }
    }

    /// Appends `handle` to the live set. Always succeeds.
    pub fn register(&mut self, handle: H)
        ensures
            final(self)@ == old(self)@.register(handle),
            old(self)@.wf() ==> final(self)@.wf(),
    {
        self.handles.push(handle);
        proof {
            self.tickets@ = self.tickets@.push(self.issued@);
            self.issued@ = self.issued@ + 1;
        }
    }

    /// The number of live handles.
    pub fn len(&self) -> (count: usize)
        ensures
            count == self@.handles.len(),
    {
        self.handles.len()
    }

    /// Whether no client is connected.
    pub fn is_empty(&self) -> (idle: bool)
        ensures
            idle == (self@.handles.len() == 0),
    {
        self.handles.len() == 0
    }

    /// The live handles, oldest registration first.
    pub fn handles(&self) -> (live: &[H])
        ensures
            live@ == self@.handles,
    {
        self.handles.as_slice()
    }

    /// Exclusive access to every live handle at once, oldest registration
    /// first, for the deliveries of a pass. Whatever is done to the handles
    /// through the references, each keeps its place and its ticket, and
    /// nobody joins or leaves.
    pub fn handles_mut(&mut self) -> (live: Vec<&mut H>)
        ensures
            live@.len() == old(self)@.handles.len(),
            forall|i: int| 0 <= i < live@.len() ==> *(#[trigger] live@[i]) == old(self)@.handles[i],
            final(self)@.handles.len() == old(self)@.handles.len(),
            forall|i: int|
                0 <= i < live@.len() ==> final(self)@.handles[i] == *final(#[trigger] live@[i]),
            final(self)@.tickets == old(self)@.tickets,
            final(self)@.issued == old(self)@.issued,
            old(self)@.wf() ==> final(self)@.wf(),
    {
        each_mut(self.handles.as_mut_slice())
    }

    /// Ends a broadcast pass: `delivered[i]` says whether the delivery to
    /// the `i`-th live handle succeeded. Handles whose delivery failed are
    /// dropped; all others stay, in their old order. A handle for which no
    /// outcome is given stays too, and outcomes beyond the live set are
    /// ignored.
    pub fn prune(&mut self, delivered: &[bool])
        ensures
            final(self)@ == old(self)@.prune(delivered@),
            old(self)@.wf() ==> final(self)@.wf(),
    {
        let mut handles: Vec<H> = Vec::new();
        std::mem::swap(&mut self.handles, &mut handles);
        let ghost before = handles@;
        let count: usize = handles.len();
        let mut kept: Vec<H> = Vec::new();
        let mut position: usize = 0;
        for handle in it: handles
            invariant
                position == it.index(),
                it.seq() == before,
                before.len() == count,
                kept@ == survivors(before.take(position as int), delivered@),
        {
            proof {
                lemma_survivors_extend(before, delivered@, position as int);
            }
            if position >= delivered.len() || delivered[position] {
                kept.push(handle);
            }
            position = position + 1;
        }
        self.handles = kept;
        proof {
            assert(before.take(position as int) =~= before);
            self.tickets@ = survivors(self.tickets@, delivered@);
            if old(self)@.wf() {
                lemma_prune_wf(old(self)@, delivered@);
            }
        }
    }
}

} // verus!
