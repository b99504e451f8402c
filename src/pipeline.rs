//! The batching stages between the capture loop and the log file: the
//! aggregator that keeps interesting sightings and hands over full batches,
//! and the drain that the log writer runs on the shared buffer.
use vstd::prelude::*;
use vstd::std_specs::hash::group_hash_axioms;
use crate::capture::CapturedEvent;
use crate::frame::{tags_view, SSID_TAG};

verus! {

broadcast use group_hash_axioms;

/// Number of accepted sightings that make a batch.
pub const BATCH_THRESHOLD: usize = 20;

/// A network name worth logging: not empty and not all zero bytes.
pub open spec fn is_interesting_ssid(ssid: Seq<u8>) -> bool {
    ssid.len() > 0 && exists|i: int| 0 <= i < ssid.len() && ssid[i] != 0
}

/// Whether the aggregator keeps a sighting: it carries an interesting
/// network name.
pub open spec fn accepts(ev: CapturedEvent) -> bool {
    let tags = tags_view(ev.broadcast.found_tags@);
    tags.contains_key(SSID_TAG) && is_interesting_ssid(tags[SSID_TAG])
}

/// Whether `ssid` is a network name worth logging.
pub fn ssid_is_interesting(ssid: &[u8]) -> (r: bool)
    ensures
        r == is_interesting_ssid(ssid@),
{
    let mut i: usize = 0;
    while i < ssid.len()
        invariant
            i <= ssid@.len(),
            forall|k: int| 0 <= k < i ==> ssid@[k] == 0,
        decreases ssid@.len() - i,
    {
        if ssid[i] != 0 {
            return true;
        }
        i += 1;
    }
    false
}

/// Whether the aggregator keeps `ev`.
pub fn is_accepted(ev: &CapturedEvent) -> (r: bool)
    ensures
        r == accepts(*ev),
{
    match ev.broadcast.found_tags.get(&SSID_TAG) {
        Some(ssid) => ssid_is_interesting(ssid.as_slice()),
        None => false,
    }
}

/// The batch, and the batch handed over if any, after offering `ev` to an
/// aggregator holding `batch`.
pub open spec fn spec_offer(batch: Seq<CapturedEvent>, ev: CapturedEvent) -> (
    Seq<CapturedEvent>,
    Option<Seq<CapturedEvent>>,
) {
    if !accepts(ev) {
        (batch, None)
    } else if batch.len() + 1 >= BATCH_THRESHOLD {
        (Seq::empty(), Some(batch.push(ev)))
    } else {
        (batch.push(ev), None)
    }
}

/// The batch after offering each of `evs` in turn.
pub open spec fn batch_after(batch: Seq<CapturedEvent>, evs: Seq<CapturedEvent>) -> Seq<
    CapturedEvent,
>
    decreases evs.len(),
{
    if evs.len() == 0 {
        batch
    } else {
        batch_after(spec_offer(batch, evs[0]).0, evs.drop_first())
    }
}

/// Collects accepted sightings until a batch is full.
pub struct Aggregator {
    batch: Vec<CapturedEvent>,
}

impl View for Aggregator {
    type V = Seq<CapturedEvent>;

    closed spec fn view(&self) -> Seq<CapturedEvent> {
        self.batch@
    }
}

impl Aggregator {
    /// A batch never reaches the threshold while the aggregator holds it.
    pub closed spec fn wf(&self) -> bool {
        self.batch@.len() < BATCH_THRESHOLD
    }

    pub fn new() -> (r: Aggregator)
        ensures
            r.wf(),
            r@ == Seq::<CapturedEvent>::empty(),
    {
        Aggregator { batch: Vec::new() }
    }

    /// Number of sightings in the batch being filled.
    pub fn pending(&self) -> (r: usize)
        ensures
            r == self@.len(),
    {
        self.batch.len()
    }

    /// Offers a sighting. An accepted one joins the batch; when that makes
    /// the batch full, the whole batch is returned, to be moved into the
    /// shared buffer, and a new empty batch is started.
    pub fn offer(&mut self, ev: CapturedEvent) -> (r: Option<Vec<CapturedEvent>>)
        requires
            old(self).wf(),
        ensures
            final(self).wf(),
            final(self)@ == spec_offer(old(self)@, ev).0,
            match r {
                Some(b) => spec_offer(old(self)@, ev).1 == Some(b@),
                None => spec_offer(old(self)@, ev).1 is None,
            },
    {
        if !is_accepted(&ev) {
            return None;
        }
        self.batch.push(ev);
        if self.batch.len() >= BATCH_THRESHOLD {
            let mut full: Vec<CapturedEvent> = Vec::new();
            core::mem::swap(&mut full, &mut self.batch);
            Some(full)
        } else {
            None
        }
    }
}

/// Offering accepted sightings to an aggregator with room for them
/// appends them to its batch in order.
pub proof fn lemma_accepted_are_appended(batch: Seq<CapturedEvent>, evs: Seq<CapturedEvent>)
    requires
        batch.len() + evs.len() < BATCH_THRESHOLD,
        forall|i: int| 0 <= i < evs.len() ==> accepts(#[trigger] evs[i]),
    ensures
        batch_after(batch, evs) == batch + evs,
    decreases evs.len(),
{
    if evs.len() > 0 {
        lemma_accepted_are_appended(batch.push(evs[0]), evs.drop_first());
        assert(batch.push(evs[0]) + evs.drop_first() =~= batch + evs);
    }
}

/// Starting from an empty batch, the twentieth accepted sighting hands
/// over a batch of exactly twenty, in the order offered, and leaves the
/// aggregator's batch empty.
pub proof fn lemma_full_batch_handed_over(evs: Seq<CapturedEvent>)
    requires
        evs.len() == BATCH_THRESHOLD,
        forall|i: int| 0 <= i < evs.len() ==> accepts(#[trigger] evs[i]),
    ensures
        spec_offer(batch_after(Seq::empty(), evs.take(19)), evs[19]) == (
            Seq::<CapturedEvent>::empty(),
            Some(evs),
        ),
        evs.len() == 20,
{
    let first = evs.take(19);
    assert forall|i: int| 0 <= i < first.len() implies accepts(#[trigger] first[i]) by {
        assert(first[i] == evs[i]);
    }
    lemma_accepted_are_appended(Seq::empty(), first);
    assert(Seq::<CapturedEvent>::empty() + first =~= first);
    assert(first.push(evs[19]) =~= evs);
}

/// What the log writer takes from the shared buffer, and what it leaves:
/// everything once the buffer holds a full batch, else nothing.
pub open spec fn spec_drain(shared: Seq<CapturedEvent>) -> (Seq<CapturedEvent>, Seq<CapturedEvent>) {
    if shared.len() >= BATCH_THRESHOLD {
        (shared, Seq::empty())
    } else {
        (Seq::empty(), shared)
    }
}

/// Moves a full batch into the shared buffer, after what it already holds.
pub fn hand_over(shared: &mut Vec<CapturedEvent>, batch: Vec<CapturedEvent>)
    ensures
        final(shared)@ == old(shared)@ + batch@,
{
    let mut batch = batch;
    shared.append(&mut batch);
}

/// Takes the whole content of the shared buffer once it holds at least a
/// full batch, leaving it empty; otherwise takes nothing. Meant to run with
/// the buffer's lock held, the writing done after the lock is released.
pub fn take_ready(shared: &mut Vec<CapturedEvent>) -> (r: Vec<CapturedEvent>)
    ensures
        r@ == spec_drain(old(shared)@).0,
        final(shared)@ == spec_drain(old(shared)@).1,
{
    let mut taken: Vec<CapturedEvent> = Vec::new();
    if shared.len() >= BATCH_THRESHOLD {
        core::mem::swap(&mut taken, shared);
    }
    taken
}

/// Draining an empty buffer takes nothing and leaves it empty, so running
/// the drain again on what a drain left changes nothing more.
pub proof fn lemma_drain_idempotent(shared: Seq<CapturedEvent>)
    ensures
        spec_drain(Seq::empty()) == (Seq::<CapturedEvent>::empty(), Seq::<CapturedEvent>::empty()),
        spec_drain(spec_drain(shared).1) == (Seq::<CapturedEvent>::empty(), spec_drain(shared).1),
{
}

} // verus!
