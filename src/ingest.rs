//! The ingestion side: each event of the feed is classified and published
//! once per matching room.

use crate::bus::{lemma_extends_all_refl, lemma_extends_all_trans, Bus, BusError};
use crate::event::{Event, RoomTaggedEvent};
use crate::registry::{matching_ids, Registry};
use vstd::prelude::*;

verus! {

/// One record taken from the upstream feed.
#[derive(Clone, Debug)]
pub enum FeedRecord {
    /// A well-formed event.
    Event(Event),
    /// A record that did not parse as an event; it is skipped.
    Malformed,
    /// The feed ended, or failed for good.
    End,
}

/// What the ingestion loop did with one record.
#[derive(Clone, Copy, Debug, PartialEq, Eq, Structural)]
pub enum IngestOutcome {
    /// The event went out tagged with this many rooms (possibly none).
    Published(usize),
    /// The record was malformed and skipped.
    Skipped,
    /// The feed is over: the loop has stopped, for good.
    Stopped,
    /// The bus refused the event because it was shut down.
    BusClosed,
}

/// `items` is `event` tagged with each of `ids`, in order.
pub open spec fn tagged_with(items: Seq<RoomTaggedEvent>, ids: Seq<Seq<char>>, event: Event) -> bool {
    &&& items.len() == ids.len()
    &&& forall|i: int|
        0 <= i < items.len() ==> (#[trigger] items[i]).room_id@ == ids[i] && items[i].event == event
}

/// `after` is `before` with `event` published once per room it matches, in
/// registry order, and appended to every open subscription's queue.
pub open spec fn publishes(before: &Bus, after: &Bus, reg: &Registry, event: Event) -> bool {
    let n = before.history().len();
    let added = after.history().subrange(n as int, after.history().len() as int);
    &&& after.is_shut() == before.is_shut()
    &&& n <= after.history().len()
    &&& after.history().subrange(0, n as int) == before.history()
    &&& tagged_with(added, matching_ids(reg.rooms_spec(), event.text@), event)
    &&& after.extends_all(before, added)
}

/// The event tagged with every room it matches, in registry order.
pub fn tag_event(reg: &Registry, event: &Event) -> (r: Vec<RoomTaggedEvent>)
    requires
        reg.wf(),
    ensures
        tagged_with(r@, matching_ids(reg.rooms_spec(), event.text@), *event),
{
    let ids = reg.classify(event.text.as_str());
    let ghost want = matching_ids(reg.rooms_spec(), event.text@);
    assert(ids@.len() == want.len() && forall|i: int| 0 <= i < ids@.len() ==> #[trigger] ids@[i]@ == want[i]) by {
        assert forall|i: int| 0 <= i < ids@.len() implies #[trigger] ids@[i]@ == want[i] by {
            assert(ids@.map_values(|s: String| s@)[i] == ids@[i]@);
        }
    }
    let mut out: Vec<RoomTaggedEvent> = Vec::new();
    let mut i: usize = 0;
    while i < ids.len()
        invariant
            i <= ids@.len(),
            ids@.len() == want.len(),
            forall|j: int| 0 <= j < ids@.len() ==> #[trigger] ids@[j]@ == want[j],
            tagged_with(out@, want.take(i as int), *event),
        decreases ids@.len() - i,
    {
        out.push(RoomTaggedEvent::new(ids[i].as_str(), event));
        i = i + 1;
    }
    assert(want.take(i as int) =~= want);
    out
}

/// Publishes `event` once for every room it matches. Returns how many went
/// out; fails, publishing nothing, when the bus is shut down.
pub fn publish_event(reg: &Registry, bus: &mut Bus, event: &Event) -> (r: Result<usize, BusError>)
    requires
        reg.wf(),
        old(bus).wf(),
    ensures
        final(bus).wf(),
        final(bus).is_shut() == old(bus).is_shut(),
        final(bus).slots() == old(bus).slots(),
        old(bus).is_shut() ==> r == Err::<usize, BusError>(BusError::BusClosed) && *final(bus)
            == *old(bus),
        !old(bus).is_shut() ==> publishes(old(bus), final(bus), reg, *event) && r
            == Ok::<usize, BusError>(matching_ids(reg.rooms_spec(), event.text@).len() as usize),
{
    if bus.shut_down() {
        return Err(BusError::BusClosed);
    }
    let tags = tag_event(reg, event);
    let ghost want = matching_ids(reg.rooms_spec(), event.text@);
    let ghost n = old(bus).history().len();
    let mut i: usize = 0;
    proof {
        lemma_extends_all_refl(&*bus);
        assert(tags@.take(0) =~= Seq::<RoomTaggedEvent>::empty());
        assert(bus.history() =~= old(bus).history() + tags@.take(0));
    }
    while i < tags.len()
        invariant
            i <= tags@.len(),
            tagged_with(tags@, want, *event),
            bus.wf(),
            !bus.is_shut(),
            n == old(bus).history().len(),
            bus.history() == old(bus).history() + tags@.take(i as int),
            bus.extends_all(old(bus), tags@.take(i as int)),
        decreases tags@.len() - i,
    {
        let item = tags[i].duplicate();
        let ghost before = *bus;
        let _ = bus.publish(item);
        proof {
            lemma_extends_all_trans(old(bus), &before, &*bus, tags@.take(i as int), seq![tags@[i as int]]);
            assert(tags@.take(i as int) + seq![tags@[i as int]] =~= tags@.take(i + 1));
            assert(bus.history() =~= old(bus).history() + tags@.take(i + 1));
        }
        i = i + 1;
    }
    assert(tags@.take(i as int) =~= tags@);
    assert(bus.history().subrange(n as int, bus.history().len() as int) =~= tags@);
    assert(bus.history().subrange(0, n as int) =~= old(bus).history());
    Ok(tags.len())
}

/// The ingestion loop's state: running until the feed ends.
pub struct Ingestor {
    stopped: bool,
}

impl Ingestor {
    pub closed spec fn is_stopped(&self) -> bool {
        self.stopped
    }

    /// A running loop.
    pub fn new() -> (r: Ingestor)
        ensures
            !r.is_stopped(),
    {
        Ingestor { stopped: false }
    }

    /// Handles one feed record: an event is published to every room it
    /// matches, a malformed record is skipped, the end of the feed stops the
    /// loop. A stopped loop handles nothing more.
    pub fn step(&mut self, reg: &Registry, bus: &mut Bus, record: &FeedRecord) -> (r: IngestOutcome)
        requires
            reg.wf(),
            old(bus).wf(),
        ensures
            final(bus).wf(),
            old(self).is_stopped() ==> r == IngestOutcome::Stopped && final(self).is_stopped()
                && *final(bus) == *old(bus),
            !old(self).is_stopped() ==> match *record {
                FeedRecord::End => r == IngestOutcome::Stopped && final(self).is_stopped()
                    && *final(bus) == *old(bus),
                FeedRecord::Malformed => r == IngestOutcome::Skipped && !final(self).is_stopped()
                    && *final(bus) == *old(bus),
                FeedRecord::Event(e) => {
                    &&& !final(self).is_stopped()
                    &&& old(bus).is_shut() ==> r == IngestOutcome::BusClosed && *final(bus)
                        == *old(bus)
                    &&& !old(bus).is_shut() ==> publishes(old(bus), final(bus), reg, e)
                    &&& !old(bus).is_shut() ==> r == IngestOutcome::Published(
                        matching_ids(reg.rooms_spec(), e.text@).len() as usize,
                    )
                },
            },
    {
        if self.stopped {
            return IngestOutcome::Stopped;
        }
        match record {
            FeedRecord::End => {
                self.stopped = true;
                IngestOutcome::Stopped
            },
            FeedRecord::Malformed => IngestOutcome::Skipped,
            FeedRecord::Event(e) => match publish_event(reg, bus, e) {
                Ok(n) => IngestOutcome::Published(n),
                Err(_) => IngestOutcome::BusClosed,
            },
        }
    }

    /// Whether the feed has ended.
    pub fn stopped(&self) -> (r: bool)
        ensures
            r == self.is_stopped(),
    {
        self.stopped
    }
}

} // verus!
