//! The broadcast bus: one publisher, many subscriptions, each with its own
//! unbounded queue, so a slow subscriber holds back nobody else.

use crate::event::RoomTaggedEvent;
use std::collections::VecDeque;
use vstd::prelude::*;

verus! {

/// What a bus operation can fail with.
#[derive(Clone, Copy, Debug, PartialEq, Eq, Structural)]
pub enum BusError {
    /// `publish` after `shutdown`.
    BusClosed,
    /// `next` on a subscription that was closed (or never opened here).
    SubscriptionClosed,
}

/// A receive handle of one subscription.
#[derive(Clone, Copy, Debug, PartialEq, Eq, Structural)]
pub struct Subscription {
    slot: usize,
}

impl Subscription {
    pub closed spec fn slot_spec(&self) -> nat {
        self.slot as nat
    }
}

/// The bus. Every subscription ever opened keeps a slot: its queue while open,
/// `None` once closed, so that a closed handle is never reused.
pub struct Bus {
    queues: Vec<Option<VecDeque<RoomTaggedEvent>>>,
    shut: bool,
    /// Every item accepted by `publish`, in order.
    history: Ghost<Seq<RoomTaggedEvent>>,
    /// For each slot, how many items had been published when it was opened.
    starts: Ghost<Seq<nat>>,
    /// For each slot, how many items `next` has handed out.
    taken: Ghost<Seq<nat>>,
}

impl Bus {
    pub closed spec fn history(&self) -> Seq<RoomTaggedEvent> {
        self.history@
    }

    pub closed spec fn slots(&self) -> nat {
        self.queues@.len()
    }

    pub closed spec fn is_shut(&self) -> bool {
        self.shut
    }

    pub closed spec fn is_open(&self, s: nat) -> bool {
        s < self.queues@.len() && self.queues@[s as int] is Some
    }

    /// The items queued for slot `s`, oldest first.
    pub closed spec fn pending(&self, s: nat) -> Seq<RoomTaggedEvent> {
        self.queues@[s as int].unwrap()@
    }

    pub closed spec fn start_of(&self, s: nat) -> nat {
        self.starts@[s as int]
    }

    pub closed spec fn taken(&self, s: nat) -> nat {
        self.taken@[s as int]
    }

    /// The queue of each open slot is what was published since it opened,
    /// less what it has taken.
    pub closed spec fn wf(&self) -> bool {
        &&& self.starts@.len() == self.queues@.len()
        &&& self.taken@.len() == self.queues@.len()
        &&& forall|s: int|
            0 <= s < self.queues@.len() ==> #[trigger] self.starts@[s] + self.taken@[s]
                <= self.history@.len()
        &&& forall|s: int|
            0 <= s < self.queues@.len() && (#[trigger] self.queues@[s]) is Some ==> self.queues@[s].unwrap()@
                == self.history@.subrange(
                (self.starts@[s] + self.taken@[s]) as int,
                self.history@.len() as int,
            )
    }

    /// Slot `s` reads the same in `self` and `other`.
    pub open spec fn same_slot(&self, other: &Bus, s: nat) -> bool {
        &&& self.is_open(s) == other.is_open(s)
        &&& self.start_of(s) == other.start_of(s)
        &&& self.taken(s) == other.taken(s)
        &&& self.is_open(s) ==> self.pending(s) == other.pending(s)
    }

    /// `self` is `before` with `added` appended to the queue of every open
    /// slot, and no slot opened, closed or advanced.
    pub open spec fn extends_all(&self, before: &Bus, added: Seq<RoomTaggedEvent>) -> bool {
        &&& self.slots() == before.slots()
        &&& forall|s: nat|
            s < before.slots() ==> {
                &&& #[trigger] self.is_open(s) == before.is_open(s)
                &&& self.start_of(s) == before.start_of(s)
                &&& self.taken(s) == before.taken(s)
                &&& before.is_open(s) ==> self.pending(s) == before.pending(s) + added
            }
    }

    /// A bus with no subscriptions and nothing published.
    pub fn new() -> (r: Bus)
        ensures
            r.wf(),
            !r.is_shut(),
            r.slots() == 0,
            r.history() == Seq::<RoomTaggedEvent>::empty(),
    {
        Bus {
            queues: Vec::new(),
            shut: false,
            history: Ghost(Seq::empty()),
            starts: Ghost(Seq::empty()),
            taken: Ghost(Seq::empty()),
        }
    }

    /// Opens a subscription. It receives what is published from now on, and
    /// nothing published before.
    pub fn subscribe(&mut self) -> (r: Subscription)
        requires
            old(self).wf(),
        ensures
            final(self).wf(),
            r.slot_spec() == old(self).slots(),
            final(self).slots() == old(self).slots() + 1,
            final(self).is_open(r.slot_spec()),
            final(self).start_of(r.slot_spec()) == old(self).history().len(),
            final(self).taken(r.slot_spec()) == 0,
            final(self).pending(r.slot_spec()) == Seq::<RoomTaggedEvent>::empty(),
            final(self).history() == old(self).history(),
            final(self).is_shut() == old(self).is_shut(),
            forall|s: nat| s < old(self).slots() ==> #[trigger] final(self).same_slot(old(self), s),
    {
        let slot = self.queues.len();
        self.queues.push(Some(VecDeque::new()));
        self.starts = Ghost(self.starts@.push(self.history@.len()));
        self.taken = Ghost(self.taken@.push(0));
        assert(self.history@.subrange(self.history@.len() as int, self.history@.len() as int)
            =~= Seq::<RoomTaggedEvent>::empty());
        Subscription { slot }
    }

    /// Hands `item` to every open subscription, in publish order. Fails only
    /// after `shutdown`; with no subscription it is accepted and goes nowhere.
    pub fn publish(&mut self, item: RoomTaggedEvent) -> (r: Result<(), BusError>)
        requires
            old(self).wf(),
        ensures
            final(self).wf(),
            final(self).is_shut() == old(self).is_shut(),
            final(self).slots() == old(self).slots(),
            old(self).is_shut() ==> r == Err::<(), BusError>(BusError::BusClosed) && final(self).history() == old(self).history()
                && forall|s: nat| s < old(self).slots() ==> #[trigger] final(self).same_slot(old(self), s),
            !old(self).is_shut() ==> {
                &&& r is Ok
                &&& final(self).history() == old(self).history().push(item)
                &&& final(self).extends_all(old(self), seq![item])
            },
    {
        if self.shut {
            return Err(BusError::BusClosed);
        }
        let ghost old_queues = self.queues@;
        let ghost h = self.history@.push(item);
        let mut i: usize = 0;
        while i < self.queues.len()
            invariant
                self.queues@.len() == old_queues.len(),
                i <= self.queues@.len(),
                self.starts == old(self).starts,
                self.taken == old(self).taken,
                self.history == old(self).history,
                self.shut == old(self).shut,
                old_queues == old(self).queues@,
                forall|s: int|
                    0 <= s < old_queues.len() ==> (#[trigger] self.queues@[s] is Some) == (
                    old_queues[s] is Some),
                forall|s: int|
                    0 <= s < i && (#[trigger] self.queues@[s]) is Some ==> self.queues@[s].unwrap()@
                        == old_queues[s].unwrap()@.push(item),
                forall|s: int|
                    i <= s < old_queues.len() ==> #[trigger] self.queues@[s] == old_queues[s],
            decreases old_queues.len() - i,
        {
            let mut slot: Option<VecDeque<RoomTaggedEvent>> = None;
            self.queues.set_and_swap(i, &mut slot);
            match slot {
                Some(mut q) => {
                    q.push_back(item.duplicate());
                    self.queues.set(i, Some(q));
                },
                None => {
                    self.queues.set(i, None);
                },
            }
            i = i + 1;
        }
        self.history = Ghost(h);
        assert forall|s: int|
            0 <= s < self.queues@.len() && (#[trigger] self.queues@[s]) is Some implies self.queues@[s].unwrap()@
                == self.history@.subrange(
                (self.starts@[s] + self.taken@[s]) as int,
                self.history@.len() as int,
            ) by {
            assert(old(self).queues@[s] == old_queues[s]);
            assert(old(self).starts@[s] + old(self).taken@[s] <= old(self).history@.len());
            assert(self.history@.subrange((self.starts@[s] + self.taken@[s]) as int, self.history@.len() as int)
                =~= old_queues[s].unwrap()@.push(item));
        }
        assert forall|s: nat| s < old(self).slots() && #[trigger] old(self).is_open(s) implies self.pending(s)
            == old(self).pending(s) + seq![item] by {
            assert(old(self).pending(s) + seq![item] =~= old(self).pending(s).push(item));
        }
        Ok(())
    }

    /// Takes the oldest item queued for `sub`: `None` when its queue is empty
    /// (a caller waits and asks again), an error once it is closed.
    pub fn next(&mut self, sub: &Subscription) -> (r: Result<Option<RoomTaggedEvent>, BusError>)
        requires
            old(self).wf(),
        ensures
            final(self).wf(),
            final(self).is_shut() == old(self).is_shut(),
            final(self).slots() == old(self).slots(),
            final(self).history() == old(self).history(),
            forall|s: nat| s < old(self).slots() && s != sub.slot_spec() ==> #[trigger] final(self).same_slot(old(self), s),
            !old(self).is_open(sub.slot_spec()) ==> r == Err::<Option<RoomTaggedEvent>, BusError>(BusError::SubscriptionClosed)
                && final(self).same_slot(old(self), sub.slot_spec()),
            old(self).is_open(sub.slot_spec()) && old(self).pending(sub.slot_spec()).len() == 0 ==> r
                == Ok::<Option<RoomTaggedEvent>, BusError>(None) && final(self).same_slot(old(self), sub.slot_spec()),
            old(self).is_open(sub.slot_spec()) && old(self).pending(sub.slot_spec()).len() > 0 ==> {
                let s = sub.slot_spec();
                &&& r == Ok::<Option<RoomTaggedEvent>, BusError>(Some(old(self).history()[(old(self).start_of(s) + old(self).taken(s)) as int]))
                &&& r == Ok::<Option<RoomTaggedEvent>, BusError>(Some(old(self).pending(s)[0]))
                &&& final(self).is_open(s)
                &&& final(self).start_of(s) == old(self).start_of(s)
                &&& final(self).taken(s) == old(self).taken(s) + 1
                &&& final(self).pending(s) == old(self).pending(s).drop_first()
            },
    {
        let i = sub.slot;
        if i >= self.queues.len() {
            return Err(BusError::SubscriptionClosed);
        }
        let mut slot: Option<VecDeque<RoomTaggedEvent>> = None;
        self.queues.set_and_swap(i, &mut slot);
        match slot {
            Some(mut q) => {
                let ghost s = i as int;
                let got = q.pop_front();
                self.queues.set(i, Some(q));
                match got {
                    Some(item) => {
                        self.taken = Ghost(self.taken@.update(s, self.taken@[s] + 1));
                        assert(self.queues@[s].unwrap()@ =~= self.history@.subrange(
                            (self.starts@[s] + self.taken@[s]) as int,
                            self.history@.len() as int,
                        ));
                        Ok(Some(item))
                    },
                    None => Ok(None),
                }
            },
            None => {
                self.queues.set(i, None);
                Err(BusError::SubscriptionClosed)
            },
        }
    }

    /// Closes `sub` and drops its queue. Returns whether it was open: closing
    /// it again does nothing and returns `false`.
    pub fn close(&mut self, sub: &Subscription) -> (r: bool)
        requires
            old(self).wf(),
        ensures
            final(self).wf(),
            r == old(self).is_open(sub.slot_spec()),
            !r ==> *final(self) == *old(self),
            !final(self).is_open(sub.slot_spec()),
            final(self).is_shut() == old(self).is_shut(),
            final(self).slots() == old(self).slots(),
            final(self).history() == old(self).history(),
            forall|s: nat| s < old(self).slots() && s != sub.slot_spec() ==> #[trigger] final(self).same_slot(old(self), s),
            final(self).start_of(sub.slot_spec()) == old(self).start_of(sub.slot_spec()),
            final(self).taken(sub.slot_spec()) == old(self).taken(sub.slot_spec()),
    {
        let i = sub.slot;
        if i >= self.queues.len() {
            return false;
        }
        if self.queues[i].is_none() {
            return false;
        }
        self.queues.set(i, None);
        true
    }

    /// Whether `shutdown` has been called.
    pub fn shut_down(&self) -> (r: bool)
        ensures
            r == self.is_shut(),
    {
        self.shut
    }

    /// The number of subscriptions ever opened.
    pub fn subscription_count(&self) -> (r: usize)
        ensures
            r == self.slots(),
    {
        self.queues.len()
    }

    /// Refuses every later `publish`. Subscriptions keep what is queued.
    pub fn shutdown(&mut self)
        requires
            old(self).wf(),
        ensures
            final(self).wf(),
            final(self).is_shut(),
            final(self).slots() == old(self).slots(),
            final(self).history() == old(self).history(),
            forall|s: nat| s < old(self).slots() ==> #[trigger] final(self).same_slot(old(self), s),
    {
        self.shut = true;
    }
}

/// Appending in two steps is appending the concatenation.
pub proof fn lemma_extends_all_trans(
    a: &Bus,
    b: &Bus,
    c: &Bus,
    x: Seq<RoomTaggedEvent>,
    y: Seq<RoomTaggedEvent>,
)
    requires
        b.extends_all(a, x),
        c.extends_all(b, y),
    ensures
        c.extends_all(a, x + y),
{
    assert forall|s: nat| s < a.slots() implies {
        &&& #[trigger] c.is_open(s) == a.is_open(s)
        &&& c.start_of(s) == a.start_of(s)
        &&& c.taken(s) == a.taken(s)
        &&& a.is_open(s) ==> c.pending(s) == a.pending(s) + (x + y)
    } by {
        assert(b.is_open(s) == a.is_open(s));
        assert(c.is_open(s) == b.is_open(s));
        if a.is_open(s) {
            assert(a.pending(s) + (x + y) =~= (a.pending(s) + x) + y);
        }
    }
}

/// Appending nothing leaves every slot as it is.
pub proof fn lemma_extends_all_refl(a: &Bus)
    ensures
        a.extends_all(a, Seq::empty()),
{
    assert forall|s: nat| s < a.slots() && #[trigger] a.is_open(s) implies a.pending(s) == a.pending(s)
        + Seq::<RoomTaggedEvent>::empty() by {
        assert(a.pending(s) + Seq::<RoomTaggedEvent>::empty() =~= a.pending(s));
    }
}

/// Delivery law: an open subscription's queue is exactly the items published
/// since it was opened that it has not yet taken, in publish order. With
/// `subscribe` (which opens at the current end of the history) and `next`
/// (which hands out `history[start + taken]`), every subscription receives
/// each item published while it is open once, in order, and never an item
/// published before it was opened.
pub proof fn lemma_pending_is_unseen_suffix(bus: &Bus, s: nat)
    requires
        bus.wf(),
        bus.is_open(s),
    ensures
        bus.start_of(s) + bus.taken(s) <= bus.history().len(),
        bus.pending(s) == bus.history().subrange(
            (bus.start_of(s) + bus.taken(s)) as int,
            bus.history().len() as int,
        ),
        forall|i: int|
            0 <= i < bus.pending(s).len() ==> #[trigger] bus.pending(s)[i] == bus.history()[bus.start_of(s)
                + bus.taken(s) + i] && bus.start_of(s) <= bus.start_of(s) + bus.taken(s) + i
                < bus.history().len(),
{
    assert(bus.queues@[s as int] is Some);
}

} // verus!
