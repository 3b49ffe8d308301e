//! The per-connection session: the room a client watches, and what to do with
//! each arrival on its merged input (client control messages and bus items).

use crate::bus::{Bus, Subscription};
use crate::event::{Event, RoomTaggedEvent};
use crate::registry::Registry;
use vstd::prelude::*;

verus! {

/// One arrival on a session's merged input, in arrival order.
#[derive(Clone, Debug)]
pub enum SessionInput {
    /// A text frame from the client: the id of the room to watch.
    Control(String),
    /// An item taken from the session's bus subscription.
    Item(RoomTaggedEvent),
    /// Any other frame from the client.
    Unsupported,
    /// The connection closed, or sending to the client failed.
    Disconnected,
}

/// What the caller does after a step.
#[derive(Clone, Debug)]
pub enum SessionAction {
    /// Send this event to the client.
    Forward(Event),
    /// Nothing to send.
    Ignore,
    /// The session is closed: end the connection.
    Close,
}

/// The room watched after `input`, starting from `current`: a control message
/// naming a registered room selects it, any other control message selects
/// none (so nothing is forwarded until a registered room is named).
pub open spec fn room_after(reg: &Registry, current: Option<Seq<char>>, input: SessionInput) -> Option<
    Seq<char>,
> {
    match input {
        SessionInput::Control(m) => if reg.has_room(m@) {
            Some(m@)
        } else {
            None
        },
        _ => current,
    }
}

/// The room watched after a run of inputs.
pub open spec fn room_after_all(
    reg: &Registry,
    current: Option<Seq<char>>,
    inputs: Seq<SessionInput>,
) -> Option<Seq<char>>
    decreases inputs.len(),
{
    if inputs.len() == 0 {
        current
    } else {
        room_after(reg, room_after_all(reg, current, inputs.drop_last()), inputs.last())
    }
}

/// Whether a session watching `current` forwards `input`: it is an item
/// tagged with that very room.
pub open spec fn forwards(current: Option<Seq<char>>, input: SessionInput) -> bool {
    match input {
        SessionInput::Item(msg) => current == Some(msg.room_id@),
        _ => false,
    }
}

/// Whether an input ends the session.
pub open spec fn ends_session(input: SessionInput) -> bool {
    input is Unsupported || input is Disconnected
}

/// One client connection's state.
pub struct Session {
    current: Option<String>,
    subscription: Subscription,
    closed: bool,
}

impl Session {
    pub closed spec fn current_spec(&self) -> Option<Seq<char>> {
        match self.current {
            Some(s) => Some(s@),
            None => None,
        }
    }

    pub closed spec fn is_closed(&self) -> bool {
        self.closed
    }

    pub closed spec fn subscription_spec(&self) -> Subscription {
        self.subscription
    }

    /// Opens a session on a new bus subscription, watching the default room.
    pub fn open(reg: &Registry, bus: &mut Bus) -> (r: Session)
        requires
            reg.wf(),
            old(bus).wf(),
        ensures
            final(bus).wf(),
            !r.is_closed(),
            r.current_spec() == Some(reg.default_spec()),
            r.subscription_spec().slot_spec() == old(bus).slots(),
            final(bus).is_open(r.subscription_spec().slot_spec()),
            final(bus).start_of(r.subscription_spec().slot_spec()) == old(bus).history().len(),
            final(bus).taken(r.subscription_spec().slot_spec()) == 0,
            final(bus).slots() == old(bus).slots() + 1,
            final(bus).history() == old(bus).history(),
            final(bus).is_shut() == old(bus).is_shut(),
            forall|s: nat| s < old(bus).slots() ==> #[trigger] final(bus).same_slot(old(bus), s),
    {
        let subscription = bus.subscribe();
        let room = reg.default_room().to_owned();
        Session { current: Some(room), subscription, closed: false }
    }

    /// Processes one arrival.
    pub fn step(&mut self, reg: &Registry, bus: &mut Bus, input: SessionInput) -> (r: SessionAction)
        requires
            reg.wf(),
            old(bus).wf(),
        ensures
            final(bus).wf(),
            final(self).subscription_spec() == old(self).subscription_spec(),
            old(self).is_closed() ==> {
                &&& r is Close
                &&& *final(self) == *old(self)
                &&& *final(bus) == *old(bus)
            },
            !old(self).is_closed() && ends_session(input) ==> {
                &&& r is Close
                &&& final(self).is_closed()
                &&& final(self).current_spec() == old(self).current_spec()
                &&& !final(bus).is_open(old(self).subscription_spec().slot_spec())
                &&& final(bus).slots() == old(bus).slots()
                &&& final(bus).history() == old(bus).history()
                &&& final(bus).is_shut() == old(bus).is_shut()
                &&& forall|s: nat|
                    s < old(bus).slots() && s != old(self).subscription_spec().slot_spec()
                        ==> #[trigger] final(bus).same_slot(old(bus), s)
            },
            !old(self).is_closed() && !ends_session(input) ==> {
                &&& !final(self).is_closed()
                &&& final(self).current_spec() == room_after(reg, old(self).current_spec(), input)
                &&& *final(bus) == *old(bus)
                &&& forwards(old(self).current_spec(), input) ==> r == SessionAction::Forward(
                    input->Item_0.event,
                )
                &&& !forwards(old(self).current_spec(), input) ==> r is Ignore
            },
    {
        if self.closed {
            return SessionAction::Close;
        }
        match input {
            SessionInput::Control(m) => {
                match reg.lookup(m.as_str()) {
                    Some(_) => {
                        self.current = Some(m);
                    },
                    None => {
                        self.current = None;
                    },
                }
                SessionAction::Ignore
            },
            SessionInput::Item(msg) => {
                let hit = match &self.current {
                    Some(room) => *room == msg.room_id,
                    None => false,
                };
                if hit {
                    SessionAction::Forward(msg.event)
                } else {
                    SessionAction::Ignore
                }
            },
            _ => {
                self.close(bus);
                SessionAction::Close
            },
        }
    }

    /// Closes the session and releases its subscription. Returns whether this
    /// call released it: a second close changes nothing and returns `false`.
    pub fn close(&mut self, bus: &mut Bus) -> (r: bool)
        requires
            old(bus).wf(),
        ensures
            final(bus).wf(),
            final(self).is_closed(),
            final(self).current_spec() == old(self).current_spec(),
            final(self).subscription_spec() == old(self).subscription_spec(),
            old(self).is_closed() ==> !r && *final(self) == *old(self) && *final(bus) == *old(bus),
            !old(self).is_closed() ==> {
                &&& r == old(bus).is_open(old(self).subscription_spec().slot_spec())
                &&& !final(bus).is_open(old(self).subscription_spec().slot_spec())
                &&& final(bus).slots() == old(bus).slots()
                &&& final(bus).history() == old(bus).history()
                &&& final(bus).is_shut() == old(bus).is_shut()
                &&& forall|s: nat|
                    s < old(bus).slots() && s != old(self).subscription_spec().slot_spec()
                        ==> #[trigger] final(bus).same_slot(old(bus), s)
            },
    {
        if self.closed {
            return false;
        }
        self.closed = true;
        bus.close(&self.subscription)
    }

    /// Whether the session has been closed.
    pub fn closed(&self) -> (r: bool)
        ensures
            r == self.is_closed(),
    {
        self.closed
    }

    /// The id of the watched room, if any.
    pub fn current_room(&self) -> (r: Option<&str>)
        ensures
            r matches Some(s) ==> self.current_spec() == Some(s@),
            r is None ==> self.current_spec() is None,
    {
        match &self.current {
            Some(s) => Some(s.as_str()),
            None => None,
        }
    }

    /// The session's bus subscription.
    pub fn subscription(&self) -> (r: Subscription)
        ensures
            r == self.subscription_spec(),
    {
        self.subscription
    }
}

/// Room-switch law: after a control message naming a registered room `m`, and
/// as long as no further control message arrives, the session watches `m`:
/// of the items that arrive it forwards exactly those tagged `m`, and never
/// one tagged with another room.
pub proof fn lemma_switch_then_forward(
    reg: &Registry,
    current: Option<Seq<char>>,
    switch: SessionInput,
    rest: Seq<SessionInput>,
    k: int,
)
    requires
        switch matches SessionInput::Control(m) && reg.has_room(m@),
        forall|i: int| 0 <= i < rest.len() ==> !(#[trigger] rest[i] is Control),
        0 <= k <= rest.len(),
    ensures
        room_after_all(reg, current, seq![switch] + rest.take(k)) == Some(switch->Control_0@),
        k < rest.len() ==> (forwards(room_after_all(reg, current, seq![switch] + rest.take(k)), rest[k])
            <==> (rest[k] matches SessionInput::Item(msg) && msg.room_id@ == switch->Control_0@)),
    decreases k,
{
    let run = seq![switch] + rest.take(k);
    if k == 0 {
        assert(run.drop_last() =~= Seq::<SessionInput>::empty());
        assert(run.last() == switch);
    } else {
        lemma_switch_then_forward(reg, current, switch, rest, k - 1);
        assert(run.drop_last() =~= seq![switch] + rest.take(k - 1));
        assert(run.last() == rest[k - 1]);
        assert(!(rest[k - 1] is Control));
    }
}

} // verus!
