//! The events that flow from the feed to the sessions.

use vstd::prelude::*;

verus! {

/// Who wrote an event.
#[derive(Clone, Debug)]
pub struct Author {
    pub id: u64,
    pub display_name: String,
    pub avatar_url: String,
}

/// One event of the upstream feed.
#[derive(Clone, Debug)]
pub struct Event {
    pub id: u64,
    pub text: String,
    pub author: Author,
    pub timestamp: String,
}

/// An event together with the room it was classified into: what the bus carries.
#[derive(Clone, Debug)]
pub struct RoomTaggedEvent {
    pub room_id: String,
    pub event: Event,
}

impl Author {
    /// An equal copy.
    pub fn duplicate(&self) -> (r: Author)
        ensures
            r == *self,
    {
        Author {
            id: self.id,
            display_name: self.display_name.clone(),
            avatar_url: self.avatar_url.clone(),
        }
    }
}

impl Event {
    /// An equal copy.
    pub fn duplicate(&self) -> (r: Event)
        ensures
            r == *self,
    {
        Event {
            id: self.id,
            text: self.text.clone(),
            author: self.author.duplicate(),
            timestamp: self.timestamp.clone(),
        }
    }
}

impl RoomTaggedEvent {
    /// Tags a copy of `event` with `room_id`.
    pub fn new(room_id: &str, event: &Event) -> (r: RoomTaggedEvent)
        ensures
            r.room_id@ == room_id@,
            r.event == *event,
    {
        RoomTaggedEvent { room_id: room_id.to_owned(), event: event.duplicate() }
    }

    /// An equal copy.
    pub fn duplicate(&self) -> (r: RoomTaggedEvent)
        ensures
            r == *self,
    {
        RoomTaggedEvent { room_id: self.room_id.clone(), event: self.event.duplicate() }
    }
}

} // verus!
