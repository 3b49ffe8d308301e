//! Rooms built from topic lists, and the registry that classifies text.

use crate::matcher::{regex_compiles, regex_finds, topics_pattern, Matcher};
use vstd::prelude::*;
use vstd::std_specs::iter::IteratorSpec;

verus! {

/// Scans `s` line by line: the non-empty lines closed so far, and the line
/// still open at the end.
pub open spec fn scan_lines(s: Seq<char>) -> (Seq<Seq<char>>, Seq<char>)
    decreases s.len(),
{
    if s.len() == 0 {
        (Seq::empty(), Seq::empty())
    } else {
        let (done, open) = scan_lines(s.drop_last());
        if s.last() == '\n' {
            (if open.len() > 0 { done.push(open) } else { done }, Seq::empty())
        } else {
            (done, open.push(s.last()))
        }
    }
}

/// The topics of a newline-separated list: its non-empty lines, in order.
pub open spec fn topic_lines(s: Seq<char>) -> Seq<Seq<char>> {
    let (done, open) = scan_lines(s);
    if open.len() > 0 {
        done.push(open)
    } else {
        done
    }
}

/// Whether `text` holds a whole-word occurrence of one of `topics`
/// (case-sensitive, as the regex engine decides word boundaries).
pub open spec fn topics_match(topics: Seq<Seq<char>>, text: Seq<char>) -> bool {
    regex_finds(topics_pattern(topics), text)
}

/// Relies on String::push: the character is appended at the end.
#[verifier::external_body]
fn push_char(s: &mut String, c: char)
    ensures
        final(s)@ == old(s)@.push(c),
{
    s.push(c)
}

/// Splits a newline-separated topic list into its non-empty lines.
pub fn split_topics(raw: &str) -> (r: Vec<String>)
    ensures
        r@.map_values(|t: String| t@) == topic_lines(raw@),
{
    broadcast use vstd::string::axiom_spec_iter, vstd::string::next_postcondition;

    let ghost n = raw@.len();
    let mut chars = raw.chars();
    let mut out: Vec<String> = Vec::new();
    let mut line = String::new();
    let ghost mut i: int = 0;
    loop
        invariant
            0 <= i <= n,
            n == raw@.len(),
            chars.remaining() == raw@.subrange(i, n as int),
            scan_lines(raw@.subrange(0, i)) == (out@.map_values(|t: String| t@), line@),
        ensures
            i == n,
            scan_lines(raw@.subrange(0, i)) == (out@.map_values(|t: String| t@), line@),
        decreases n - i,
    {
        match chars.next() {
            Some(c) => {
                assert(raw@.subrange(i, n as int)[0] == raw@[i]);
                assert(raw@.subrange(0, i + 1).drop_last() == raw@.subrange(0, i));
                assert(raw@.subrange(0, i + 1).last() == c);
                if c == '\n' {
                    if !line.as_str().is_empty() {
                        out.push(line);
                    }
                    line = String::new();
                } else {
                    push_char(&mut line, c);
                }
                proof {
                    i = i + 1;
                    assert(chars.remaining() =~= raw@.subrange(i, n as int));
                }
                assert(out@.map_values(|t: String| t@) =~= scan_lines(raw@.subrange(0, i)).0);
            },
            None => {
                assert(raw@.subrange(i, n as int).len() == 0);
                break;
            },
        }
    }
    assert(raw@.subrange(0, n as int) == raw@);
    if !line.as_str().is_empty() {
        out.push(line);
    }
    assert(out@.map_values(|t: String| t@) =~= topic_lines(raw@));
    out
}

/// Why a registry could not be built; each carries the room id concerned.
#[derive(Clone, Debug, PartialEq, Eq)]
pub enum ConfigError {
    /// A second room with an id already used.
    DuplicateRoom(String),
    /// A room whose topic list has no non-empty line.
    EmptyTopics(String),
    /// A room whose pattern the regex engine refuses.
    InvalidPattern(String),
    /// The default room is not among the rooms.
    MissingDefault(String),
}

/// The mathematical form of a `ConfigError`.
pub enum ConfigFault {
    DuplicateRoom(Seq<char>),
    EmptyTopics(Seq<char>),
    InvalidPattern(Seq<char>),
    MissingDefault(Seq<char>),
}

impl View for ConfigError {
    type V = ConfigFault;

    open spec fn view(&self) -> ConfigFault {
        match self {
            ConfigError::DuplicateRoom(id) => ConfigFault::DuplicateRoom(id@),
            ConfigError::EmptyTopics(id) => ConfigFault::EmptyTopics(id@),
            ConfigError::InvalidPattern(id) => ConfigFault::InvalidPattern(id@),
            ConfigError::MissingDefault(id) => ConfigFault::MissingDefault(id@),
        }
    }
}

/// The fault, if any, of a room built from `id` and the topic list `raw`.
pub open spec fn room_fault(id: Seq<char>, raw: Seq<char>) -> Option<ConfigFault> {
    if topic_lines(raw).len() == 0 {
        Some(ConfigFault::EmptyTopics(id))
    } else if !regex_compiles(topics_pattern(topic_lines(raw))) {
        Some(ConfigFault::InvalidPattern(id))
    } else {
        None
    }
}

/// What a room is built from: its id and its newline-separated topic list.
#[derive(Clone, Debug)]
pub struct RoomSpec {
    pub id: String,
    pub topics: String,
}

/// A request naming a list of topics to track.
#[derive(Clone, Debug)]
pub struct RequestBody {
    pub topics: Vec<String>,
}

/// A room: its id, its topics and the matcher compiled from them.
#[derive(Debug)]
pub struct Room {
    id: String,
    topics: Vec<String>,
    matcher: Matcher,
}

impl Room {
    pub closed spec fn id_spec(&self) -> Seq<char> {
        self.id@
    }

    pub closed spec fn topics_spec(&self) -> Seq<Seq<char>> {
        self.topics@.map_values(|t: String| t@)
    }

    /// The topics are not empty and the matcher was compiled from them.
    pub closed spec fn wf(&self) -> bool {
        &&& self.topics@.len() > 0
        &&& self.matcher.pattern_spec() == topics_pattern(self.topics_spec())
    }

    /// Builds a room from its id and topic list.
    pub fn new(id: &str, raw_topics: &str) -> (r: Result<Room, ConfigError>)
        ensures
            r is Ok <==> room_fault(id@, raw_topics@) is None,
            r matches Err(e) ==> room_fault(id@, raw_topics@) == Some(e@),
            r matches Ok(room) ==> {
                &&& room.wf()
                &&& room.id_spec() == id@
                &&& room.topics_spec() == topic_lines(raw_topics@)
            },
    {
        let topics = split_topics(raw_topics);
        if topics.len() == 0 {
            return Err(ConfigError::EmptyTopics(id.to_owned()));
        }
        match Matcher::compile(&topics) {
            Some(matcher) => Ok(Room { id: id.to_owned(), topics, matcher }),
            None => Err(ConfigError::InvalidPattern(id.to_owned())),
        }
    }

    /// Whether an event with this text belongs in the room.
    pub fn should_send(&self, text: &str) -> (r: bool)
        requires
            self.wf(),
        ensures
            r == topics_match(self.topics_spec(), text@),
    {
        self.matcher.is_match(text)
    }

    pub fn id(&self) -> (r: &str)
        ensures
            r@ == self.id_spec(),
    {
        self.id.as_str()
    }

    pub fn topics(&self) -> (r: &Vec<String>)
        ensures
            r@.map_values(|t: String| t@) == self.topics_spec(),
    {
        &self.topics
    }
}

/// The fault of the `i`-th room spec: a reused id, or what `room_fault` finds.
pub open spec fn entry_fault(specs: Seq<RoomSpec>, i: int) -> Option<ConfigFault> {
    if exists|j: int| 0 <= j < i && #[trigger] specs[j].id@ == specs[i].id@ {
        Some(ConfigFault::DuplicateRoom(specs[i].id@))
    } else {
        room_fault(specs[i].id@, specs[i].topics@)
    }
}

/// The fault of the first `n` room specs that comes first.
pub open spec fn first_fault(specs: Seq<RoomSpec>, n: int) -> Option<ConfigFault>
    decreases n,
{
    if n <= 0 {
        None
    } else {
        match first_fault(specs, n - 1) {
            Some(f) => Some(f),
            None => entry_fault(specs, n - 1),
        }
    }
}

/// Once a fault is found, later specs do not change which one comes first.
proof fn lemma_first_fault_stays(specs: Seq<RoomSpec>, i: int, n: int)
    requires
        0 <= i <= n,
        first_fault(specs, i) is Some,
    ensures
        first_fault(specs, n) == first_fault(specs, i),
    decreases n - i,
{
    if i < n {
        lemma_first_fault_stays(specs, i, n - 1);
    }
}

/// Whether one of `specs` has the id `id`.
pub open spec fn names(specs: Seq<RoomSpec>, id: Seq<char>) -> bool {
    exists|i: int| 0 <= i < specs.len() && #[trigger] specs[i].id@ == id
}

/// Why `Registry::build` fails on these inputs, if it does.
pub open spec fn build_fault(specs: Seq<RoomSpec>, default_room: Seq<char>) -> Option<
    ConfigFault,
> {
    match first_fault(specs, specs.len() as int) {
        Some(f) => Some(f),
        None => if names(specs, default_room) {
            None
        } else {
            Some(ConfigFault::MissingDefault(default_room))
        },
    }
}

/// The ids of the rooms among `rooms` that `text` matches, in order.
pub open spec fn matching_ids(rooms: Seq<Room>, text: Seq<char>) -> Seq<Seq<char>>
    decreases rooms.len(),
{
    if rooms.len() == 0 {
        Seq::empty()
    } else {
        let rest = matching_ids(rooms.drop_last(), text);
        if topics_match(rooms.last().topics_spec(), text) {
            rest.push(rooms.last().id_spec())
        } else {
            rest
        }
    }
}

/// Every id that `matching_ids` yields is the id of one of the rooms.
proof fn lemma_matching_ids_come_from_rooms(rooms: Seq<Room>, text: Seq<char>)
    ensures
        forall|x: Seq<char>|
            #[trigger] matching_ids(rooms, text).contains(x) ==> exists|i: int|
                0 <= i < rooms.len() && #[trigger] rooms[i].id_spec() == x,
    decreases rooms.len(),
{
    if rooms.len() > 0 {
        let pre = rooms.drop_last();
        lemma_matching_ids_come_from_rooms(pre, text);
        assert forall|x: Seq<char>| #[trigger] matching_ids(rooms, text).contains(x) implies exists|i: int|
            0 <= i < rooms.len() && #[trigger] rooms[i].id_spec() == x by {
            if matching_ids(pre, text).contains(x) {
                let i = choose|i: int| 0 <= i < pre.len() && #[trigger] pre[i].id_spec() == x;
                assert(rooms[i] == pre[i]);
            } else {
                assert(rooms[rooms.len() - 1].id_spec() == x);
            }
        }
    }
}

/// With unique ids, a room's id is among `matching_ids` exactly when its
/// topics match the text.
proof fn lemma_matching_ids_iff(rooms: Seq<Room>, k: int, text: Seq<char>)
    requires
        0 <= k < rooms.len(),
        forall|i: int, j: int|
            0 <= i < j < rooms.len() ==> #[trigger] rooms[i].id_spec() != #[trigger] rooms[j].id_spec(),
    ensures
        matching_ids(rooms, text).contains(rooms[k].id_spec()) <==> topics_match(
            rooms[k].topics_spec(),
            text,
        ),
    decreases rooms.len(),
{
    let pre = rooms.drop_last();
    let last = rooms.len() - 1;
    if k == last {
        lemma_matching_ids_come_from_rooms(pre, text);
        if matching_ids(pre, text).contains(rooms[k].id_spec()) {
            let i = choose|i: int| 0 <= i < pre.len() && #[trigger] pre[i].id_spec() == rooms[k].id_spec();
            assert(rooms[i].id_spec() != rooms[k].id_spec());
        }
        if topics_match(rooms[k].topics_spec(), text) {
            assert(matching_ids(rooms, text).last() == rooms[k].id_spec());
        }
    } else {
        assert(pre[k] == rooms[k]);
        lemma_matching_ids_iff(pre, k, text);
        if topics_match(rooms[last].topics_spec(), text) {
            assert(rooms[last].id_spec() != rooms[k].id_spec());
            assert(matching_ids(rooms, text) == matching_ids(pre, text).push(rooms[last].id_spec()));
            if matching_ids(rooms, text).contains(rooms[k].id_spec()) {
                let j = choose|j: int| 0 <= j < matching_ids(rooms, text).len() && matching_ids(rooms, text)[j] == rooms[k].id_spec();
                assert(matching_ids(pre, text)[j] == rooms[k].id_spec());
            }
            if matching_ids(pre, text).contains(rooms[k].id_spec()) {
                let j = choose|j: int| 0 <= j < matching_ids(pre, text).len() && matching_ids(pre, text)[j] == rooms[k].id_spec();
                assert(matching_ids(rooms, text)[j] == rooms[k].id_spec());
            }
        }
    }
}

/// Classification law: the id of a registered room is among the ids that
/// `Registry::classify` returns for a text exactly when the text holds a
/// whole-word occurrence of one of that room's topics.
pub proof fn lemma_classify_includes_iff_match(reg: &Registry, k: int, text: Seq<char>)
    requires
        reg.wf(),
        0 <= k < reg.rooms_spec().len(),
    ensures
        matching_ids(reg.rooms_spec(), text).contains(reg.rooms_spec()[k].id_spec())
            <==> topics_match(reg.rooms_spec()[k].topics_spec(), text),
{
    lemma_matching_ids_iff(reg.rooms_spec(), k, text);
}

/// The rooms, fixed at startup, and the room new sessions start in. There are
/// a handful of rooms, so a lookup scans them in order.
#[derive(Debug)]
pub struct Registry {
    rooms: Vec<Room>,
    default_room: String,
}

impl Registry {
    pub closed spec fn rooms_spec(&self) -> Seq<Room> {
        self.rooms@
    }

    pub closed spec fn default_spec(&self) -> Seq<char> {
        self.default_room@
    }

    /// Whether a room of the registry has the id `id`.
    pub open spec fn has_room(&self, id: Seq<char>) -> bool {
        exists|i: int| 0 <= i < self.rooms_spec().len() && #[trigger] self.rooms_spec()[i].id_spec() == id
    }

    /// Every room is well formed, ids are unique, and the default room is one of them.
    pub open spec fn wf(&self) -> bool {
        &&& forall|i: int| 0 <= i < self.rooms_spec().len() ==> #[trigger] self.rooms_spec()[i].wf()
        &&& forall|i: int, j: int|
            0 <= i < j < self.rooms_spec().len() ==> #[trigger] self.rooms_spec()[i].id_spec()
                != #[trigger] self.rooms_spec()[j].id_spec()
        &&& self.has_room(self.default_spec())
    }

    /// Builds the registry from room specs, in order, and the default room's id.
    pub fn build(specs: &Vec<RoomSpec>, default_room: &str) -> (r: Result<Registry, ConfigError>)
        ensures
            r is Ok <==> build_fault(specs@, default_room@) is None,
            r matches Err(e) ==> build_fault(specs@, default_room@) == Some(e@),
            r matches Ok(reg) ==> {
                &&& reg.wf()
                &&& reg.default_spec() == default_room@
                &&& reg.rooms_spec().len() == specs@.len()
                &&& forall|i: int|
                    0 <= i < specs@.len() ==> (#[trigger] reg.rooms_spec()[i]).id_spec()
                        == specs@[i].id@ && reg.rooms_spec()[i].topics_spec() == topic_lines(
                        specs@[i].topics@,
                    )
            },
    {
        let mut rooms: Vec<Room> = Vec::new();
        let mut i: usize = 0;
        while i < specs.len()
            invariant
                i <= specs.len(),
                first_fault(specs@, i as int) is None,
                rooms@.len() == i,
                forall|k: int| 0 <= k < i ==> (#[trigger] rooms@[k]).wf() && rooms@[k].id_spec()
                    == specs@[k].id@ && rooms@[k].topics_spec() == topic_lines(specs@[k].topics@),
                forall|a: int, b: int|
                    0 <= a < b < i ==> #[trigger] specs@[a].id@ != #[trigger] specs@[b].id@,
            decreases specs.len() - i,
        {
            let spec_i = &specs[i];
            match find_room(&rooms, &spec_i.id) {
                Some(j) => {
                    assert(specs@[j as int].id@ == specs@[i as int].id@);
                    assert(first_fault(specs@, i + 1) == entry_fault(specs@, i as int));
                    proof {
                        lemma_first_fault_stays(specs@, i + 1, specs@.len() as int);
                    }
                    return Err(ConfigError::DuplicateRoom(spec_i.id.clone()));
                },
                None => {},
            }
            assert(!exists|j: int| 0 <= j < i && #[trigger] specs@[j].id@ == specs@[i as int].id@) by {
                assert forall|j: int| 0 <= j < i implies #[trigger] specs@[j].id@ != specs@[i as int].id@ by {
                    assert(rooms@[j].id_spec() == specs@[j].id@);
                }
            }
            assert(first_fault(specs@, i + 1) == entry_fault(specs@, i as int));
            match Room::new(spec_i.id.as_str(), spec_i.topics.as_str()) {
                Ok(room) => {
                    rooms.push(room);
                },
                Err(e) => {
                    proof {
                        lemma_first_fault_stays(specs@, i + 1, specs@.len() as int);
                    }
                    return Err(e);
                },
            }
            i = i + 1;
        }
        let key = default_room.to_owned();
        match find_room(&rooms, &key) {
            Some(j) => {
                let reg = Registry { rooms, default_room: key };
                assert(reg.rooms_spec()[j as int].id_spec() == reg.default_spec());
                assert forall|a: int, b: int|
                    0 <= a < b < reg.rooms_spec().len() implies #[trigger] reg.rooms_spec()[a].id_spec()
                        != #[trigger] reg.rooms_spec()[b].id_spec() by {
                    assert(specs@[a].id@ != specs@[b].id@);
                }
                assert(names(specs@, default_room@)) by {
                    assert(specs@[j as int].id@ == default_room@);
                }
                Ok(reg)
            },
            None => {
                assert(!names(specs@, default_room@)) by {
                    assert forall|k: int| 0 <= k < specs@.len() implies #[trigger] specs@[k].id@
                        != default_room@ by {
                        assert(rooms@[k].id_spec() == specs@[k].id@);
                    }
                }
                Err(ConfigError::MissingDefault(key))
            },
        }
    }

    /// The room with id `id`, if there is one.
    pub fn lookup(&self, id: &str) -> (r: Option<&Room>)
        ensures
            r is Some <==> self.has_room(id@),
            r matches Some(room) ==> room.id_spec() == id@ && exists|i: int|
                0 <= i < self.rooms_spec().len() && #[trigger] self.rooms_spec()[i] == *room,
    {
        let key = id.to_owned();
        match find_room(&self.rooms, &key) {
            Some(j) => {
                assert(self.rooms_spec()[j as int].id_spec() == id@);
                Some(&self.rooms[j])
            },
            None => None,
        }
    }

    /// The id of the room new sessions start in.
    pub fn default_room(&self) -> (r: &str)
        ensures
            r@ == self.default_spec(),
    {
        self.default_room.as_str()
    }

    /// The rooms, in the order they were given.
    pub fn rooms(&self) -> (r: &Vec<Room>)
        ensures
            r@ == self.rooms_spec(),
    {
        &self.rooms
    }

    /// The ids of all rooms whose topics `text` matches, in registry order.
    pub fn classify(&self, text: &str) -> (r: Vec<String>)
        requires
            self.wf(),
        ensures
            r@.map_values(|s: String| s@) == matching_ids(self.rooms_spec(), text@),
    {
        let mut out: Vec<String> = Vec::new();
        let mut i: usize = 0;
        while i < self.rooms.len()
            invariant
                i <= self.rooms@.len(),
                self.wf(),
                out@.map_values(|s: String| s@) == matching_ids(self.rooms@.subrange(0, i as int), text@),
            decreases self.rooms@.len() - i,
        {
            assert(self.rooms@.subrange(0, i + 1).drop_last() == self.rooms@.subrange(0, i as int));
            assert(self.rooms@[i as int].wf());
            let room = &self.rooms[i];
            if room.should_send(text) {
                out.push(room.id.clone());
            }
            i = i + 1;
            assert(out@.map_values(|s: String| s@) =~= matching_ids(self.rooms@.subrange(0, i as int), text@));
        }
        assert(self.rooms@.subrange(0, i as int) == self.rooms@);
        out
    }
}

/// The position of the room with id `id` among `rooms`.
fn find_room(rooms: &Vec<Room>, id: &String) -> (r: Option<usize>)
    ensures
        r matches Some(j) ==> j < rooms@.len() && rooms@[j as int].id_spec() == id@,
        r is None ==> forall|k: int| 0 <= k < rooms@.len() ==> #[trigger] rooms@[k].id_spec() != id@,
{
    let mut j: usize = 0;
    while j < rooms.len()
        invariant
            j <= rooms@.len(),
            forall|k: int| 0 <= k < j ==> #[trigger] rooms@[k].id_spec() != id@,
        decreases rooms@.len() - j,
    {
        if rooms[j].id == *id {
            return Some(j);
        }
        j = j + 1;
    }
    None
}

} // verus!
