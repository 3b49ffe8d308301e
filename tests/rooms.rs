use roomcast::bus::{Bus, BusError};
use roomcast::event::{Author, Event, RoomTaggedEvent};
use roomcast::ingest::{publish_event, tag_event, FeedRecord, IngestOutcome, Ingestor};
use roomcast::matcher::{build_pattern, Matcher};
use roomcast::registry::{split_topics, ConfigError, Registry, Room, RoomSpec};
use roomcast::session::{Session, SessionAction, SessionInput};

fn spec(id: &str, topics: &str) -> RoomSpec {
    RoomSpec { id: id.to_string(), topics: topics.to_string() }
}

fn registry() -> Registry {
    let specs = vec![spec("sports", "Lakers\nCeltics"), spec("tech", "Rust\ncompiler")];
    Registry::build(&specs, "sports").unwrap()
}

fn event(id: u64, text: &str) -> Event {
    Event {
        id,
        text: text.to_string(),
        author: Author {
            id: 7,
            display_name: "someone".to_string(),
            avatar_url: "https://example.org/a.png".to_string(),
        },
        timestamp: "1600000000000".to_string(),
    }
}

fn tagged(room: &str, id: u64, text: &str) -> RoomTaggedEvent {
    RoomTaggedEvent::new(room, &event(id, text))
}

fn forwarded_id(a: &SessionAction) -> Option<u64> {
    match a {
        SessionAction::Forward(e) => Some(e.id),
        _ => None,
    }
}

#[test]
fn lakers_event_forwarded_then_dropped_after_switch() {
    let reg = registry();
    assert_eq!(reg.classify("The Lakers won"), vec!["sports".to_string()]);
    let mut bus = Bus::new();
    let mut s = Session::open(&reg, &mut bus);
    assert_eq!(s.current_room(), Some("sports"));
    let a = s.step(&reg, &mut bus, SessionInput::Item(tagged("sports", 1, "The Lakers won")));
    assert_eq!(forwarded_id(&a), Some(1));
    let a = s.step(&reg, &mut bus, SessionInput::Control("tech".to_string()));
    assert!(matches!(a, SessionAction::Ignore));
    assert_eq!(s.current_room(), Some("tech"));
    let a = s.step(&reg, &mut bus, SessionInput::Item(tagged("sports", 1, "The Lakers won")));
    assert!(matches!(a, SessionAction::Ignore));
}

#[test]
fn event_matching_two_rooms_reaches_both_sessions() {
    let reg = registry();
    let text = "Lakers and Rust news";
    assert_eq!(reg.classify(text), vec!["sports".to_string(), "tech".to_string()]);
    let mut bus = Bus::new();
    let mut on_sports = Session::open(&reg, &mut bus);
    let mut on_tech = Session::open(&reg, &mut bus);
    on_tech.step(&reg, &mut bus, SessionInput::Control("tech".to_string()));
    assert_eq!(publish_event(&reg, &mut bus, &event(5, text)), Ok(2));
    let mut got_sports = Vec::new();
    while let Ok(Some(item)) = bus.next(&on_sports.subscription()) {
        if let Some(id) = forwarded_id(&on_sports.step(&reg, &mut bus, SessionInput::Item(item))) {
            got_sports.push(id);
        }
    }
    let mut got_tech = Vec::new();
    while let Ok(Some(item)) = bus.next(&on_tech.subscription()) {
        if let Some(id) = forwarded_id(&on_tech.step(&reg, &mut bus, SessionInput::Item(item))) {
            got_tech.push(id);
        }
    }
    assert_eq!(got_sports, vec![5]);
    assert_eq!(got_tech, vec![5]);
}

#[test]
fn unknown_room_stops_forwarding_until_valid_room() {
    let reg = registry();
    let mut bus = Bus::new();
    let mut s = Session::open(&reg, &mut bus);
    s.step(&reg, &mut bus, SessionInput::Control("unknown_room".to_string()));
    assert_eq!(s.current_room(), None);
    for room in ["sports", "tech", "unknown_room"] {
        let a = s.step(&reg, &mut bus, SessionInput::Item(tagged(room, 1, "x")));
        assert!(matches!(a, SessionAction::Ignore));
    }
    s.step(&reg, &mut bus, SessionInput::Control("tech".to_string()));
    let a = s.step(&reg, &mut bus, SessionInput::Item(tagged("tech", 2, "Rust")));
    assert_eq!(forwarded_id(&a), Some(2));
}

#[test]
fn after_switch_only_that_room_is_forwarded() {
    let reg = registry();
    let mut bus = Bus::new();
    let mut s = Session::open(&reg, &mut bus);
    s.step(&reg, &mut bus, SessionInput::Control("tech".to_string()));
    let rooms = ["tech", "sports", "tech", "other", "tech"];
    let mut got = Vec::new();
    for (i, room) in rooms.iter().enumerate() {
        let a = s.step(&reg, &mut bus, SessionInput::Item(tagged(room, i as u64, "t")));
        if let Some(id) = forwarded_id(&a) {
            got.push(id);
        }
    }
    assert_eq!(got, vec![0, 2, 4]);
}

#[test]
fn classify_uses_whole_words_case_sensitively() {
    let reg = registry();
    assert_eq!(reg.classify("Rustacean meetup"), Vec::<String>::new());
    assert_eq!(reg.classify("lakers won"), Vec::<String>::new());
    assert_eq!(reg.classify("a compiler, written in Rust!"), vec!["tech".to_string()]);
    assert_eq!(reg.classify("Celtics"), vec!["sports".to_string()]);
    assert_eq!(reg.classify(""), Vec::<String>::new());
}

#[test]
fn topic_meta_characters_are_literal() {
    let room = Room::new("r", "a.b\nx|y").unwrap();
    assert!(room.should_send("see a.b here"));
    assert!(!room.should_send("see axb here"));
    assert!(room.should_send("x|y"));
    assert!(!room.should_send("x alone"));
    assert!(!room.should_send("y alone"));
}

#[test]
fn pattern_is_escaped_word_alternation() {
    let topics = vec!["Lakers".to_string(), "C.S".to_string()];
    assert_eq!(build_pattern(&topics), r"(\bLakers\b)|(\bC\.S\b)");
    assert_eq!(build_pattern(&vec!["one".to_string()]), r"(\bone\b)");
    assert_eq!(build_pattern(&Vec::new()), "");
    let m = Matcher::compile(&topics).unwrap();
    assert_eq!(m.pattern(), r"(\bLakers\b)|(\bC\.S\b)");
    assert!(m.is_match("go Lakers"));
    assert!(!m.is_match("go CxS"));
}

#[test]
fn topic_lists_drop_empty_lines() {
    assert_eq!(split_topics("a\n\nb\n"), vec!["a".to_string(), "b".to_string()]);
    assert_eq!(split_topics("Lakers"), vec!["Lakers".to_string()]);
    assert_eq!(split_topics(""), Vec::<String>::new());
    assert_eq!(split_topics("\n\n"), Vec::<String>::new());
    let room = Room::new("nba", "Lakers\nCeltics\n").unwrap();
    assert_eq!(room.id(), "nba");
    assert_eq!(room.topics(), &vec!["Lakers".to_string(), "Celtics".to_string()]);
}

#[test]
fn build_reports_each_config_error() {
    let empty = vec![spec("sports", "Lakers"), spec("tech", "\n")];
    assert_eq!(
        Registry::build(&empty, "sports").unwrap_err(),
        ConfigError::EmptyTopics("tech".to_string())
    );
    let dup = vec![spec("sports", "Lakers"), spec("sports", "Celtics")];
    assert_eq!(
        Registry::build(&dup, "sports").unwrap_err(),
        ConfigError::DuplicateRoom("sports".to_string())
    );
    let specs = vec![spec("sports", "Lakers")];
    assert_eq!(
        Registry::build(&specs, "tech").unwrap_err(),
        ConfigError::MissingDefault("tech".to_string())
    );
    assert_eq!(
        Room::new("none", "").unwrap_err(),
        ConfigError::EmptyTopics("none".to_string())
    );
    let reg = registry();
    assert_eq!(reg.default_room(), "sports");
    assert_eq!(reg.rooms().len(), 2);
    assert!(reg.lookup("tech").is_some());
    assert!(reg.lookup("nope").is_none());
}

#[test]
fn early_subscriber_gets_everything_in_order_late_one_no_replay() {
    let mut bus = Bus::new();
    let early = bus.subscribe();
    assert_eq!(bus.publish(tagged("a", 1, "x")), Ok(()));
    assert_eq!(bus.publish(tagged("a", 2, "x")), Ok(()));
    let late = bus.subscribe();
    assert_eq!(bus.publish(tagged("b", 3, "x")), Ok(()));
    let mut got = Vec::new();
    while let Ok(Some(item)) = bus.next(&early) {
        got.push(item.event.id);
    }
    assert_eq!(got, vec![1, 2, 3]);
    assert_eq!(bus.next(&early).unwrap().is_none(), true);
    let mut late_got = Vec::new();
    while let Ok(Some(item)) = bus.next(&late) {
        late_got.push(item.event.id);
    }
    assert_eq!(late_got, vec![3]);
}

#[test]
fn publish_without_subscribers_and_after_shutdown() {
    let mut bus = Bus::new();
    assert_eq!(bus.publish(tagged("a", 1, "x")), Ok(()));
    let sub = bus.subscribe();
    assert_eq!(bus.next(&sub).unwrap().is_none(), true);
    bus.shutdown();
    assert!(bus.shut_down());
    assert_eq!(bus.publish(tagged("a", 2, "x")), Err(BusError::BusClosed));
    assert_eq!(bus.next(&sub).unwrap().is_none(), true);
}

#[test]
fn closing_twice_releases_once() {
    let mut bus = Bus::new();
    let sub = bus.subscribe();
    assert!(bus.close(&sub));
    assert!(!bus.close(&sub));
    assert_eq!(bus.next(&sub).unwrap_err(), BusError::SubscriptionClosed);
    assert_eq!(bus.publish(tagged("a", 1, "x")), Ok(()));

    let reg = registry();
    let mut s = Session::open(&reg, &mut bus);
    assert!(s.close(&mut bus));
    assert!(s.closed());
    assert!(!s.close(&mut bus));
    assert_eq!(bus.next(&s.subscription()).unwrap_err(), BusError::SubscriptionClosed);
}

#[test]
fn session_closes_on_unsupported_input_or_disconnect() {
    let reg = registry();
    let mut bus = Bus::new();
    let mut s = Session::open(&reg, &mut bus);
    let a = s.step(&reg, &mut bus, SessionInput::Unsupported);
    assert!(matches!(a, SessionAction::Close));
    assert!(s.closed());
    assert_eq!(bus.next(&s.subscription()).unwrap_err(), BusError::SubscriptionClosed);
    let a = s.step(&reg, &mut bus, SessionInput::Item(tagged("sports", 1, "Lakers")));
    assert!(matches!(a, SessionAction::Close));

    let mut t = Session::open(&reg, &mut bus);
    let a = t.step(&reg, &mut bus, SessionInput::Disconnected);
    assert!(matches!(a, SessionAction::Close));
    assert!(!t.close(&mut bus));
}

#[test]
fn ingestion_publishes_skips_and_stops() {
    let reg = registry();
    let mut bus = Bus::new();
    let sub = bus.subscribe();
    let mut ing = Ingestor::new();
    let e = event(9, "Rust compiler and Celtics");
    assert_eq!(ing.step(&reg, &mut bus, &FeedRecord::Event(e.clone())), IngestOutcome::Published(2));
    assert_eq!(ing.step(&reg, &mut bus, &FeedRecord::Malformed), IngestOutcome::Skipped);
    assert_eq!(
        ing.step(&reg, &mut bus, &FeedRecord::Event(event(10, "nothing here"))),
        IngestOutcome::Published(0)
    );
    let first = bus.next(&sub).unwrap().unwrap();
    assert_eq!(first.room_id, "sports");
    assert_eq!(first.event.id, 9);
    let second = bus.next(&sub).unwrap().unwrap();
    assert_eq!(second.room_id, "tech");
    assert_eq!(second.event.text, "Rust compiler and Celtics");
    assert!(bus.next(&sub).unwrap().is_none());
    assert_eq!(ing.step(&reg, &mut bus, &FeedRecord::End), IngestOutcome::Stopped);
    assert!(ing.stopped());
    assert_eq!(ing.step(&reg, &mut bus, &FeedRecord::Event(e)), IngestOutcome::Stopped);
    assert!(bus.next(&sub).unwrap().is_none());
    bus.shutdown();
    let mut ing2 = Ingestor::new();
    assert_eq!(
        ing2.step(&reg, &mut bus, &FeedRecord::Event(event(11, "Lakers"))),
        IngestOutcome::BusClosed
    );
}

#[test]
fn tagging_copies_event_per_room() {
    let reg = registry();
    let e = event(3, "Lakers vs Celtics, and Rust");
    let tags = tag_event(&reg, &e);
    assert_eq!(tags.len(), 2);
    assert_eq!(tags[0].room_id, "sports");
    assert_eq!(tags[1].room_id, "tech");
    assert_eq!(tags[1].event.author.display_name, "someone");
    let dup = e.duplicate();
    assert_eq!(dup.text, e.text);
    assert_eq!(dup.timestamp, e.timestamp);
}

#[test]
fn oversized_topic_is_refused_by_the_engine() {
    let huge = "ab".repeat(2_000_000);
    assert_eq!(
        Room::new("big", &huge).unwrap_err(),
        ConfigError::InvalidPattern("big".to_string())
    );
    let specs = vec![spec("sports", "Lakers"), spec("big", &huge)];
    assert_eq!(
        Registry::build(&specs, "sports").unwrap_err(),
        ConfigError::InvalidPattern("big".to_string())
    );
}
