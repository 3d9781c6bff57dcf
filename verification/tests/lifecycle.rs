use poxbase::lifecycle::{Action, Event, Lifecycle, State};

#[test]
fn the_same_feed_twice_is_unchanged_the_second_time() {
    let feed = b"{\"champs\":[],\"spells\":[],\"equips\":[],\"relics\":[]}";
    let mut life = Lifecycle::default();
    assert_eq!(life.state, State::Idle);
    assert_eq!(life.step(Event::Trigger), Action::Fetch);
    assert_eq!(life.fetched(feed), Action::Build);
    assert_eq!(life.state, State::Building);
    assert_eq!(life.step(Event::Built), Action::Publish);
    assert_eq!(life.step(Event::Published), Action::Wait);
    assert_eq!(life.state, State::Idle);

    assert_eq!(life.step(Event::Trigger), Action::Fetch);
    assert_eq!(life.fetched(feed), Action::UnchangedFeed);
    assert_eq!(life.state, State::Idle);
    assert_eq!(life.step(Event::Built), Action::Wait);
    assert_eq!(life.step(Event::Published), Action::Wait);

    assert_eq!(life.step(Event::Trigger), Action::Fetch);
    assert_eq!(life.fetched(feed), Action::UnchangedFeed);
}

#[test]
fn another_feed_is_built() {
    let mut life = Lifecycle::default();
    life.step(Event::Trigger);
    assert_eq!(life.fetched(b"one"), Action::Build);
    life.step(Event::Built);
    life.step(Event::Published);
    let live = life.live;
    assert!(live.is_some());
    life.step(Event::Trigger);
    assert_eq!(life.fetched(b"two"), Action::Build);
    assert_eq!(life.live, live);
    assert_ne!(life.pending, live);
    assert_eq!(life.step(Event::Built), Action::Publish);
    assert_ne!(life.live, live);
}

#[test]
fn the_digest_is_keccak_256() {
    let mut life = Lifecycle::default();
    life.step(Event::Trigger);
    life.fetched(b"");
    let empty: [u8; 32] = [
        0xc5, 0xd2, 0x46, 0x01, 0x86, 0xf7, 0x23, 0x3c, 0x92, 0x7e, 0x7d, 0xb2, 0xdc, 0xc7, 0x03,
        0xc0, 0xe5, 0x00, 0xb6, 0x53, 0xca, 0x82, 0x27, 0x3b, 0x7b, 0xfa, 0xd8, 0x04, 0x5d, 0x85,
        0xa4, 0x70,
    ];
    assert_eq!(life.pending, Some(empty));
}

#[test]
fn a_feed_that_fails_leaves_the_live_snapshot() {
    let mut life = Lifecycle::default();
    life.step(Event::Trigger);
    life.fetched(b"one");
    life.step(Event::Built);
    life.step(Event::Published);
    let live = life.live;

    assert_eq!(life.step(Event::Trigger), Action::Fetch);
    assert_eq!(life.step(Event::FetchFailed), Action::TransportFailure);
    assert_eq!(life.state, State::Idle);
    assert_eq!(life.live, live);

    assert_eq!(life.step(Event::Trigger), Action::Fetch);
    assert_eq!(life.fetched(b"broken"), Action::Build);
    assert_eq!(life.step(Event::BuildFailed), Action::BuildFailure);
    assert_eq!(life.state, State::Idle);
    assert_eq!(life.live, live);

    // the feed that could not be built is not the live one: it is built again
    assert_eq!(life.step(Event::Trigger), Action::Fetch);
    assert_eq!(life.fetched(b"broken"), Action::Build);
}

#[test]
fn an_event_out_of_turn_changes_nothing() {
    let mut life = Lifecycle::default();
    assert_eq!(life.step(Event::Built), Action::Wait);
    assert_eq!(life.step(Event::FetchFailed), Action::Wait);
    assert_eq!(life.fetched(b"one"), Action::Wait);
    assert_eq!(life.state, State::Idle);
    assert_eq!(life.live, None);
    assert_eq!(life.step(Event::Trigger), Action::Fetch);
    assert_eq!(life.step(Event::Trigger), Action::Wait);
    assert_eq!(life.state, State::Fetching);
    assert_eq!(life.fetched(b"one"), Action::Build);
    assert_eq!(life.step(Event::Trigger), Action::Wait);
    assert_eq!(life.step(Event::Published), Action::Wait);
    assert_eq!(life.state, State::Building);
}
