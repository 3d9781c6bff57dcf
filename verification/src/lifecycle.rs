//! The life of a snapshot: the feed is fetched, held against the feed of the
//! live snapshot, built into a new snapshot off to the side, and published.
//!
//! The library decides; whoever drives it fetches, builds and publishes, and
//! tells what came of it.

use vstd::prelude::*;

use crate::trusted::digest::{digest_of, keccak256};

verus! {

/// The digest of a feed.
pub type Hash = [u8; 32];

/// Where an ingest stands.
#[derive(Debug, Clone, Copy, PartialEq, Eq, Structural)]
pub enum State {
    Idle,
    Fetching,
    Building,
    Publishing,
}

/// What happened outside.
#[derive(Debug, Clone, Copy)]
pub enum Event {
    /// The timer fired, or an ingest was asked for.
    Trigger,
    /// The feed could not be fetched.
    FetchFailed,
    /// The feed was fetched; this is its digest.
    Fetched(Hash),
    /// The snapshot was built.
    Built,
    /// The snapshot could not be built.
    BuildFailed,
    /// The snapshot was published and the one before it retired.
    Published,
}

/// What is to be done outside next.
#[derive(Debug, Clone, Copy, PartialEq, Eq, Structural)]
pub enum Action {
    /// Fetch the feed.
    Fetch,
    /// Build a snapshot from the feed that was fetched.
    Build,
    /// Publish the snapshot that was built.
    Publish,
    /// The feed is the one that the live snapshot was built from: there is
    /// nothing to build and nothing to publish.
    UnchangedFeed,
    /// The feed could not be fetched; the live snapshot goes on serving.
    TransportFailure,
    /// The snapshot could not be built; the live snapshot goes on serving.
    BuildFailure,
    /// Nothing: the ingest is through, or the event came out of turn.
    Wait,
}

/// The state of the ingest, the digest of the feed of the live snapshot,
/// and the digest of the feed that is being built.
#[derive(Debug, Clone, Copy)]
pub struct Lifecycle {
    pub state: State,
    pub live: Option<Hash>,
    pub pending: Option<Hash>,
}

/// A lifecycle as values of the mathematics.
pub struct LifecycleView {
    pub state: State,
    pub live: Option<Seq<u8>>,
    pub pending: Option<Seq<u8>>,
}

/// An event as values of the mathematics.
pub enum EventView {
    Trigger,
    FetchFailed,
    Fetched(Seq<u8>),
    Built,
    BuildFailed,
    Published,
}

impl View for Event {
    type V = EventView;

    open spec fn view(&self) -> EventView {
        match *self {
            Event::Trigger => EventView::Trigger,
            Event::FetchFailed => EventView::FetchFailed,
            Event::Fetched(digest) => EventView::Fetched(digest@),
            Event::Built => EventView::Built,
            Event::BuildFailed => EventView::BuildFailed,
            Event::Published => EventView::Published,
        }
    }
}

/// The bytes of a digest that may be there.
pub open spec fn bytes_of(digest: Option<Hash>) -> Option<Seq<u8>> {
    match digest {
        Some(held) => Some(held@),
        None => None,
    }
}

impl View for Lifecycle {
    type V = LifecycleView;

    open spec fn view(&self) -> LifecycleView {
        LifecycleView {
            state: self.state,
            live: bytes_of(self.live),
            pending: bytes_of(self.pending),
        }
    }
}

/// The state after `event`, and what is to be done. An event that does not
/// belong to the state changes nothing.
pub open spec fn next(now: LifecycleView, event: EventView) -> (LifecycleView, Action) {
    match (now.state, event) {
        (State::Idle, EventView::Trigger) => (
            LifecycleView { state: State::Fetching, live: now.live, pending: None },
            Action::Fetch,
        ),
        (State::Fetching, EventView::FetchFailed) => (
            LifecycleView { state: State::Idle, live: now.live, pending: None },
            Action::TransportFailure,
        ),
        (State::Fetching, EventView::Fetched(digest)) => if now.live == Some(digest) {
            (
                LifecycleView { state: State::Idle, live: now.live, pending: None },
                Action::UnchangedFeed,
            )
        } else {
            (
                LifecycleView { state: State::Building, live: now.live, pending: Some(digest) },
                Action::Build,
            )
        },
        (State::Building, EventView::Built) => (
            LifecycleView { state: State::Publishing, live: now.pending, pending: None },
            Action::Publish,
        ),
        (State::Building, EventView::BuildFailed) => (
            LifecycleView { state: State::Idle, live: now.live, pending: None },
            Action::BuildFailure,
        ),
        (State::Publishing, EventView::Published) => (
            LifecycleView { state: State::Idle, live: now.live, pending: None },
            Action::Wait,
        ),
        _ => (now, Action::Wait),
    }
}

/// Whether two digests are the same.
fn same_digest(a: &Hash, b: &Hash) -> (same: bool)
    ensures
        same == (a@ == b@),
{
    let mut i: usize = 0;
    while i < 32
        invariant
            i <= 32,
            forall|k: int| 0 <= k < i ==> a@[k] == b@[k],
        decreases 32 - i,
    {
        if a[i] != b[i] {
            return false;
        }
        i = i + 1;
    }
    assert(a@ =~= b@);
    true
}

impl Default for Lifecycle {
    fn default() -> (made: Lifecycle)
        ensures
            made@ == (LifecycleView { state: State::Idle, live: None, pending: None }),
    {
        Lifecycle { state: State::Idle, live: None, pending: None }
    }
}

impl Lifecycle {
    /// Takes `event` into account and says what is to be done next.
    pub fn step(&mut self, event: Event) -> (action: Action)
        ensures
            (final(self)@, action) == next(old(self)@, event@),
    {
        match (self.state, event) {
            (State::Idle, Event::Trigger) => {
                self.state = State::Fetching;
                self.pending = None;
                Action::Fetch
            },
            (State::Fetching, Event::FetchFailed) => {
                self.state = State::Idle;
                self.pending = None;
                Action::TransportFailure
            },
            (State::Fetching, Event::Fetched(digest)) => {
                let unchanged: bool = match &self.live {
                    Some(live) => same_digest(live, &digest),
                    None => false,
                };
                if unchanged {
                    self.state = State::Idle;
                    self.pending = None;
                    Action::UnchangedFeed
                } else {
                    self.state = State::Building;
                    self.pending = Some(digest);
                    Action::Build
                }
            },
            (State::Building, Event::Built) => {
                self.state = State::Publishing;
                self.live = self.pending;
                self.pending = None;
                Action::Publish
            },
            (State::Building, Event::BuildFailed) => {
                self.state = State::Idle;
                self.pending = None;
                Action::BuildFailure
            },
            (State::Publishing, Event::Published) => {
                self.state = State::Idle;
                self.pending = None;
                Action::Wait
            },
            _ => Action::Wait,
        }
    }

    /// Takes the feed `raw` that was fetched into account: its digest is
    /// held against the digest of the feed of the live snapshot.
    pub fn fetched(&mut self, raw: &[u8]) -> (action: Action)
        ensures
            (final(self)@, action) == next(old(self)@, EventView::Fetched(keccak256(raw@))),
    {
        let digest: Hash = digest_of(raw);
        self.step(Event::Fetched(digest))
    }
}

/// The same feed twice in succession: where the first ingest found the feed
/// unchanged, or built and published it, the second finds it unchanged, and
/// nothing is built or published.
pub proof fn lemma_same_feed_twice(start: LifecycleView, digest: Seq<u8>)
    requires
        start.state == State::Fetching,
    ensures
        ({
            let (first, action) = next(start, EventView::Fetched(digest));
            let through = if action == Action::Build {
                next(next(first, EventView::Built).0, EventView::Published).0
            } else {
                first
            };
            let again = next(through, EventView::Trigger).0;
            let (second, answer) = next(again, EventView::Fetched(digest));
            &&& through.state == State::Idle
            &&& answer == Action::UnchangedFeed
            &&& second.state == State::Idle
            &&& second.live == Some(digest)
        }),
{
}

/// A feed that could not be fetched or built leaves the live snapshot as it
/// is.
pub proof fn lemma_failure_keeps_live(now: LifecycleView)
    ensures
        next(now, EventView::FetchFailed).0.live == now.live,
        next(now, EventView::BuildFailed).0.live == now.live,
{
}

} // verus!
