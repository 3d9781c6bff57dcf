//! Building a snapshot of the catalog from a feed.

pub mod champion;
pub mod feed;
pub mod fold;
pub mod linking;
pub mod pass;
pub mod rewrite;
pub mod rune;
pub mod snapshot;

pub use fold::BuildError;
pub use feed::{AbilitySet, Feed, FeedAbility, FeedChamp, FeedRune};
pub use rewrite::{fix_desc, TagId};
pub use snapshot::{build, create_search_index};
