//! Change detection and delivery for a set of syndication feeds.
//!
//! Each run reduces every feed to the snapshot of its latest item, compares
//! the new snapshots with the stored ones, and, when something changed,
//! persists the new set before sending one message per change.
mod detect;
mod error;
mod feed;
mod run;
mod snapshot;
mod store;

pub use detect::{
    change_message, detect, detect_spec, feed_change, feed_changed, is_newer,
    lemma_equal_dates_no_change, lemma_first_seen_is_reported, lemma_no_change_against_itself,
    lemma_unchanged_dates_no_messages, message_of, newer_spec, rfc2822_millis, texts,
};
pub use error::NotifyError;
pub use feed::{
    build_snapshot, feed_snapshot, fetched_views, item_views, latest_snapshots, latest_spec, rss_items,
    snapshot_from_feed, snapshot_of, snapshot_result, text_view, FeedItem, FetchedView, ItemView,
};
pub use run::{
    action_of, after_events, begin_run, delivery_wf, lemma_persisted_before_dispatch,
    lemma_step_keeps_store, next_view, Action, Delivery, DeliveryView, Event, Stage,
};
pub use snapshot::{map_of, names_distinct, FeedSnapshot, NamedView, SnapshotSet, SnapshotView};
pub use store::{
    lemma_stored_round_trip, restored_of, stored_of, stored_views, without_enclosure, StoredItem,
    StoredView,
};
