use vstd::prelude::*;

use crate::error::NotifyError;
use crate::snapshot::{FeedSnapshot, SnapshotSet, SnapshotView};

verus! {

/// The fields of a fetched feed item that a snapshot needs, each possibly absent.
pub struct FeedItem {
    pub title: Option<String>,
    pub link: Option<String>,
    pub pub_date: Option<String>,
    pub enclosure_url: Option<String>,
}

pub struct ItemView {
    pub title: Option<Seq<char>>,
    pub link: Option<Seq<char>>,
    pub pub_date: Option<Seq<char>>,
    pub enclosure_url: Option<Seq<char>>,
}

pub open spec fn text_view(o: Option<String>) -> Option<Seq<char>> {
    match o {
        Some(s) => Some(s@),
        None => None,
    }
}

impl View for FeedItem {
    type V = ItemView;

    open spec fn view(&self) -> ItemView {
        ItemView {
            title: text_view(self.title),
            link: text_view(self.link),
            pub_date: text_view(self.pub_date),
            enclosure_url: text_view(self.enclosure_url),
        }
    }
}

pub open spec fn item_views(v: Seq<FeedItem>) -> Seq<ItemView> {
    v.map_values(|i: FeedItem| i@)
}

/// The items of the RSS channel that `bytes` encode, in document order, or
/// `None` where the bytes are no such channel.
pub uninterp spec fn rss_items(bytes: Seq<u8>) -> Option<Seq<ItemView>>;

/// Relies on rss's `Channel::read_from` to read the channel, and on
/// `Channel::into_items` with the accessors of `Item` and `Enclosure` to hand
/// out the fields of each item.
#[verifier::external_body]
fn read_channel_items(bytes: &[u8]) -> (r: Option<Vec<FeedItem>>)
    ensures
        match r {
            Some(v) => rss_items(bytes@) == Some(item_views(v@)),
            None => rss_items(bytes@) is None,
        },
{
    let channel = rss::Channel::read_from(bytes).ok()?;
    Some(channel.into_items().iter().map(|i| FeedItem {
        title: i.title().map(|s| s.to_string()),
        link: i.link().map(|s| s.to_string()),
        pub_date: i.pub_date().map(|s| s.to_string()),
        enclosure_url: i.enclosure().map(|e| e.url().to_string()),
    }).collect())
}

/// The snapshot of a feed whose items come newest first: its first item,
/// which must carry all four fields.
pub open spec fn snapshot_of(items: Seq<ItemView>) -> Result<SnapshotView, NotifyError> {
    if items.len() == 0 {
        Err(NotifyError::IncompleteItem)
    } else {
        let it = items[0];
        if it.title is Some && it.link is Some && it.pub_date is Some && it.enclosure_url is Some {
            Ok(
                SnapshotView {
                    title: it.title->Some_0,
                    link: it.link->Some_0,
                    pub_date: it.pub_date->Some_0,
                    enclosure_url: it.enclosure_url->Some_0,
                },
            )
        } else {
            Err(NotifyError::IncompleteItem)
        }
    }
}

/// The snapshot of the feed whose channel `bytes` encode.
pub open spec fn feed_snapshot(bytes: Seq<u8>) -> Result<SnapshotView, NotifyError> {
    match rss_items(bytes) {
        Some(items) => snapshot_of(items),
        None => Err(NotifyError::Fetch),
    }
}

pub open spec fn snapshot_result(r: Result<FeedSnapshot, NotifyError>) -> Result<
    SnapshotView,
    NotifyError,
> {
    match r {
        Ok(s) => Ok(s@),
        Err(e) => Err(e),
    }
}

/// Reduces a feed's items, newest first, to the snapshot of the latest.
pub fn build_snapshot(items: &Vec<FeedItem>) -> (r: Result<FeedSnapshot, NotifyError>)
    ensures
        snapshot_result(r) == snapshot_of(item_views(items@)),
{
    if items.len() == 0 {
        return Err(NotifyError::IncompleteItem);
    }
    let it = &items[0];
    assert(item_views(items@)[0] == it@);
    match (&it.title, &it.link, &it.pub_date, &it.enclosure_url) {
        (Some(t), Some(l), Some(d), Some(e)) => Ok(
            FeedSnapshot::new(t.clone(), l.clone(), d.clone(), e.clone()),
        ),
        _ => Err(NotifyError::IncompleteItem),
    }
}

/// The snapshot of the feed whose channel document is `bytes`.
pub fn snapshot_from_feed(bytes: &[u8]) -> (r: Result<FeedSnapshot, NotifyError>)
    ensures
        snapshot_result(r) == feed_snapshot(bytes@),
{
    match read_channel_items(bytes) {
        Some(items) => build_snapshot(&items),
        None => Err(NotifyError::Fetch),
    }
}

/// A feed name paired with its channel document.
pub type FetchedView = (Seq<char>, Seq<u8>);

pub open spec fn fetched_views(v: Seq<(String, Vec<u8>)>) -> Seq<FetchedView> {
    v.map_values(|f: (String, Vec<u8>)| (f.0@, f.1@))
}

/// The snapshots of the fetched feeds, inserted by name from first to last;
/// the first feed that yields no snapshot ends it with its error.
pub open spec fn latest_spec(feeds: Seq<FetchedView>) -> Result<
    Map<Seq<char>, SnapshotView>,
    NotifyError,
>
    decreases feeds.len(),
{
    if feeds.len() == 0 {
        Ok(Map::empty())
    } else {
        match latest_spec(feeds.drop_last()) {
            Err(e) => Err(e),
            Ok(m) => match feed_snapshot(feeds.last().1) {
                Err(e) => Err(e),
                Ok(s) => Ok(m.insert(feeds.last().0, s)),
            },
        }
    }
}

/// Builds the snapshot of every fetched feed, keyed by feed name; a later
/// feed of the same name replaces an earlier one.
pub fn latest_snapshots(feeds: &Vec<(String, Vec<u8>)>) -> (r: Result<SnapshotSet, NotifyError>)
    ensures
        match r {
            Ok(s) => s.wf() && latest_spec(fetched_views(feeds@)) == Ok::<
                Map<Seq<char>, SnapshotView>,
                NotifyError,
            >(s@),
            Err(e) => latest_spec(fetched_views(feeds@)) == Err::<
                Map<Seq<char>, SnapshotView>,
                NotifyError,
            >(e),
        },
{
    let ghost p = fetched_views(feeds@);
    let mut set = SnapshotSet::new();
    let mut i: usize = 0;
    while i < feeds.len()
        invariant
            i <= feeds@.len(),
            p == fetched_views(feeds@),
            set.wf(),
            latest_spec(p.subrange(0, i as int)) == Ok::<
                Map<Seq<char>, SnapshotView>,
                NotifyError,
            >(set@),
        decreases feeds@.len() - i,
    {
        proof {
            assert(p.subrange(0, i + 1).drop_last() =~= p.subrange(0, i as int));
            assert(p[i as int] == (feeds@[i as int].0@, feeds@[i as int].1@));
        }
        match snapshot_from_feed(feeds[i].1.as_slice()) {
            Err(e) => {
                proof {
                    lemma_latest_error_persists(p, i + 1);
                }
                return Err(e);
            },
            Ok(s) => {
                set.insert(feeds[i].0.clone(), s);
            },
        }
        i = i + 1;
    }
    proof {
        assert(p.subrange(0, p.len() as int) =~= p);
    }
    Ok(set)
}

proof fn lemma_latest_error_persists(p: Seq<FetchedView>, n: int)
    requires
        0 <= n <= p.len(),
        latest_spec(p.subrange(0, n)) is Err,
    ensures
        latest_spec(p) == latest_spec(p.subrange(0, n)),
    decreases p.len() - n,
{
    if n < p.len() {
        assert(p.subrange(0, n + 1).drop_last() =~= p.subrange(0, n));
        lemma_latest_error_persists(p, n + 1);
    } else {
        assert(p.subrange(0, n) =~= p);
    }
}

} // verus!
