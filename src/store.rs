use vstd::prelude::*;

use crate::snapshot::{map_of, FeedSnapshot, NamedView, SnapshotSet, SnapshotView};

verus! {

/// The persisted form of a snapshot: the enclosure address is left out.
pub struct StoredItem {
    pub title: String,
    pub link: String,
    pub pub_date: String,
}

pub struct StoredView {
    pub title: Seq<char>,
    pub link: Seq<char>,
    pub pub_date: Seq<char>,
}

impl View for StoredItem {
    type V = StoredView;

    open spec fn view(&self) -> StoredView {
        StoredView { title: self.title@, link: self.link@, pub_date: self.pub_date@ }
    }
}

pub open spec fn stored_of(s: SnapshotView) -> StoredView {
    StoredView { title: s.title, link: s.link, pub_date: s.pub_date }
}

/// A snapshot read back from its persisted form, with no enclosure address.
pub open spec fn restored_of(s: StoredView) -> SnapshotView {
    SnapshotView { title: s.title, link: s.link, pub_date: s.pub_date, enclosure_url: Seq::empty() }
}

pub open spec fn stored_views(v: Seq<(String, StoredItem)>) -> Seq<(Seq<char>, StoredView)> {
    v.map_values(|e: (String, StoredItem)| (e.0@, e.1@))
}

/// The snapshot with its enclosure address dropped, as storing and loading leave it.
pub open spec fn without_enclosure(s: SnapshotView) -> SnapshotView {
    SnapshotView { enclosure_url: Seq::empty(), ..s }
}

impl SnapshotSet {
    /// The persisted form of every entry.
    pub fn to_stored(&self) -> (r: Vec<(String, StoredItem)>)
        ensures
            stored_views(r@) == self.pairs().map_values(
                |e: NamedView| (e.0, stored_of(e.1)),
            ),
    {
        let entries = self.entries();
        let ghost p = self.pairs();
        let mut out: Vec<(String, StoredItem)> = Vec::new();
        let mut i: usize = 0;
        while i < entries.len()
            invariant
                i <= entries@.len(),
                p == entries@.map_values(|e: (String, FeedSnapshot)| (e.0@, e.1@)),
                stored_views(out@) == p.subrange(0, i as int).map_values(
                    |e: NamedView| (e.0, stored_of(e.1)),
                ),
            decreases entries@.len() - i,
        {
            let s = &entries[i].1;
            let item = StoredItem {
                title: s.title.clone(),
                link: s.link.clone(),
                pub_date: s.pub_date.clone(),
            };
            let ghost before = out@;
            out.push((entries[i].0.clone(), item));
            proof {
                assert(p[i as int] == (entries@[i as int].0@, entries@[i as int].1@));
                assert(stored_views(out@) =~= stored_views(before).push(
                    (p[i as int].0, stored_of(p[i as int].1)),
                ));
                assert(p.subrange(0, i + 1).map_values(|e: NamedView| (e.0, stored_of(e.1)))
                    =~= p.subrange(0, i as int).map_values(|e: NamedView| (e.0, stored_of(e.1))).push(
                    (p[i as int].0, stored_of(p[i as int].1)),
                ));
            }
            i = i + 1;
        }
        proof {
            assert(p.subrange(0, p.len() as int) =~= p);
        }
        out
    }

    /// The set read back from persisted entries, inserted from first to last.
    pub fn from_stored(v: Vec<(String, StoredItem)>) -> (r: SnapshotSet)
        ensures
            r.wf(),
            r@ == map_of(stored_views(v@).map_values(|e: (Seq<char>, StoredView)| (e.0, restored_of(e.1)))),
    {
        let ghost q = stored_views(v@).map_values(
            |e: (Seq<char>, StoredView)| (e.0, restored_of(e.1)),
        );
        let mut entries: Vec<(String, FeedSnapshot)> = Vec::new();
        let mut rest = v;
        let ghost mut k: int = 0;
        while rest.len() > 0
            invariant
                0 <= k <= q.len(),
                entries@.map_values(|e: (String, FeedSnapshot)| (e.0@, e.1@)) == q.subrange(0, k),
                stored_views(rest@).map_values(
                    |e: (Seq<char>, StoredView)| (e.0, restored_of(e.1)),
                ) == q.subrange(k, q.len() as int),
            decreases rest@.len(),
        {
            let ghost before = rest@;
            let ghost before_entries = entries@;
            let (name, item) = rest.remove(0);
            let snapshot = FeedSnapshot::new(item.title, item.link, item.pub_date, String::new());
            entries.push((name, snapshot));
            proof {
                let bm = stored_views(before).map_values(
                    |e: (Seq<char>, StoredView)| (e.0, restored_of(e.1)),
                );
                let sv = stored_views(before);
                assert(bm.len() == before.len());
                assert(k < q.len());
                assert(bm[0] == q.subrange(k, q.len() as int)[0]);
                assert(before[0] == (name, item));
                assert(sv[0] == (name@, item@));
                assert(bm[0] == (sv[0].0, restored_of(sv[0].1)));
                assert(snapshot@ == restored_of(item@));
                assert(entries@ == before_entries.push((name, snapshot)));
                assert(q[k] == (name@, snapshot@));
                let em = entries@.map_values(|e: (String, FeedSnapshot)| (e.0@, e.1@));
                let bem = before_entries.map_values(|e: (String, FeedSnapshot)| (e.0@, e.1@));
                assert(bem == q.subrange(0, k));
                assert(bem.len() == before_entries.len());
                assert(before_entries.len() == k);
                assert(em.len() == k + 1);
                assert forall|j: int| 0 <= j < k + 1 implies em[j] == q.subrange(0, k + 1)[j] by {
                    if j < k {
                        assert(entries@[j] == before_entries[j]);
                        assert(bem[j] == q.subrange(0, k)[j]);
                    }
                }
                assert(em =~= q.subrange(0, k + 1));
                let rm = stored_views(rest@).map_values(
                    |e: (Seq<char>, StoredView)| (e.0, restored_of(e.1)),
                );
                let tail = q.subrange(k + 1, q.len() as int);
                assert forall|j: int| 0 <= j < rm.len() implies rm[j] == tail[j] by {
                    assert(rest@[j] == before[j + 1]);
                    assert(bm[j + 1] == q.subrange(k, q.len() as int)[j + 1]);
                }
                assert(rm =~= tail);
                k = k + 1;
            }
        }
        proof {
            assert(q.subrange(0, k) =~= q);
        }
        SnapshotSet::from_entries(entries)
    }
}

proof fn lemma_map_of_without_enclosure(p: Seq<NamedView>)
    ensures
        map_of(p.map_values(|e: NamedView| (e.0, without_enclosure(e.1)))) == map_of(p).map_values(
            |s: SnapshotView| without_enclosure(s),
        ),
    decreases p.len(),
{
    let f = |e: NamedView| (e.0, without_enclosure(e.1));
    if p.len() > 0 {
        let q = p.drop_last();
        lemma_map_of_without_enclosure(q);
        assert(p.map_values(f).drop_last() =~= q.map_values(f));
        assert(map_of(p.map_values(f)) =~= map_of(p).map_values(
            |s: SnapshotView| without_enclosure(s),
        ));
    } else {
        assert(map_of(p.map_values(f)) =~= map_of(p).map_values(
            |s: SnapshotView| without_enclosure(s),
        ));
    }
}

/// Storing a set and reading it back gives every snapshot back with its
/// enclosure address dropped, as the persisted form leaves it out; a set
/// whose enclosure addresses are all empty comes back unchanged.
pub proof fn lemma_stored_round_trip(s: SnapshotSet, v: Seq<(String, StoredItem)>)
    requires
        s.wf(),
        stored_views(v) == s.pairs().map_values(|e: NamedView| (e.0, stored_of(e.1))),
    ensures
        map_of(stored_views(v).map_values(|e: (Seq<char>, StoredView)| (e.0, restored_of(e.1))))
            == s@.map_values(|x: SnapshotView| without_enclosure(x)),
        (forall|k: Seq<char>| #[trigger] s@.contains_key(k) ==> s@[k].enclosure_url.len() == 0)
            ==> map_of(
            stored_views(v).map_values(|e: (Seq<char>, StoredView)| (e.0, restored_of(e.1))),
        ) == s@,
{
    let p = s.pairs();
    let back = stored_views(v).map_values(|e: (Seq<char>, StoredView)| (e.0, restored_of(e.1)));
    assert(back =~= p.map_values(|e: NamedView| (e.0, without_enclosure(e.1))));
    lemma_map_of_without_enclosure(p);
    if forall|k: Seq<char>| #[trigger] s@.contains_key(k) ==> s@[k].enclosure_url.len() == 0 {
        assert(s@.map_values(|x: SnapshotView| without_enclosure(x)) =~= s@) by {
            assert forall|k: Seq<char>| #[trigger] s@.contains_key(k) implies without_enclosure(
                s@[k],
            ) == s@[k] by {
                assert(s@[k].enclosure_url =~= Seq::<char>::empty());
            }
        }
    }
}

} // verus!
