use vstd::prelude::*;

verus! {

/// What is remembered of one feed: its latest item.
pub struct FeedSnapshot {
    pub title: String,
    pub link: String,
    /// Publication time in the textual form of RFC 2822.
    pub pub_date: String,
    /// Address of the item's enclosure; never stored, never compared.
    pub enclosure_url: String,
}

/// The mathematical value of a [`FeedSnapshot`].
pub struct SnapshotView {
    pub title: Seq<char>,
    pub link: Seq<char>,
    pub pub_date: Seq<char>,
    pub enclosure_url: Seq<char>,
}

impl View for FeedSnapshot {
    type V = SnapshotView;

    open spec fn view(&self) -> SnapshotView {
        SnapshotView {
            title: self.title@,
            link: self.link@,
            pub_date: self.pub_date@,
            enclosure_url: self.enclosure_url@,
        }
    }
}

impl FeedSnapshot {
    pub fn new(title: String, link: String, pub_date: String, enclosure_url: String) -> (r:
        FeedSnapshot)
        ensures
            r@ == (SnapshotView {
                title: title@,
                link: link@,
                pub_date: pub_date@,
                enclosure_url: enclosure_url@,
            }),
    {
        FeedSnapshot { title, link, pub_date, enclosure_url }
    }
}

/// A feed name paired with the view of its snapshot.
pub type NamedView = (Seq<char>, SnapshotView);

/// The map that results from inserting the pairs from first to last: a later
/// pair with the same name replaces an earlier one.
pub open spec fn map_of(p: Seq<NamedView>) -> Map<Seq<char>, SnapshotView>
    decreases p.len(),
{
    if p.len() == 0 {
        Map::empty()
    } else {
        map_of(p.drop_last()).insert(p.last().0, p.last().1)
    }
}

/// No name occurs twice.
pub open spec fn names_distinct(p: Seq<NamedView>) -> bool {
    forall|i: int, j: int| 0 <= i < j < p.len() ==> p[i].0 != p[j].0
}

/// The snapshots of all known feeds, at most one per feed name.
pub struct SnapshotSet {
    entries: Vec<(String, FeedSnapshot)>,
}

impl View for SnapshotSet {
    type V = Map<Seq<char>, SnapshotView>;

    open spec fn view(&self) -> Map<Seq<char>, SnapshotView> {
        map_of(self.pairs())
    }
}

impl SnapshotSet {
    /// The entries in the order in which they are kept.
    pub closed spec fn pairs(&self) -> Seq<NamedView> {
        self.entries@.map_values(|e: (String, FeedSnapshot)| (e.0@, e.1@))
    }

    pub closed spec fn wf(&self) -> bool {
        names_distinct(self.pairs())
    }

    pub fn new() -> (r: SnapshotSet)
        ensures
            r.wf(),
            r@ == Map::<Seq<char>, SnapshotView>::empty(),
            r.pairs().len() == 0,
    {
        let r = SnapshotSet { entries: Vec::new() };
        assert(r.pairs() =~= Seq::<NamedView>::empty());
        r
    }

    pub fn len(&self) -> (r: usize)
        requires
            self.wf(),
        ensures
            r == self@.len(),
            r == self.pairs().len(),
    {
        proof {
            lemma_map_of_len(self.pairs());
        }
        self.entries.len()
    }

    /// Index of the entry named `name`, if there is one.
    fn find(&self, name: &String) -> (r: Option<usize>)
        ensures
            match r {
                Some(i) => i < self.pairs().len() && self.pairs()[i as int].0 == name@,
                None => forall|i: int| 0 <= i < self.pairs().len() ==> self.pairs()[i].0 != name@,
            },
    {
        let mut i: usize = 0;
        while i < self.entries.len()
            invariant
                i <= self.entries@.len(),
                self.pairs().len() == self.entries@.len(),
                forall|j: int| 0 <= j < i ==> self.pairs()[j].0 != name@,
            decreases self.entries@.len() - i,
        {
            if self.entries[i].0 == *name {
                return Some(i);
            }
            i = i + 1;
        }
        None
    }

    /// The snapshot stored under `name`.
    pub fn get(&self, name: &String) -> (r: Option<&FeedSnapshot>)
        requires
            self.wf(),
        ensures
            r is Some <==> self@.contains_key(name@),
            r matches Some(s) ==> s@ == self@[name@],
    {
        proof {
            lemma_map_of_domain(self.pairs());
        }
        match self.find(name) {
            Some(i) => {
                proof {
                    lemma_map_of_lookup(self.pairs(), i as int);
                }
                Some(&self.entries[i].1)
            },
            None => None,
        }
    }

    /// Stores `snapshot` under `name`, replacing what was stored there.
    pub fn insert(&mut self, name: String, snapshot: FeedSnapshot)
        requires
            old(self).wf(),
        ensures
            final(self).wf(),
            final(self)@ == old(self)@.insert(name@, snapshot@),
    {
        let ghost p0 = self.pairs();
        let ghost x: NamedView = (name@, snapshot@);
        match self.find(&name) {
            Some(i) => {
                self.entries.remove(i);
                self.entries.insert(i, (name, snapshot));
                proof {
                    assert(self.pairs() =~= p0.update(i as int, x));
                    lemma_map_of_update(p0, i as int, x);
                }
            },
            None => {
                self.entries.push((name, snapshot));
                proof {
                    assert(self.pairs() =~= p0.push(x));
                    assert(self.pairs().drop_last() =~= p0);
                }
            },
        }
    }

    /// Entry `i` is what the view holds under its name.
    pub proof fn lemma_pair_lookup(&self, i: int)
        requires
            self.wf(),
            0 <= i < self.pairs().len(),
        ensures
            self@.contains_key(self.pairs()[i].0),
            self@[self.pairs()[i].0] == self.pairs()[i].1,
    {
        lemma_map_of_lookup(self.pairs(), i);
    }

    /// Each name of the view is the name of an entry.
    pub proof fn lemma_key_has_pair(&self, k: Seq<char>)
        requires
            self.wf(),
            self@.contains_key(k),
        ensures
            exists|i: int| 0 <= i < self.pairs().len() && self.pairs()[i].0 == k,
    {
        lemma_map_of_domain(self.pairs());
    }

    /// The entries, each name once.
    pub fn entries(&self) -> (r: &Vec<(String, FeedSnapshot)>)
        ensures
            r@.map_values(|e: (String, FeedSnapshot)| (e.0@, e.1@)) == self.pairs(),
    {
        &self.entries
    }

    /// The set that results from inserting the pairs from first to last.
    pub fn from_entries(v: Vec<(String, FeedSnapshot)>) -> (r: SnapshotSet)
        ensures
            r.wf(),
            r@ == map_of(v@.map_values(|e: (String, FeedSnapshot)| (e.0@, e.1@))),
    {
        let ghost p = v@.map_values(|e: (String, FeedSnapshot)| (e.0@, e.1@));
        let mut r = SnapshotSet::new();
        let mut rest = v;
        let ghost mut k: int = 0;
        while rest.len() > 0
            invariant
                0 <= k <= p.len(),
                r.wf(),
                r@ == map_of(p.subrange(0, k)),
                rest@.map_values(|e: (String, FeedSnapshot)| (e.0@, e.1@)) == p.subrange(k, p.len() as int),
            decreases rest@.len(),
        {
            let ghost before = rest@;
            let (name, snapshot) = rest.remove(0);
            proof {
                let bm = before.map_values(|e: (String, FeedSnapshot)| (e.0@, e.1@));
                assert(bm.len() == before.len());
                assert(k < p.len());
                assert(bm[0] == (before[0].0@, before[0].1@));
                assert(bm[0] == p.subrange(k, p.len() as int)[0]);
                assert(p[k] == (name@, snapshot@));
                assert(p.subrange(0, k + 1).drop_last() =~= p.subrange(0, k));
                let rm = rest@.map_values(|e: (String, FeedSnapshot)| (e.0@, e.1@));
                let tail = p.subrange(k + 1, p.len() as int);
                assert(rm.len() == tail.len());
                assert forall|j: int| 0 <= j < rm.len() implies rm[j] == tail[j] by {
                    assert(rest@[j] == before[j + 1]);
                    assert(bm[j + 1] == p.subrange(k, p.len() as int)[j + 1]);
                }
                assert(rm =~= tail);
                k = k + 1;
            }
            r.insert(name, snapshot);
        }
        assert(p.subrange(0, k) =~= p);
        r
    }
}

proof fn lemma_map_of_domain(p: Seq<NamedView>)
    ensures
        forall|k: Seq<char>|
            map_of(p).contains_key(k) <==> exists|i: int| 0 <= i < p.len() && p[i].0 == k,
    decreases p.len(),
{
    if p.len() > 0 {
        let q = p.drop_last();
        lemma_map_of_domain(q);
        assert forall|k: Seq<char>|
            map_of(p).contains_key(k) <==> exists|i: int| 0 <= i < p.len() && p[i].0 == k by {
            if k == p.last().0 {
                assert(p[p.len() - 1].0 == k);
            } else {
                if map_of(q).contains_key(k) {
                    let i = choose|i: int| 0 <= i < q.len() && q[i].0 == k;
                    assert(q[i] == p[i]);
                }
                if exists|i: int| 0 <= i < p.len() && p[i].0 == k {
                    let i = choose|i: int| 0 <= i < p.len() && p[i].0 == k;
                    assert(i < p.len() - 1);
                    assert(q[i] == p[i]);
                    assert(map_of(q).contains_key(k));
                }
            }
        }
    }
}

proof fn lemma_map_of_lookup(p: Seq<NamedView>, i: int)
    requires
        names_distinct(p),
        0 <= i < p.len(),
    ensures
        map_of(p).contains_key(p[i].0),
        map_of(p)[p[i].0] == p[i].1,
    decreases p.len(),
{
    if i < p.len() - 1 {
        let q = p.drop_last();
        assert(q[i] == p[i]);
        lemma_map_of_lookup(q, i);
    }
}

proof fn lemma_map_of_len(p: Seq<NamedView>)
    requires
        names_distinct(p),
    ensures
        map_of(p).len() == p.len(),
        map_of(p).dom().finite(),
    decreases p.len(),
{
    if p.len() > 0 {
        let q = p.drop_last();
        lemma_map_of_len(q);
        lemma_map_of_domain(q);
        assert(!map_of(q).contains_key(p.last().0)) by {
            if map_of(q).contains_key(p.last().0) {
                let j = choose|j: int| 0 <= j < q.len() && q[j].0 == p.last().0;
                assert(p[j].0 == p[p.len() - 1].0);
            }
        }
    }
}

proof fn lemma_map_of_update(p: Seq<NamedView>, i: int, x: NamedView)
    requires
        names_distinct(p),
        0 <= i < p.len(),
        p[i].0 == x.0,
    ensures
        names_distinct(p.update(i, x)),
        map_of(p.update(i, x)) == map_of(p).insert(x.0, x.1),
    decreases p.len(),
{
    let u = p.update(i, x);
    let q = p.drop_last();
    if i == p.len() - 1 {
        assert(u.drop_last() =~= q);
        assert(map_of(u) =~= map_of(p).insert(x.0, x.1));
    } else {
        assert(u.drop_last() =~= q.update(i, x));
        lemma_map_of_update(q, i, x);
        assert(p.last().0 != x.0);
        assert(map_of(u) =~= map_of(p).insert(x.0, x.1));
    }
}

} // verus!
