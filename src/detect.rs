use vstd::prelude::*;

use crate::error::NotifyError;
use crate::snapshot::{FeedSnapshot, NamedView, SnapshotSet, SnapshotView};

verus! {

/// The instant that an RFC 2822 timestamp denotes, in milliseconds since the
/// Unix epoch, or `None` where the text is no such timestamp.
pub uninterp spec fn rfc2822_millis(s: Seq<char>) -> Option<i64>;

/// Relies on chrono's `DateTime::parse_from_rfc2822` to read the timestamp,
/// and on `DateTime::timestamp_millis` to give its instant as an integer.
#[verifier::external_body]
fn parse_rfc2822_millis(s: &str) -> (r: Option<i64>)
    ensures
        r == rfc2822_millis(s@),
{
    chrono::DateTime::parse_from_rfc2822(s).ok().map(|d| d.timestamp_millis())
}

/// Whether the new instant lies strictly after the old one; both must be known.
pub open spec fn newer_spec(new_instant: Option<i64>, old_instant: Option<i64>) -> Result<
    bool,
    NotifyError,
> {
    match (new_instant, old_instant) {
        (Some(a), Some(b)) => Ok(a > b),
        _ => Err(NotifyError::DateParse),
    }
}

/// Whether the feed `name`, now at snapshot `s`, changed since `old`: a feed
/// seen for the first time has changed; a known one only where its latest
/// item is strictly newer.
pub open spec fn feed_change(name: Seq<char>, s: SnapshotView, old: Map<Seq<char>, SnapshotView>) -> Result<
    bool,
    NotifyError,
> {
    if old.contains_key(name) {
        newer_spec(rfc2822_millis(s.pub_date), rfc2822_millis(old[name].pub_date))
    } else {
        Ok(true)
    }
}

/// The message announcing a changed feed.
pub open spec fn message_of(s: SnapshotView) -> Seq<char> {
    s.title + seq![':', ' '] + s.pub_date + seq!['\n', ' '] + s.link + seq!['\n', ' ']
        + s.enclosure_url
}

/// The messages for the entries of `new` that changed against `old`, in the
/// order of the entries; the first unreadable date ends it with an error.
pub open spec fn detect_spec(new: Seq<NamedView>, old: Map<Seq<char>, SnapshotView>) -> Result<
    Seq<Seq<char>>,
    NotifyError,
>
    decreases new.len(),
{
    if new.len() == 0 {
        Ok(Seq::empty())
    } else {
        match detect_spec(new.drop_last(), old) {
            Err(e) => Err(e),
            Ok(msgs) => match feed_change(new.last().0, new.last().1, old) {
                Err(e) => Err(e),
                Ok(changed) => if changed {
                    Ok(msgs.push(message_of(new.last().1)))
                } else {
                    Ok(msgs)
                },
            },
        }
    }
}

pub open spec fn texts(v: Seq<String>) -> Seq<Seq<char>> {
    v.map_values(|s: String| s@)
}

/// Decides on two instants read from publication dates.
pub fn is_newer(new_instant: Option<i64>, old_instant: Option<i64>) -> (r: Result<bool, NotifyError>)
    ensures
        r == newer_spec(new_instant, old_instant),
{
    match (new_instant, old_instant) {
        (Some(a), Some(b)) => Ok(a > b),
        _ => Err(NotifyError::DateParse),
    }
}

/// Whether the feed `name`, now at `snapshot`, changed since `old`.
pub fn feed_changed(name: &String, snapshot: &FeedSnapshot, old: &SnapshotSet) -> (r: Result<
    bool,
    NotifyError,
>)
    requires
        old.wf(),
    ensures
        r == feed_change(name@, snapshot@, old@),
{
    match old.get(name) {
        None => Ok(true),
        Some(prev) => {
            let new_instant = parse_rfc2822_millis(snapshot.pub_date.as_str());
            let old_instant = parse_rfc2822_millis(prev.pub_date.as_str());
            is_newer(new_instant, old_instant)
        },
    }
}

/// The message announcing that `s` is the feed's new latest item.
pub fn change_message(s: &FeedSnapshot) -> (r: String)
    ensures
        r@ == message_of(s@),
{
    let mut m = s.title.clone();
    m.append(": ");
    m.append(s.pub_date.as_str());
    m.append("\n ");
    m.append(s.link.as_str());
    m.append("\n ");
    m.append(s.enclosure_url.as_str());
    proof {
        reveal_strlit(": ");
        reveal_strlit("\n ");
        assert(m@ =~= message_of(s@));
    }
    m
}

/// One message per feed of `new` that changed against `old`, in the order of
/// `new`'s entries. Fails where a date needed for a comparison is unreadable.
pub fn detect(new: &SnapshotSet, old: &SnapshotSet) -> (r: Result<Vec<String>, NotifyError>)
    requires
        new.wf(),
        old.wf(),
    ensures
        match r {
            Ok(v) => detect_spec(new.pairs(), old@) == Ok::<Seq<Seq<char>>, NotifyError>(texts(v@)),
            Err(e) => detect_spec(new.pairs(), old@) == Err::<Seq<Seq<char>>, NotifyError>(e),
        },
{
    let entries = new.entries();
    let ghost p = new.pairs();
    let mut out: Vec<String> = Vec::new();
    let mut i: usize = 0;
    proof {
        assert(texts(out@) =~= Seq::<Seq<char>>::empty());
        assert(p.subrange(0, 0).len() == 0);
    }
    while i < entries.len()
        invariant
            i <= entries@.len(),
            p == entries@.map_values(|e: (String, FeedSnapshot)| (e.0@, e.1@)),
            p == new.pairs(),
            old.wf(),
            detect_spec(p.subrange(0, i as int), old@) == Ok::<Seq<Seq<char>>, NotifyError>(
                texts(out@),
            ),
        decreases entries@.len() - i,
    {
        let ghost before = out@;
        let changed = feed_changed(&entries[i].0, &entries[i].1, old);
        proof {
            assert(p.subrange(0, i + 1).drop_last() =~= p.subrange(0, i as int));
            assert(p[i as int] == (entries@[i as int].0@, entries@[i as int].1@));
        }
        match changed {
            Err(e) => {
                proof {
                    lemma_error_persists(p, old@, i + 1);
                }
                return Err(e);
            },
            Ok(true) => {
                out.push(change_message(&entries[i].1));
                proof {
                    assert(texts(out@) =~= texts(before).push(message_of(p[i as int].1)));
                }
            },
            Ok(false) => {},
        }
        i = i + 1;
    }
    proof {
        assert(p.subrange(0, p.len() as int) =~= p);
    }
    Ok(out)
}

/// An error on a prefix of the entries is the error of the whole.
proof fn lemma_error_persists(p: Seq<NamedView>, old: Map<Seq<char>, SnapshotView>, n: int)
    requires
        0 <= n <= p.len(),
        detect_spec(p.subrange(0, n), old) is Err,
    ensures
        detect_spec(p, old) == detect_spec(p.subrange(0, n), old),
    decreases p.len() - n,
{
    if n < p.len() {
        assert(p.subrange(0, n + 1).drop_last() =~= p.subrange(0, n));
        lemma_error_persists(p, old, n + 1);
    } else {
        assert(p.subrange(0, n) =~= p);
    }
}

/// Where every entry has a stored snapshot with the same publication date,
/// no message comes out: the result is empty, or an unreadable date stops it.
proof fn lemma_same_dates_no_messages(p: Seq<NamedView>, old: Map<Seq<char>, SnapshotView>)
    requires
        forall|i: int|
            0 <= i < p.len() ==> old.contains_key(#[trigger] p[i].0) && old[p[i].0].pub_date
                == p[i].1.pub_date,
    ensures
        detect_spec(p, old) == Ok::<Seq<Seq<char>>, NotifyError>(Seq::empty()) || detect_spec(
            p,
            old,
        ) == Err::<Seq<Seq<char>>, NotifyError>(NotifyError::DateParse),
        (forall|i: int| 0 <= i < p.len() ==> (#[trigger] rfc2822_millis(p[i].1.pub_date)) is Some)
            ==> detect_spec(p, old) == Ok::<Seq<Seq<char>>, NotifyError>(Seq::empty()),
    decreases p.len(),
{
    if p.len() > 0 {
        let q = p.drop_last();
        assert forall|i: int| 0 <= i < q.len() implies old.contains_key(#[trigger] q[i].0)
            && old[q[i].0].pub_date == q[i].1.pub_date by {
            assert(q[i] == p[i]);
        }
        lemma_same_dates_no_messages(q, old);
        assert(p.last() == p[p.len() - 1]);
        if forall|i: int| 0 <= i < p.len() ==> (#[trigger] rfc2822_millis(p[i].1.pub_date)) is Some {
            assert forall|i: int| 0 <= i < q.len() implies (#[trigger] rfc2822_millis(
                q[i].1.pub_date,
            )) is Some by {
                assert(q[i] == p[i]);
            }
            assert(rfc2822_millis(p[p.len() - 1].1.pub_date) is Some);
        }
    }
}

/// A feed whose stored snapshot carries the same publication date has not
/// changed: a change needs a strictly later date.
pub proof fn lemma_equal_dates_no_change(
    name: Seq<char>,
    s: SnapshotView,
    old: Map<Seq<char>, SnapshotView>,
)
    requires
        old.contains_key(name),
        old[name].pub_date == s.pub_date,
    ensures
        feed_change(name, s, old) != Ok::<bool, NotifyError>(true),
        rfc2822_millis(s.pub_date) is Some ==> feed_change(name, s, old) == Ok::<bool, NotifyError>(
            false,
        ),
{
}

/// Where every feed of `new` is stored in `old` with the same publication
/// date, detection yields no message (or stops on an unreadable date).
pub proof fn lemma_unchanged_dates_no_messages(new: SnapshotSet, old: SnapshotSet)
    requires
        new.wf(),
        forall|k: Seq<char>|
            #[trigger] new@.contains_key(k) ==> old@.contains_key(k) && old@[k].pub_date
                == new@[k].pub_date,
    ensures
        detect_spec(new.pairs(), old@) matches Ok(v) ==> v.len() == 0,
{
    assert forall|i: int| 0 <= i < new.pairs().len() implies old@.contains_key(
        #[trigger] new.pairs()[i].0,
    ) && old@[new.pairs()[i].0].pub_date == new.pairs()[i].1.pub_date by {
        new.lemma_pair_lookup(i);
    }
    lemma_same_dates_no_messages(new.pairs(), old@);
}

/// Comparing a set of snapshots with itself reports nothing, where every
/// stored publication date is readable.
pub proof fn lemma_no_change_against_itself(s: SnapshotSet)
    requires
        s.wf(),
        forall|k: Seq<char>| #[trigger] s@.contains_key(k) ==> rfc2822_millis(s@[k].pub_date) is Some,
    ensures
        detect_spec(s.pairs(), s@) == Ok::<Seq<Seq<char>>, NotifyError>(Seq::empty()),
{
    assert forall|i: int| 0 <= i < s.pairs().len() implies s@.contains_key(#[trigger] s.pairs()[i].0)
        && s@[s.pairs()[i].0].pub_date == s.pairs()[i].1.pub_date by {
        s.lemma_pair_lookup(i);
    }
    assert forall|i: int| 0 <= i < s.pairs().len() implies (#[trigger] rfc2822_millis(
        s.pairs()[i].1.pub_date,
    )) is Some by {
        s.lemma_pair_lookup(i);
    }
    lemma_same_dates_no_messages(s.pairs(), s@);
}

/// A changed entry has its message among the results.
proof fn lemma_changed_entry_reported(p: Seq<NamedView>, old: Map<Seq<char>, SnapshotView>, i: int)
    requires
        0 <= i < p.len(),
        feed_change(p[i].0, p[i].1, old) == Ok::<bool, NotifyError>(true),
    ensures
        detect_spec(p, old) matches Ok(v) ==> v.contains(message_of(p[i].1)),
    decreases p.len(),
{
    let q = p.drop_last();
    if i == p.len() - 1 {
        if let Ok(v) = detect_spec(p, old) {
            assert(v[v.len() - 1] == message_of(p[i].1));
        }
    } else {
        assert(q[i] == p[i]);
        lemma_changed_entry_reported(q, old, i);
        if let Ok(v) = detect_spec(p, old) {
            let w = detect_spec(q, old)->Ok_0;
            let j = choose|j: int| 0 <= j < w.len() && w[j] == message_of(p[i].1);
            assert(v[j] == w[j]);
        }
    }
}

/// A feed seen for the first time is always reported, whatever its date.
pub proof fn lemma_first_seen_is_reported(new: SnapshotSet, old: SnapshotSet, k: Seq<char>)
    requires
        new.wf(),
        new@.contains_key(k),
        !old@.contains_key(k),
    ensures
        feed_change(k, new@[k], old@) == Ok::<bool, NotifyError>(true),
        detect_spec(new.pairs(), old@) matches Ok(v) ==> v.contains(message_of(new@[k])),
{
    new.lemma_key_has_pair(k);
    let i = choose|i: int| 0 <= i < new.pairs().len() && new.pairs()[i].0 == k;
    new.lemma_pair_lookup(i);
    lemma_changed_entry_reported(new.pairs(), old@, i);
}

} // verus!
