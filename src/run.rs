use vstd::prelude::*;

use crate::detect::{detect, detect_spec, texts};
use crate::error::NotifyError;
use crate::snapshot::{SnapshotSet, SnapshotView};

verus! {

/// Where a delivery stands.
#[derive(Debug, Clone, Copy, PartialEq, Eq, Structural)]
pub enum Stage {
    /// The new snapshots are to be written to the store.
    Persisting,
    /// A session with the relay is to be opened.
    Connecting,
    /// The next message is to be sent.
    Sending,
    /// Every message went out, or there was nothing to announce.
    Done,
    /// The run stopped on this error.
    Failed(NotifyError),
}

/// What the caller is to do next.
#[derive(Debug, Clone, Copy, PartialEq, Eq, Structural)]
pub enum Action {
    /// Write the delivery's snapshots to the store, replacing what it held.
    Persist,
    /// Open the relay session.
    Connect,
    /// Send the message with this index.
    Send(usize),
    /// Nothing more to do.
    Stop,
}

/// What came of the last action.
#[derive(Debug, Clone, Copy, PartialEq, Eq, Structural)]
pub enum Event {
    Persisted,
    PersistFailed,
    Connected,
    ConnectFailed,
    Sent,
    SendFailed,
}

/// The decisions of one run once changes are known: persist the new
/// snapshots, then open one session and send every message in order, and
/// stop at the first failure without undoing the write.
pub struct Delivery {
    snapshots: SnapshotSet,
    messages: Vec<String>,
    stage: Stage,
    sent: usize,
    persisted: bool,
}

pub struct DeliveryView {
    pub snapshots: Map<Seq<char>, SnapshotView>,
    pub messages: Seq<Seq<char>>,
    pub stage: Stage,
    /// How many messages went out.
    pub sent: nat,
    /// What this run wrote to the store, if it wrote.
    pub stored: Option<Map<Seq<char>, SnapshotView>>,
}

impl View for Delivery {
    type V = DeliveryView;

    closed spec fn view(&self) -> DeliveryView {
        DeliveryView {
            snapshots: self.snapshots@,
            messages: texts(self.messages@),
            stage: self.stage,
            sent: self.sent as nat,
            stored: if self.persisted {
                Some(self.snapshots@)
            } else {
                None
            },
        }
    }
}

/// The states that a delivery can reach.
pub open spec fn delivery_wf(v: DeliveryView) -> bool {
    &&& v.sent <= v.messages.len()
    &&& v.stored is Some ==> v.stored == Some(v.snapshots)
    &&& match v.stage {
        Stage::Persisting => v.stored is None && v.sent == 0 && v.messages.len() > 0,
        Stage::Connecting => v.stored is Some && v.sent == 0 && v.messages.len() > 0,
        Stage::Sending => v.stored is Some && v.sent < v.messages.len(),
        Stage::Done => (v.stored is None && v.messages.len() == 0) || (v.stored is Some && v.sent
            == v.messages.len()),
        Stage::Failed(e) => (e == NotifyError::Dispatch ==> v.stored is Some) && (e
            == NotifyError::Persistence ==> v.stored is None),
    }
    &&& v.sent > 0 ==> v.stored is Some
}

/// The action that a stage asks for.
pub open spec fn action_of(v: DeliveryView) -> Action {
    match v.stage {
        Stage::Persisting => Action::Persist,
        Stage::Connecting => Action::Connect,
        Stage::Sending => Action::Send(v.sent as usize),
        _ => Action::Stop,
    }
}

/// The state after event `ev`; an event that does not answer the current
/// stage's action changes nothing.
pub open spec fn next_view(v: DeliveryView, ev: Event) -> DeliveryView {
    match (v.stage, ev) {
        (Stage::Persisting, Event::Persisted) => DeliveryView {
            stage: Stage::Connecting,
            stored: Some(v.snapshots),
            ..v
        },
        (Stage::Persisting, Event::PersistFailed) => DeliveryView {
            stage: Stage::Failed(NotifyError::Persistence),
            ..v
        },
        (Stage::Connecting, Event::Connected) => DeliveryView { stage: Stage::Sending, ..v },
        (Stage::Connecting, Event::ConnectFailed) => DeliveryView {
            stage: Stage::Failed(NotifyError::Dispatch),
            ..v
        },
        (Stage::Sending, Event::Sent) => DeliveryView {
            stage: if v.sent + 1 == v.messages.len() {
                Stage::Done
            } else {
                Stage::Sending
            },
            sent: v.sent + 1,
            ..v
        },
        (Stage::Sending, Event::SendFailed) => DeliveryView {
            stage: Stage::Failed(NotifyError::Dispatch),
            ..v
        },
        _ => v,
    }
}

/// The state after the events, taken in order.
pub open spec fn after_events(v: DeliveryView, evs: Seq<Event>) -> DeliveryView
    decreases evs.len(),
{
    if evs.len() == 0 {
        v
    } else {
        next_view(after_events(v, evs.drop_last()), evs.last())
    }
}

/// One step keeps a delivery well formed, and never writes the store twice
/// or takes back what was written; connecting and sending come only after
/// the write.
pub proof fn lemma_step_keeps_store(v: DeliveryView, ev: Event)
    requires
        delivery_wf(v),
    ensures
        delivery_wf(next_view(v, ev)),
        next_view(v, ev).snapshots == v.snapshots,
        next_view(v, ev).messages == v.messages,
        v.stored is Some ==> next_view(v, ev).stored == v.stored && action_of(next_view(v, ev))
            != Action::Persist,
        action_of(next_view(v, ev)) is Connect || action_of(next_view(v, ev)) is Send
            ==> next_view(v, ev).stored == Some(v.snapshots),
{
}

/// Whatever the events of a run that starts with nothing written, what it
/// wrote is the new snapshots; where sending failed, or any message went
/// out, they were written before, and stay written.
pub proof fn lemma_persisted_before_dispatch(v: DeliveryView, evs: Seq<Event>)
    requires
        delivery_wf(v),
        v.stored is None,
    ensures
        delivery_wf(after_events(v, evs)),
        after_events(v, evs).snapshots == v.snapshots,
        after_events(v, evs).stored is Some ==> after_events(v, evs).stored == Some(v.snapshots),
        after_events(v, evs).stage == Stage::Failed(NotifyError::Dispatch) ==> after_events(
            v,
            evs,
        ).stored == Some(v.snapshots),
        after_events(v, evs).sent > 0 ==> after_events(v, evs).stored == Some(v.snapshots),
    decreases evs.len(),
{
    if evs.len() > 0 {
        lemma_persisted_before_dispatch(v, evs.drop_last());
        lemma_step_keeps_store(after_events(v, evs.drop_last()), evs.last());
    }
}

impl Delivery {
    /// A delivery of `messages` that persists `snapshots` first; with no
    /// message there is nothing to write or send.
    pub fn start(snapshots: SnapshotSet, messages: Vec<String>) -> (r: (Delivery, Action))
        ensures
            r.0@.snapshots == snapshots@,
            r.0@.messages == texts(messages@),
            r.0@.sent == 0,
            r.0@.stored is None,
            r.0@.stage == (if messages@.len() == 0 {
                Stage::Done
            } else {
                Stage::Persisting
            }),
            delivery_wf(r.0@),
            r.1 == action_of(r.0@),
    {
        let stage = if messages.len() == 0 {
            Stage::Done
        } else {
            Stage::Persisting
        };
        let d = Delivery { snapshots, messages, stage, sent: 0, persisted: false };
        let a = d.action();
        (d, a)
    }

    /// The action that the current stage asks for.
    pub fn action(&self) -> (r: Action)
        ensures
            r == action_of(self@),
    {
        match self.stage {
            Stage::Persisting => Action::Persist,
            Stage::Connecting => Action::Connect,
            Stage::Sending => Action::Send(self.sent),
            _ => Action::Stop,
        }
    }

    /// Takes in what came of the last action and says what to do next.
    pub fn step(&mut self, ev: Event) -> (r: Action)
        requires
            delivery_wf(old(self)@),
        ensures
            final(self)@ == next_view(old(self)@, ev),
            delivery_wf(final(self)@),
            r == action_of(final(self)@),
    {
        match (self.stage, ev) {
            (Stage::Persisting, Event::Persisted) => {
                self.persisted = true;
                self.stage = Stage::Connecting;
            },
            (Stage::Persisting, Event::PersistFailed) => {
                self.stage = Stage::Failed(NotifyError::Persistence);
            },
            (Stage::Connecting, Event::Connected) => {
                self.stage = Stage::Sending;
            },
            (Stage::Connecting, Event::ConnectFailed) => {
                self.stage = Stage::Failed(NotifyError::Dispatch);
            },
            (Stage::Sending, Event::Sent) => {
                let n = self.messages.len();
                assert(n == texts(self.messages@).len());
                self.sent = self.sent + 1;
                if self.sent == n {
                    self.stage = Stage::Done;
                }
            },
            (Stage::Sending, Event::SendFailed) => {
                self.stage = Stage::Failed(NotifyError::Dispatch);
            },
            _ => {},
        }
        self.action()
    }

    /// The snapshots that the `Persist` action writes.
    pub fn snapshots(&self) -> (r: &SnapshotSet)
        ensures
            r@ == self@.snapshots,
    {
        &self.snapshots
    }

    /// The message that `Send(i)` sends.
    pub fn message(&self, i: usize) -> (r: &String)
        requires
            i < self@.messages.len(),
        ensures
            r@ == self@.messages[i as int],
    {
        &self.messages[i]
    }

    pub fn stage(&self) -> (r: Stage)
        ensures
            r == self@.stage,
    {
        self.stage
    }

    pub fn sent(&self) -> (r: usize)
        ensures
            r == self@.sent,
    {
        self.sent
    }

    /// Whether this run has written the new snapshots to the store.
    pub fn persisted(&self) -> (r: bool)
        ensures
            r == self@.stored is Some,
    {
        self.persisted
    }

    /// How the run ended: `Ok` once done, the error once failed, `None` while
    /// work remains.
    pub fn outcome(&self) -> (r: Option<Result<(), NotifyError>>)
        ensures
            r == match self@.stage {
                Stage::Done => Some(Ok(())),
                Stage::Failed(e) => Some(Err(e)),
                _ => None::<Result<(), NotifyError>>,
            },
    {
        match self.stage {
            Stage::Done => Some(Ok(())),
            Stage::Failed(e) => Some(Err(e)),
            _ => None,
        }
    }
}

/// Compares the new snapshots with the stored ones and sets up the delivery
/// of one message per change. The first action is `Persist` where anything
/// changed, and `Stop` where nothing did.
pub fn begin_run(new: SnapshotSet, old: &SnapshotSet) -> (r: Result<(Delivery, Action), NotifyError>)
    requires
        new.wf(),
        old.wf(),
    ensures
        match r {
            Ok((d, a)) => {
                &&& detect_spec(new.pairs(), old@) == Ok::<Seq<Seq<char>>, NotifyError>(
                    d@.messages,
                )
                &&& d@.snapshots == new@
                &&& d@.sent == 0
                &&& d@.stored is None
                &&& delivery_wf(d@)
                &&& a == action_of(d@)
                &&& a == (if d@.messages.len() == 0 {
                    Action::Stop
                } else {
                    Action::Persist
                })
            },
            Err(e) => detect_spec(new.pairs(), old@) == Err::<Seq<Seq<char>>, NotifyError>(e),
        },
{
    match detect(&new, old) {
        Err(e) => Err(e),
        Ok(messages) => Ok(Delivery::start(new, messages)),
    }
}

} // verus!
