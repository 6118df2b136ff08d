use vstd::prelude::*;

use crate::event::{Event, view_of};
use crate::fanout::{
    Broadcaster, ItemModel, QueueItem, bc_wf, empty_queue, queue_poll_item, queue_poll_rest,
};
use crate::shared_log::SharedLog;

verus! {

/// Seconds between keepalive items while no event flows, so that
/// intermediaries do not treat the stream as dead.
pub const KEEPALIVE_INTERVAL_SECS: u64 = 15;

/// One item of a session's outbound stream: an event's text, the gap
/// marker a lagging subscriber is owed, or a periodic keepalive that
/// carries no payload.
#[derive(Debug)]
pub enum OutboundItem {
    Data(String),
    Gap,
    Keepalive,
}

/// The model of an [`OutboundItem`].
pub ghost enum OutboundModel {
    Data(Seq<char>),
    Gap,
    Keepalive,
}

impl View for OutboundItem {
    type V = OutboundModel;

    open spec fn view(&self) -> OutboundModel {
        match self {
            OutboundItem::Data(text) => OutboundModel::Data(text@),
            OutboundItem::Gap => OutboundModel::Gap,
            OutboundItem::Keepalive => OutboundModel::Keepalive,
        }
    }
}

/// How a session renders what its queue yields: an event becomes its
/// text, the payload a client displays; a gap signal stays a gap.
pub open spec fn rendered(item: Option<ItemModel>) -> Option<OutboundModel> {
    match item {
        Some(ItemModel::Data(e)) => Some(OutboundModel::Data(e.text)),
        Some(ItemModel::Gap) => Some(OutboundModel::Gap),
        None => None,
    }
}

/// The model of a rendered item.
pub open spec fn outbound_view(r: Option<OutboundItem>) -> Option<OutboundModel> {
    match r {
        Some(item) => Some(item@),
        None => None,
    }
}

/// One connected client's live view: it pairs the snapshot taken at
/// attach time with the broadcaster registration that supplies the
/// live tail, and renders queue items into outbound items.
pub struct StreamSession {
    /// The session's registration with the broadcaster.
    pub handle: usize,
}

impl StreamSession {
    /// Attach a new client: take the shared log's current snapshot as
    /// the initial batch, then register with the broadcaster.  The
    /// snapshot comes first, so the live tail starts no earlier than
    /// the snapshot ends and nothing the snapshot holds is replayed.
    pub fn attach(log: &SharedLog, fan: &mut Broadcaster, cap: usize) -> (r: (
        StreamSession,
        Vec<Event>,
    ))
        requires
            cap >= 1,
        ensures
            view_of(r.1@) == log@,
            r.0.handle == old(fan)@.len(),
            final(fan)@ == old(fan)@.push(Some(empty_queue(cap as nat))),
    {
        let snapshot = log.snapshot();
        let handle = fan.subscribe(cap);
        (StreamSession { handle }, snapshot)
    }

    /// Render the next live item owed to this session: the text of the
    /// oldest queued event, or the gap marker.  Nothing pending yields
    /// nothing; the caller emits [`OutboundItem::Keepalive`] when its
    /// keepalive timer wins the race instead.
    pub fn next_live_item(&self, fan: &mut Broadcaster) -> (r: Option<OutboundItem>)
        requires
            bc_wf(old(fan)@),
        ensures
            bc_wf(final(fan)@),
            final(fan)@.len() == old(fan)@.len(),
            forall|j: int|
                0 <= j < old(fan)@.len() && j != self.handle ==> final(fan)@[j] == #[trigger] old(
                    fan,
                )@[j],
            self.handle < old(fan)@.len() && old(fan)@[self.handle as int] is Some ==> {
                let q = old(fan)@[self.handle as int]->0;
                final(fan)@[self.handle as int] == Some(queue_poll_rest(q)) && outbound_view(r)
                    == rendered(queue_poll_item(q))
            },
            self.handle < old(fan)@.len() && old(fan)@[self.handle as int] is None ==> r is None
                && final(fan)@ == old(fan)@,
            self.handle >= old(fan)@.len() ==> r is None && final(fan)@ == old(fan)@,
    {
        match fan.poll(self.handle) {
            Some(QueueItem::Data(event)) => Some(OutboundItem::Data(event.text)),
            Some(QueueItem::Gap) => Some(OutboundItem::Gap),
            None => None,
        }
    }

    /// The item the session emits when its keepalive timer fires with
    /// nothing pending.
    pub fn keepalive_item(&self) -> (r: OutboundItem)
        ensures
            r@ is Keepalive,
    {
        OutboundItem::Keepalive
    }

    /// Detach the session, releasing its registration.  Idempotent, so
    /// every exit path of a transport — orderly or not — may call it
    /// unconditionally.
    pub fn detach(&self, fan: &mut Broadcaster)
        ensures
            self.handle < old(fan)@.len() ==> final(fan)@ == old(fan)@.update(
                self.handle as int,
                None,
            ),
            self.handle >= old(fan)@.len() ==> final(fan)@ == old(fan)@,
    {
        fan.unsubscribe(self.handle);
    }
}

} // verus!
