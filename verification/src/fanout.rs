use vstd::prelude::*;

use crate::event::{Event, EventModel, view_of};

verus! {

/// Bound of a subscriber's delivery queue when the caller does not
/// choose one.
pub const DEFAULT_QUEUE_CAPACITY: usize = 100;

/// One item of a subscriber's delivery queue: an event, or the signal
/// that older undelivered events were dropped because the subscriber
/// fell behind.
#[derive(Debug)]
pub enum QueueItem {
    Data(Event),
    Gap,
}

/// The model of a [`QueueItem`].
pub ghost enum ItemModel {
    Data(EventModel),
    Gap,
}

impl View for QueueItem {
    type V = ItemModel;

    open spec fn view(&self) -> ItemModel {
        match self {
            QueueItem::Data(e) => ItemModel::Data(e@),
            QueueItem::Gap => ItemModel::Gap,
        }
    }
}

/// The model of one subscriber's delivery queue: the events still to
/// be delivered, whether a gap signal is owed before them, and the
/// queue's bound.
#[verifier::ext_equal]
pub ghost struct QueueModel {
    pub pending: Seq<EventModel>,
    pub gap: bool,
    pub cap: nat,
}

/// A queue is well formed when its bound is positive and respected.
pub open spec fn queue_wf(q: QueueModel) -> bool {
    1 <= q.cap && q.pending.len() <= q.cap
}

/// A freshly registered subscriber's queue.
pub open spec fn empty_queue(cap: nat) -> QueueModel {
    QueueModel { pending: Seq::empty(), gap: false, cap }
}

/// What one publish does to a queue: enqueue the event, and when the
/// queue is full first drop its oldest entry and owe the subscriber a
/// gap signal — newer events win over older ones.
pub open spec fn queue_publish(q: QueueModel, e: EventModel) -> QueueModel {
    if q.pending.len() < q.cap {
        QueueModel { pending: q.pending.push(e), gap: q.gap, cap: q.cap }
    } else {
        QueueModel { pending: q.pending.drop_first().push(e), gap: true, cap: q.cap }
    }
}

/// The item one poll of a queue yields: the owed gap signal first,
/// then the oldest pending event, else nothing.
pub open spec fn queue_poll_item(q: QueueModel) -> Option<ItemModel> {
    if q.gap {
        Some(ItemModel::Gap)
    } else if q.pending.len() > 0 {
        Some(ItemModel::Data(q.pending[0]))
    } else {
        None
    }
}

/// The queue that remains after one poll.
pub open spec fn queue_poll_rest(q: QueueModel) -> QueueModel {
    if q.gap {
        QueueModel { pending: q.pending, gap: false, cap: q.cap }
    } else if q.pending.len() > 0 {
        QueueModel { pending: q.pending.drop_first(), gap: q.gap, cap: q.cap }
    } else {
        q
    }
}

/// One subscriber's bounded delivery queue.
struct SubQueue {
    pending: Vec<Event>,
    gap: bool,
    cap: usize,
}

impl View for SubQueue {
    type V = QueueModel;

    closed spec fn view(&self) -> QueueModel {
        QueueModel { pending: view_of(self.pending@), gap: self.gap, cap: self.cap as nat }
    }
}

impl SubQueue {
    fn push_event(&mut self, event: &Event)
        requires
            queue_wf(old(self)@),
        ensures
            final(self)@ == queue_publish(old(self)@, event@),
    {
        if self.pending.len() >= self.cap {
            let ghost before = view_of(self.pending@);
            let _dropped = self.pending.remove(0);
            proof {
                assert(view_of(self.pending@) =~= before.drop_first());
            }
            self.gap = true;
        }
        let ghost mid = view_of(self.pending@);
        self.pending.push(event.duplicate());
        proof {
            assert(view_of(self.pending@) =~= mid.push(event@));
        }
    }
}

/// What one publish does to a registry slot: a live queue takes the
/// event, a released slot stays released.
pub open spec fn publish_slot(o: Option<QueueModel>, e: EventModel) -> Option<QueueModel> {
    match o {
        Some(q) => Some(queue_publish(q, e)),
        None => None,
    }
}

/// A slot is well formed when its queue, if live, is.
pub open spec fn slot_wf(o: Option<QueueModel>) -> bool {
    match o {
        Some(q) => queue_wf(q),
        None => true,
    }
}

/// Every slot of the registry is well formed.
pub open spec fn bc_wf(b: Seq<Option<QueueModel>>) -> bool {
    forall|i: int| 0 <= i < b.len() ==> slot_wf(#[trigger] b[i])
}

/// Fans each newly ingested event out to every currently registered
/// subscriber.  Each subscriber owns a bounded queue; a full queue
/// drops its oldest entries in favour of the newest and owes the
/// subscriber one gap signal, so a slow subscriber never blocks the
/// publisher.
pub struct Broadcaster {
    slots: Vec<Option<SubQueue>>,
}

impl View for Broadcaster {
    type V = Seq<Option<QueueModel>>;

    closed spec fn view(&self) -> Seq<Option<QueueModel>> {
        self.slots@.map_values(
            |o: Option<SubQueue>|
                match o {
                    Some(q) => Some(q@),
                    None => None,
                },
        )
    }
}

impl Broadcaster {
    /// A broadcaster with no subscribers.
    pub fn new() -> (b: Broadcaster)
        ensures
            b@ == Seq::<Option<QueueModel>>::empty(),
            bc_wf(b@),
    {
        let b = Broadcaster { slots: Vec::new() };
        proof {
            assert(b@ =~= Seq::<Option<QueueModel>>::empty());
        }
        b
    }

    /// Register a new subscriber with a delivery queue bounded by
    /// `cap` and return its handle.  A new subscriber receives only
    /// events published after this call; history comes from a shared
    /// log snapshot taken by the caller.
    pub fn subscribe(&mut self, cap: usize) -> (h: usize)
        requires
            cap >= 1,
        ensures
            h == old(self)@.len(),
            final(self)@ == old(self)@.push(Some(empty_queue(cap as nat))),
    {
        let h = self.slots.len();
        let ghost before = self@;
        self.slots.push(Some(SubQueue { pending: Vec::new(), gap: false, cap }));
        proof {
            assert(view_of(Seq::<Event>::empty()) =~= Seq::<EventModel>::empty());
            assert(self@ =~= before.push(Some(empty_queue(cap as nat))));
        }
        h
    }

    /// Release a subscriber's slot.  Idempotent: releasing a slot
    /// twice, or a handle never issued, changes nothing further.
    pub fn unsubscribe(&mut self, h: usize)
        ensures
            h < old(self)@.len() ==> final(self)@ == old(self)@.update(h as int, None),
            h >= old(self)@.len() ==> final(self)@ == old(self)@,
    {
        let ghost before = self@;
        if h < self.slots.len() {
            self.slots[h] = None;
            proof {
                assert(self@ =~= before.update(h as int, None));
            }
        }
    }

    /// How many slots the registry holds (live or released).
    pub fn slot_count(&self) -> (n: usize)
        ensures
            n == self@.len(),
    {
        self.slots.len()
    }

    /// Push the event into every live subscriber's queue, dropping the
    /// oldest entry of any queue that is full.  Publishing never waits
    /// on a subscriber: it is one pass over the slots, whatever state
    /// each queue is in.
    pub fn publish(&mut self, event: &Event)
        requires
            bc_wf(old(self)@),
        ensures
            final(self)@.len() == old(self)@.len(),
            forall|i: int|
                0 <= i < old(self)@.len() ==> final(self)@[i] == publish_slot(
                    #[trigger] old(self)@[i],
                    event@,
                ),
            bc_wf(final(self)@),
    {
        let ghost before = self@;
        let n = self.slots.len();
        let mut i: usize = 0;
        while i < n
            invariant
                n == self.slots@.len(),
                self@.len() == before.len() == n,
                i <= n,
                bc_wf(before),
                forall|j: int| 0 <= j < i ==> self@[j] == publish_slot(#[trigger] before[j], event@),
                forall|j: int| i <= j < n ==> self@[j] == before[j],
            decreases n - i,
        {
            let ghost prev = self@;
            let ghost prev_slots = self.slots@;
            proof {
                assert(prev[i as int] == before[i as int]);
                assert(slot_wf(before[i as int]));
            }
            let slot = &mut self.slots[i];
            match slot {
                Some(q) => {
                    q.push_event(event);
                }
                None => {},
            }
            proof {
                assert(self@[i as int] == publish_slot(before[i as int], event@));
                assert forall|j: int| 0 <= j < n && j != i implies self@[j] == prev[j] by {
                    assert(self.slots@[j] == prev_slots[j]);
                }
            }
            i = i + 1;
        }
        proof {
            assert forall|i: int| 0 <= i < before.len() implies slot_wf(#[trigger] self@[i]) by {
                assert(self@[i] == publish_slot(before[i], event@));
            }
        }
    }

    /// Take the next item owed to the subscriber at `h`: the gap
    /// signal if one is owed, else the oldest pending event, else
    /// nothing.  A released or never-issued handle yields nothing.
    pub fn poll(&mut self, h: usize) -> (r: Option<QueueItem>)
        requires
            bc_wf(old(self)@),
        ensures
            final(self)@.len() == old(self)@.len(),
            forall|j: int|
                0 <= j < old(self)@.len() && j != h ==> final(self)@[j] == #[trigger] old(
                    self,
                )@[j],
            bc_wf(final(self)@),
            h < old(self)@.len() && old(self)@[h as int] is Some ==> {
                let q = old(self)@[h as int]->0;
                final(self)@[h as int] == Some(queue_poll_rest(q)) && poll_view(r)
                    == queue_poll_item(q)
            },
            h < old(self)@.len() && old(self)@[h as int] is None ==> r is None && final(self)@
                == old(self)@,
            h >= old(self)@.len() ==> r is None && final(self)@ == old(self)@,
    {
        let ghost before = self@;
        if h >= self.slots.len() {
            return None;
        }
        let ghost q0 = self@[h as int];
        let slot = &mut self.slots[h];
        let r: Option<QueueItem> = match slot {
            Some(q) => {
                if q.gap {
                    q.gap = false;
                    Some(QueueItem::Gap)
                } else if q.pending.len() > 0 {
                    let ghost pend = view_of(q.pending@);
                    let e = q.pending.remove(0);
                    proof {
                        assert(view_of(q.pending@) =~= pend.drop_first());
                    }
                    Some(QueueItem::Data(e))
                } else {
                    None
                }
            },
            None => None,
        };
        proof {
            assert forall|j: int| 0 <= j < before.len() && j != h implies self@[j] == before[j]
                by {}
            if q0 is Some {
                assert(self@[h as int] == Some(queue_poll_rest(q0->0)));
                assert(poll_view(r) == queue_poll_item(q0->0));
            } else {
                assert(self@ =~= before);
            }
            assert(bc_wf(self@)) by {
                assert forall|j: int| 0 <= j < self@.len() implies slot_wf(#[trigger] self@[j]) by {
                    if j != h {
                        assert(self@[j] == before[j]);
                    }
                }
            }
        }
        r
    }
}

/// The model of a polled item.
pub open spec fn poll_view(r: Option<QueueItem>) -> Option<ItemModel> {
    match r {
        Some(item) => Some(item@),
        None => None,
    }
}

/// The queue after a whole sequence of publishes, oldest first.
pub open spec fn queue_after_publishes(q: QueueModel, es: Seq<EventModel>) -> QueueModel
    decreases es.len(),
{
    if es.len() == 0 {
        q
    } else {
        queue_after_publishes(queue_publish(q, es[0]), es.drop_first())
    }
}

/// The items a subscriber observes when it drains its queue: the owed
/// gap signal first, then every pending event in order.
pub open spec fn drained_items(q: QueueModel) -> Seq<ItemModel> {
    if q.gap {
        seq![ItemModel::Gap] + q.pending.map_values(|e: EventModel| ItemModel::Data(e))
    } else {
        q.pending.map_values(|e: EventModel| ItemModel::Data(e))
    }
}

/// Draining is what repeated polls yield: each poll takes exactly the
/// head of `drained_items`, and a queue that yields nothing has
/// nothing drained.
pub proof fn lemma_drain_step(q: QueueModel)
    ensures
        queue_poll_item(q) is None ==> drained_items(q).len() == 0,
        queue_poll_item(q) matches Some(item) ==> drained_items(q) == seq![item]
            + drained_items(queue_poll_rest(q)),
{
    if q.gap {
        assert(drained_items(q) =~= seq![ItemModel::Gap] + drained_items(queue_poll_rest(q)));
    } else if q.pending.len() > 0 {
        assert(drained_items(q) =~= seq![ItemModel::Data(q.pending[0])] + drained_items(
            queue_poll_rest(q),
        ));
    }
}

/// What a run of publishes leaves in a queue: the tail of everything
/// offered, cut to the queue's bound, with the gap flag raised exactly
/// when something was cut.
pub proof fn lemma_queue_publishes(q: QueueModel, es: Seq<EventModel>)
    requires
        queue_wf(q),
    ensures
        ({
            let r = queue_after_publishes(q, es);
            let total = q.pending + es;
            queue_wf(r) && r.cap == q.cap && (total.len() <= q.cap ==> r.pending == total && r.gap
                == q.gap) && (total.len() > q.cap ==> r.pending == total.subrange(
                total.len() - q.cap,
                total.len() as int,
            ) && r.gap)
        }),
    decreases es.len(),
{
    let r = queue_after_publishes(q, es);
    let total = q.pending + es;
    if es.len() == 0 {
        assert(total =~= q.pending);
    } else {
        let q1 = queue_publish(q, es[0]);
        let total1 = q1.pending + es.drop_first();
        lemma_queue_publishes(q1, es.drop_first());
        if q.pending.len() < q.cap {
            assert(total1 =~= total);
        } else {
            assert(q.pending.len() == q.cap);
            assert(total1 =~= total.drop_first());
            assert(total.len() > q.cap);
            if total1.len() <= q.cap {
                assert(total.len() == q.cap + 1);
                assert(r.pending == total1);
                assert(total1 =~= total.subrange(total.len() - q.cap, total.len() as int));
            } else {
                assert(r.pending == total1.subrange(total1.len() - q.cap, total1.len() as int));
                assert(total1.subrange(total1.len() - q.cap, total1.len() as int) =~= total.subrange(
                    total.len() - q.cap,
                    total.len() as int,
                ));
            }
        }
    }
}

/// Lag-drop correctness: a subscriber with a queue of bound `cap`
/// that reads nothing while more than `cap` events are published
/// observes, when it finally drains, exactly one gap signal followed
/// by the most recent `cap` events in order.
pub proof fn lemma_lag_drop(cap: nat, es: Seq<EventModel>)
    requires
        1 <= cap < es.len(),
    ensures
        ({
            let q = queue_after_publishes(empty_queue(cap), es);
            let kept = es.subrange(es.len() - cap, es.len() as int);
            q.pending == kept && q.gap && drained_items(q) == seq![ItemModel::Gap]
                + kept.map_values(|e: EventModel| ItemModel::Data(e))
        }),
{
    lemma_queue_publishes(empty_queue(cap), es);
    assert(empty_queue(cap).pending + es =~= es);
}

/// The complement of lag-drop: a subscriber kept within its bound
/// loses nothing and sees no gap signal.
pub proof fn lemma_no_drop_within_capacity(cap: nat, es: Seq<EventModel>)
    requires
        1 <= cap,
        es.len() <= cap,
    ensures
        ({
            let q = queue_after_publishes(empty_queue(cap), es);
            q.pending == es && !q.gap && drained_items(q) == es.map_values(
                |e: EventModel| ItemModel::Data(e),
            )
        }),
{
    lemma_queue_publishes(empty_queue(cap), es);
    assert(empty_queue(cap).pending + es =~= es);
}

} // verus!
