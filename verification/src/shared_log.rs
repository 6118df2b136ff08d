use vstd::prelude::*;

use crate::event::{Event, EventModel, view_of};

verus! {

/// Events strictly ascending by `id`: the shared log's ordering
/// invariant, which also rules out duplicate ids.
pub open spec fn sorted_by_id(s: Seq<EventModel>) -> bool {
    forall|i: int, j: int| 0 <= i < j < s.len() ==> s[i].id < s[j].id
}

/// Some event of `s` carries the id `id`.
pub open spec fn has_id(s: Seq<EventModel>, id: int) -> bool {
    exists|i: int| 0 <= i < s.len() && s[i].id == id
}

/// What one append does to the log's model: insert `e` at its place in
/// the `id` order, or leave the log unchanged when that id is already
/// present.
pub open spec fn log_insert(s: Seq<EventModel>, e: EventModel) -> Seq<EventModel>
    decreases s.len(),
{
    if s.len() == 0 {
        seq![e]
    } else if e.id < s[0].id {
        seq![e] + s
    } else if e.id == s[0].id {
        s
    } else {
        seq![s[0]] + log_insert(s.drop_first(), e)
    }
}

/// The single in-memory, append-only record of all events observed so
/// far.  It is hydrated once from the durable store, then extended by
/// one `append` per ingested change notification; readers take
/// `snapshot` copies.
pub struct SharedLog {
    events: Vec<Event>,
}

impl View for SharedLog {
    type V = Seq<EventModel>;

    closed spec fn view(&self) -> Seq<EventModel> {
        view_of(self.events@)
    }
}

impl SharedLog {
    /// An empty log, as the process starts with before hydration.
    pub fn new() -> (log: SharedLog)
        ensures
            log@ == Seq::<EventModel>::empty(),
            sorted_by_id(log@),
    {
        let log = SharedLog { events: Vec::new() };
        proof {
            assert(log@ =~= Seq::<EventModel>::empty());
        }
        log
    }

    /// Hydrate the log from the durable store's ordered rows.  Called
    /// once, on the empty log, before any append.
    pub fn bootstrap(&mut self, events: Vec<Event>)
        requires
            old(self)@.len() == 0,
            sorted_by_id(view_of(events@)),
        ensures
            final(self)@ == view_of(events@),
            sorted_by_id(final(self)@),
    {
        self.events = events;
    }

    /// How many events the log holds.
    pub fn len(&self) -> (n: usize)
        ensures
            n == self@.len(),
    {
        self.events.len()
    }

    /// Append one ingested event.  Returns `false` and leaves the log
    /// unchanged when an event with the same id is already present
    /// (idempotence against redelivered notifications); otherwise
    /// inserts the event at its place in the `id` order — a lower id
    /// than the current maximum is inserted, not rejected, since the
    /// feed does not guarantee perfect ordering across reconnects.
    pub fn append(&mut self, event: Event) -> (added: bool)
        requires
            sorted_by_id(old(self)@),
        ensures
            final(self)@ == log_insert(old(self)@, event@),
            added == !has_id(old(self)@, event@.id),
            !added ==> final(self)@ == old(self)@,
            sorted_by_id(final(self)@),
    {
        let ghost s = self@;
        let mut i: usize = self.events.len();
        while i > 0 && self.events[i - 1].id > event.id
            invariant
                i <= self.events.len(),
                s == self@,
                self.events@.len() == s.len(),
                forall|j: int| i <= j < s.len() ==> s[j].id > event@.id,
            decreases i,
        {
            i = i - 1;
        }
        if i > 0 && self.events[i - 1].id == event.id {
            proof {
                assert(s[i - 1].id == event@.id);
                assert(has_id(s, event@.id));
                lemma_log_insert_dup(s, event@);
            }
            return false;
        }
        proof {
            assert forall|j: int| 0 <= j < i implies s[j].id < event@.id by {
                if j < i - 1 {
                    assert(s[j].id < s[i - 1].id);
                }
            }
            assert(!has_id(s, event@.id));
            lemma_log_insert_at(s, event@, i as int);
            lemma_view_of_insert(self.events@, i as int, event);
        }
        self.events.insert(i, event);
        proof {
            lemma_log_insert_props(s, event@);
        }
        true
    }

    /// A consistent point-in-time copy of the log for a reader.
    pub fn snapshot(&self) -> (r: Vec<Event>)
        ensures
            view_of(r@) == self@,
    {
        let mut out: Vec<Event> = Vec::new();
        let mut i: usize = 0;
        while i < self.events.len()
            invariant
                i <= self.events.len(),
                out@.len() == i,
                forall|j: int| 0 <= j < i ==> out@[j]@ == self.events@[j]@,
            decreases self.events@.len() - i,
        {
            out.push(self.events[i].duplicate());
            i = i + 1;
        }
        proof {
            assert(view_of(out@) =~= self@);
        }
        out
    }
}

/// `view_of` commutes with inserting one element.
proof fn lemma_view_of_insert(s: Seq<Event>, i: int, e: Event)
    requires
        0 <= i <= s.len(),
    ensures
        view_of(s.insert(i, e)) == view_of(s).insert(i, e@),
{
    assert(view_of(s.insert(i, e)) =~= view_of(s).insert(i, e@));
}

/// When the id is already present in a sorted log, `log_insert` leaves
/// the log unchanged.
pub proof fn lemma_log_insert_dup(s: Seq<EventModel>, e: EventModel)
    requires
        sorted_by_id(s),
        has_id(s, e.id),
    ensures
        log_insert(s, e) == s,
    decreases s.len(),
{
    let i = choose|i: int| 0 <= i < s.len() && s[i].id == e.id;
    if s[0].id == e.id {
    } else {
        assert(s[0].id < s[i].id);
        assert(has_id(s.drop_first(), e.id)) by {
            assert(s.drop_first()[i - 1].id == e.id);
        }
        lemma_log_insert_dup(s.drop_first(), e);
        assert(seq![s[0]] + s.drop_first() =~= s);
    }
}

/// When every id below position `pos` is smaller than `e.id` and every
/// id from `pos` on is larger, `log_insert` is insertion at `pos`.
pub proof fn lemma_log_insert_at(s: Seq<EventModel>, e: EventModel, pos: int)
    requires
        sorted_by_id(s),
        0 <= pos <= s.len(),
        forall|j: int| 0 <= j < pos ==> s[j].id < e.id,
        forall|j: int| pos <= j < s.len() ==> s[j].id > e.id,
    ensures
        log_insert(s, e) == s.insert(pos, e),
    decreases s.len(),
{
    if s.len() == 0 {
        assert(log_insert(s, e) =~= s.insert(0, e));
    } else if pos == 0 {
        assert(e.id < s[0].id);
        assert(seq![e] + s =~= s.insert(0, e));
    } else {
        assert(s[0].id < e.id);
        let t = s.drop_first();
        assert forall|j: int| 0 <= j < pos - 1 implies t[j].id < e.id by {
            assert(t[j] == s[j + 1]);
        }
        assert forall|j: int| pos - 1 <= j < t.len() implies t[j].id > e.id by {
            assert(t[j] == s[j + 1]);
        }
        lemma_log_insert_at(t, e, pos - 1);
        assert(seq![s[0]] + t.insert(pos - 1, e) =~= s.insert(pos, e));
    }
}

/// `log_insert` keeps the log sorted, adds exactly the given id to the
/// ids present, and grows the log by one exactly when that id was
/// fresh.
pub proof fn lemma_log_insert_props(s: Seq<EventModel>, e: EventModel)
    requires
        sorted_by_id(s),
    ensures
        sorted_by_id(log_insert(s, e)),
        forall|id: int| #[trigger] has_id(log_insert(s, e), id) <==> has_id(s, id) || id == e.id,
        !has_id(s, e.id) ==> log_insert(s, e).len() == s.len() + 1,
        has_id(s, e.id) ==> log_insert(s, e) == s,
        forall|x: EventModel| #[trigger] log_insert(s, e).contains(x) <==> s.contains(x) || (x == e
            && !has_id(s, e.id)),
    decreases s.len(),
{
    if has_id(s, e.id) {
        lemma_log_insert_dup(s, e);
        assert forall|id: int| #[trigger] has_id(log_insert(s, e), id) implies has_id(s, id) || id
            == e.id by {}
        assert forall|id: int| has_id(s, id) || id == e.id implies #[trigger] has_id(
            log_insert(s, e),
            id,
        ) by {}
    } else {
        let r = log_insert(s, e);
        let pos = insert_pos(s, e.id);
        lemma_insert_pos_props(s, e.id);
        lemma_log_insert_at(s, e, pos);
        assert(r == s.insert(pos, e));
        assert forall|i: int, j: int| 0 <= i < j < r.len() implies r[i].id < r[j].id by {
            assert(r[i] == if i < pos {
                s[i]
            } else if i == pos {
                e
            } else {
                s[i - 1]
            });
            assert(r[j] == if j < pos {
                s[j]
            } else if j == pos {
                e
            } else {
                s[j - 1]
            });
        }
        assert forall|id: int| #[trigger] has_id(r, id) implies has_id(s, id) || id == e.id by {
            let i = choose|i: int| 0 <= i < r.len() && r[i].id == id;
            if i < pos {
                assert(s[i].id == id);
            } else if i > pos {
                assert(s[i - 1].id == id);
            }
        }
        assert forall|id: int| has_id(s, id) || id == e.id implies #[trigger] has_id(r, id) by {
            if has_id(s, id) {
                let i = choose|i: int| 0 <= i < s.len() && s[i].id == id;
                if i < pos {
                    assert(r[i].id == id);
                } else {
                    assert(r[i + 1].id == id);
                }
            } else {
                assert(r[pos].id == e.id);
            }
        }
        assert forall|x: EventModel| #[trigger] r.contains(x) implies s.contains(x) || x == e by {
            let i = choose|i: int| 0 <= i < r.len() && r[i] == x;
            if i < pos {
                assert(s[i] == x);
            } else if i > pos {
                assert(s[i - 1] == x);
            }
        }
        assert forall|x: EventModel| s.contains(x) || x == e implies #[trigger] r.contains(x) by {
            if s.contains(x) {
                let i = choose|i: int| 0 <= i < s.len() && s[i] == x;
                if i < pos {
                    assert(r[i] == x);
                } else {
                    assert(r[i + 1] == x);
                }
            } else {
                assert(r[pos] == e);
            }
        }
    }
}

/// Idempotent append: appending an event a second time leaves the log
/// exactly as the first append left it, and that log carries the
/// event's id at exactly one position.
pub proof fn lemma_append_idempotent(s: Seq<EventModel>, e: EventModel)
    requires
        sorted_by_id(s),
    ensures
        log_insert(log_insert(s, e), e) == log_insert(s, e),
        has_id(log_insert(s, e), e.id),
        forall|i: int, j: int|
            0 <= i < log_insert(s, e).len() && 0 <= j < log_insert(s, e).len() && #[trigger] log_insert(
                s,
                e,
            )[i].id == e.id && #[trigger] log_insert(s, e)[j].id == e.id ==> i == j,
{
    lemma_log_insert_props(s, e);
    lemma_log_insert_dup(log_insert(s, e), e);
    let r = log_insert(s, e);
    assert forall|i: int, j: int|
        0 <= i < r.len() && 0 <= j < r.len() && #[trigger] r[i].id == e.id && #[trigger] r[j].id
            == e.id implies i == j by {
        if i < j {
            assert(r[i].id < r[j].id);
        }
        if j < i {
            assert(r[j].id < r[i].id);
        }
    }
}

/// The log after a whole run of appends, in arrival order.
pub open spec fn log_after_appends(s: Seq<EventModel>, es: Seq<EventModel>) -> Seq<EventModel>
    decreases es.len(),
{
    if es.len() == 0 {
        s
    } else {
        log_after_appends(log_insert(s, es[0]), es.drop_first())
    }
}

/// Order preservation: a run of appends with fresh, pairwise distinct
/// ids leaves the log strictly sorted by id and holding exactly the
/// events it held before plus the appended ones — whatever order they
/// arrived in.
pub proof fn lemma_appends_preserve_order(s: Seq<EventModel>, es: Seq<EventModel>)
    requires
        sorted_by_id(s),
        forall|k: int, l: int| 0 <= k < l < es.len() ==> es[k].id != es[l].id,
        forall|k: int| 0 <= k < es.len() ==> !has_id(s, #[trigger] es[k].id),
    ensures
        sorted_by_id(log_after_appends(s, es)),
        forall|x: EventModel| #[trigger]
            log_after_appends(s, es).contains(x) <==> s.contains(x) || es.contains(x),
    decreases es.len(),
{
    if es.len() == 0 {
        assert forall|x: EventModel| #[trigger] s.contains(x) || es.contains(x) implies
            log_after_appends(s, es).contains(x) by {
            if es.contains(x) {
                let k = choose|k: int| 0 <= k < es.len() && es[k] == x;
            }
        }
    } else {
        let s1 = log_insert(s, es[0]);
        let tail = es.drop_first();
        lemma_log_insert_props(s, es[0]);
        assert(!has_id(s, es[0].id));
        assert forall|k: int, l: int| 0 <= k < l < tail.len() implies tail[k].id != tail[l].id by {
            assert(tail[k] == es[k + 1] && tail[l] == es[l + 1]);
        }
        assert forall|k: int| 0 <= k < tail.len() implies !has_id(s1, #[trigger] tail[k].id) by {
            assert(tail[k] == es[k + 1]);
            assert(!has_id(s, es[k + 1].id));
            assert(es[k + 1].id != es[0].id);
        }
        lemma_appends_preserve_order(s1, tail);
        assert forall|x: EventModel| #[trigger]
            log_after_appends(s, es).contains(x) <==> s.contains(x) || es.contains(x) by {
            assert(log_after_appends(s, es).contains(x) <==> s1.contains(x) || tail.contains(x));
            assert(s1.contains(x) <==> s.contains(x) || x == es[0]);
            if tail.contains(x) {
                let k = choose|k: int| 0 <= k < tail.len() && tail[k] == x;
                assert(es[k + 1] == x);
            }
            if x == es[0] {
                assert(es.contains(x)) by {
                    assert(es[0] == x);
                }
            }
            if es.contains(x) && x != es[0] {
                let k = choose|k: int| 0 <= k < es.len() && es[k] == x;
                assert(tail[k - 1] == x);
            }
        }
    }
}

/// Arrival order is irrelevant: two runs of appends that deliver the
/// same events with pairwise distinct ids, in whatever orders, leave
/// an empty log identical.
pub proof fn lemma_arrival_order_irrelevant(es1: Seq<EventModel>, es2: Seq<EventModel>)
    requires
        forall|k: int, l: int| 0 <= k < l < es1.len() ==> es1[k].id != es1[l].id,
        forall|k: int, l: int| 0 <= k < l < es2.len() ==> es2[k].id != es2[l].id,
        forall|x: EventModel| #[trigger] es1.contains(x) <==> #[trigger] es2.contains(x),
    ensures
        log_after_appends(Seq::empty(), es1) == log_after_appends(Seq::empty(), es2),
{
    let empty = Seq::<EventModel>::empty();
    assert forall|k: int| 0 <= k < es1.len() implies !has_id(empty, #[trigger] es1[k].id) by {}
    assert forall|k: int| 0 <= k < es2.len() implies !has_id(empty, #[trigger] es2[k].id) by {}
    lemma_appends_preserve_order(empty, es1);
    lemma_appends_preserve_order(empty, es2);
    let a = log_after_appends(empty, es1);
    let b = log_after_appends(empty, es2);
    assert forall|x: EventModel| #[trigger] a.contains(x) <==> #[trigger] b.contains(x) by {
        assert(a.contains(x) <==> empty.contains(x) || es1.contains(x));
        assert(b.contains(x) <==> empty.contains(x) || es2.contains(x));
    }
    lemma_sorted_logs_equal(a, b);
}

/// Arrival order does not matter: two strictly sorted logs that hold
/// the same events are the same sequence, so any arrival order of the
/// same events yields the same snapshot.
pub proof fn lemma_sorted_logs_equal(a: Seq<EventModel>, b: Seq<EventModel>)
    requires
        sorted_by_id(a),
        sorted_by_id(b),
        forall|x: EventModel| #[trigger] a.contains(x) <==> #[trigger] b.contains(x),
    ensures
        a == b,
    decreases a.len(),
{
    if a.len() == 0 {
        if b.len() > 0 {
            assert(b.contains(b[0]));
            assert(a.contains(b[0]));
        }
        assert(a =~= b);
    } else {
        assert(a.contains(a[0]));
        assert(b.contains(a[0]));
        let i = choose|i: int| 0 <= i < b.len() && b[i] == a[0];
        assert(b.contains(b[0]));
        assert(a.contains(b[0]));
        let j = choose|j: int| 0 <= j < a.len() && a[j] == b[0];
        if i > 0 {
            assert(b[0].id < b[i].id);
            assert(a[0].id <= a[j].id);
            assert(false);
        }
        assert(a[0] == b[0]);
        let at = a.drop_first();
        let bt = b.drop_first();
        assert forall|x: EventModel| #[trigger] at.contains(x) implies bt.contains(x) by {
            let k = choose|k: int| 0 <= k < at.len() && at[k] == x;
            assert(a[k + 1] == x);
            assert(a.contains(x));
            assert(b.contains(x));
            let m = choose|m: int| 0 <= m < b.len() && b[m] == x;
            if m == 0 {
                assert(a[k + 1] == a[0]);
                assert(a[0].id < a[k + 1].id);
            }
            assert(bt[m - 1] == x);
        }
        assert forall|x: EventModel| #[trigger] bt.contains(x) implies at.contains(x) by {
            let k = choose|k: int| 0 <= k < bt.len() && bt[k] == x;
            assert(b[k + 1] == x);
            assert(b.contains(x));
            assert(a.contains(x));
            let m = choose|m: int| 0 <= m < a.len() && a[m] == x;
            if m == 0 {
                assert(b[k + 1] == b[0]);
                assert(b[0].id < b[k + 1].id);
            }
            assert(at[m - 1] == x);
        }
        assert forall|k: int, l: int| 0 <= k < l < at.len() implies at[k].id < at[l].id by {
            assert(at[k] == a[k + 1] && at[l] == a[l + 1]);
        }
        assert forall|k: int, l: int| 0 <= k < l < bt.len() implies bt[k].id < bt[l].id by {
            assert(bt[k] == b[k + 1] && bt[l] == b[l + 1]);
        }
        lemma_sorted_logs_equal(at, bt);
        assert(a.len() == b.len());
        assert forall|k: int| 0 <= k < a.len() implies a[k] == b[k] by {
            if k > 0 {
                assert(at[k - 1] == bt[k - 1]);
                assert(a[k] == at[k - 1]);
                assert(b[k] == bt[k - 1]);
            }
        }
        assert(a =~= b);
    }
}

/// The position at which a fresh id belongs in a sorted log: the index
/// of the first event whose id is at least `id`.
pub open spec fn insert_pos(s: Seq<EventModel>, id: int) -> int
    decreases s.len(),
{
    if s.len() == 0 {
        0
    } else if s[0].id >= id {
        0
    } else {
        1 + insert_pos(s.drop_first(), id)
    }
}

/// In a sorted log without the id, `insert_pos` splits smaller ids
/// from larger ones.
proof fn lemma_insert_pos_props(s: Seq<EventModel>, id: int)
    requires
        sorted_by_id(s),
        !has_id(s, id),
    ensures
        0 <= insert_pos(s, id) <= s.len(),
        forall|j: int| 0 <= j < insert_pos(s, id) ==> s[j].id < id,
        forall|j: int| insert_pos(s, id) <= j < s.len() ==> s[j].id > id,
    decreases s.len(),
{
    if s.len() == 0 {
    } else if s[0].id >= id {
        assert(s[0].id != id);
        assert forall|j: int| 0 <= j < s.len() implies s[j].id > id by {
            if j > 0 {
                assert(s[0].id < s[j].id);
            }
        }
    } else {
        let t = s.drop_first();
        assert(!has_id(t, id)) by {
            if has_id(t, id) {
                let i = choose|i: int| 0 <= i < t.len() && t[i].id == id;
                assert(s[i + 1].id == id);
            }
        }
        lemma_insert_pos_props(t, id);
        let p = insert_pos(t, id);
        assert forall|j: int| 0 <= j < p + 1 implies s[j].id < id by {
            if j > 0 {
                assert(t[j - 1].id < id);
            }
        }
        assert forall|j: int| p + 1 <= j < s.len() implies s[j].id > id by {
            assert(t[j - 1].id > id);
        }
    }
}

} // verus!
