use vstd::prelude::*;

verus! {

/// A single event of the feed, as the durable store records it: an `id`
/// assigned at insert time (the total order key), the user-supplied
/// `text`, and a store-assigned `created_at` timestamp that is kept for
/// display only and never used for identity.
#[derive(Debug)]
pub struct Event {
    pub id: i64,
    pub text: String,
    pub created_at: String,
}

/// The mathematical model of an [`Event`]: the same three fields as
/// pure values.
#[verifier::ext_equal]
pub ghost struct EventModel {
    pub id: int,
    pub text: Seq<char>,
    pub created_at: Seq<char>,
}

impl View for Event {
    type V = EventModel;

    open spec fn view(&self) -> EventModel {
        EventModel { id: self.id as int, text: self.text@, created_at: self.created_at@ }
    }
}

/// The model of a sequence of events.
pub open spec fn view_of(events: Seq<Event>) -> Seq<EventModel> {
    events.map_values(|e: Event| e@)
}

impl Event {
    /// An owned copy whose model equals this event's model.
    pub fn duplicate(&self) -> (r: Event)
        ensures
            r@ == self@,
    {
        Event { id: self.id, text: self.text.clone(), created_at: self.created_at.clone() }
    }
}

} // verus!
