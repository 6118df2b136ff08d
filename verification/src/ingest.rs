use vstd::prelude::*;

use crate::event::{Event, EventModel};
use crate::fanout::{Broadcaster, bc_wf, publish_slot};
use crate::shared_log::{SharedLog, has_id, log_insert, sorted_by_id};

verus! {

/// First delay before a reconnect attempt.
pub const BACKOFF_BASE_MS: u64 = 500;

/// Largest delay between reconnect attempts.
pub const BACKOFF_CAP_MS: u64 = 30000;

/// Where the ingestion loop stands with its feed subscription.
#[derive(Debug, Clone, Copy, PartialEq, Eq, Structural)]
pub enum FeedState {
    Disconnected,
    Connecting,
    Subscribed,
}

/// One insert notification as the feed delivers it, once the
/// transport's shell is peeled off: each column of the tracked table,
/// present or not.  The feed's payload shape is never assumed; a
/// missing field is handled, not trusted away.
#[derive(Debug)]
pub struct Notification {
    pub id: Option<i64>,
    pub text: Option<String>,
    pub created_at: Option<String>,
}

/// The model of a [`Notification`].
#[verifier::ext_equal]
pub ghost struct NotificationModel {
    pub id: Option<int>,
    pub text: Option<Seq<char>>,
    pub created_at: Option<Seq<char>>,
}

impl View for Notification {
    type V = NotificationModel;

    open spec fn view(&self) -> NotificationModel {
        NotificationModel {
            id: match self.id {
                Some(id) => Some(id as int),
                None => None,
            },
            text: match self.text {
                Some(ref t) => Some(t@),
                None => None,
            },
            created_at: match self.created_at {
                Some(ref c) => Some(c@),
                None => None,
            },
        }
    }
}

/// Why a notification was dropped instead of ingested: the first
/// required field it lacks.
#[derive(Debug, Clone, Copy, PartialEq, Eq, Structural)]
pub enum DecodeError {
    MissingId,
    MissingText,
    MissingCreatedAt,
}

/// The event a notification denotes, or the first field it lacks.
pub open spec fn decode_model(n: NotificationModel) -> Result<EventModel, DecodeError> {
    match n.id {
        None => Err(DecodeError::MissingId),
        Some(id) => match n.text {
            None => Err(DecodeError::MissingText),
            Some(text) => match n.created_at {
                None => Err(DecodeError::MissingCreatedAt),
                Some(created_at) => Ok(EventModel { id, text, created_at }),
            },
        },
    }
}

/// Validate a notification into the event it carries.  Fails exactly
/// when a required field is missing, naming the first one missing.
pub fn decode_notification(n: Notification) -> (r: Result<Event, DecodeError>)
    ensures
        match r {
            Ok(e) => decode_model(n@) == Ok::<EventModel, DecodeError>(e@),
            Err(err) => decode_model(n@) == Err::<EventModel, DecodeError>(err),
        },
{
    match n.id {
        None => Err(DecodeError::MissingId),
        Some(id) => match n.text {
            None => Err(DecodeError::MissingText),
            Some(text) => match n.created_at {
                None => Err(DecodeError::MissingCreatedAt),
                Some(created_at) => Ok(Event { id, text, created_at }),
            },
        },
    }
}

/// The outcome of one notification: ingested and fanned out, ignored
/// as a redelivery, or dropped as malformed.
#[derive(Debug, Clone, Copy, PartialEq, Eq, Structural)]
pub enum IngestOutcome {
    Ingested,
    Duplicate,
    Dropped(DecodeError),
}

/// The delay before reconnect attempt number `failures + 1`: doubled
/// after every consecutive failure, from [`BACKOFF_BASE_MS`] up to
/// [`BACKOFF_CAP_MS`] and no further.
pub open spec fn backoff_ms(failures: nat) -> int
    decreases failures,
{
    if failures == 0 {
        BACKOFF_BASE_MS as int
    } else if backoff_ms((failures - 1) as nat) * 2 >= BACKOFF_CAP_MS as int {
        BACKOFF_CAP_MS as int
    } else {
        backoff_ms((failures - 1) as nat) * 2
    }
}

/// The decision core of the ingestion loop.  It owns the protocol
/// `Disconnected -> Connecting -> Subscribed`, falls back to
/// `Disconnected` on any feed error, spaces reconnect attempts by a
/// bounded backoff, and turns each notification into at most one
/// authoritative event.  The transport that produces these occasions
/// lives outside and reports them as calls.
pub struct IngestionCore {
    /// Where the loop stands with its subscription.
    pub state: FeedState,
    /// Consecutive connection attempts that have failed.
    pub failures: u32,
}

impl IngestionCore {
    /// A loop that has not yet connected.
    pub fn new() -> (c: IngestionCore)
        ensures
            c.state is Disconnected,
            c.failures == 0,
    {
        IngestionCore { state: FeedState::Disconnected, failures: 0 }
    }

    /// A connection attempt begins.
    pub fn begin_connect(&mut self)
        requires
            old(self).state is Disconnected,
        ensures
            final(self).state is Connecting,
            final(self).failures == old(self).failures,
    {
        self.state = FeedState::Connecting;
    }

    /// The connection is open, authenticated and subscribed to the
    /// tracked table's inserts; the failure streak is over.
    pub fn connection_established(&mut self)
        requires
            old(self).state is Connecting,
        ensures
            final(self).state is Subscribed,
            final(self).failures == 0,
    {
        self.state = FeedState::Subscribed;
        self.failures = 0;
    }

    /// The connection attempt failed; the loop will retry after the
    /// next backoff delay, never terminating the process.
    pub fn connection_failed(&mut self)
        requires
            old(self).state is Connecting,
        ensures
            final(self).state is Disconnected,
            final(self).failures == if old(self).failures < u32::MAX {
                old(self).failures + 1
            } else {
                old(self).failures as int
            },
    {
        self.state = FeedState::Disconnected;
        if self.failures < u32::MAX {
            self.failures = self.failures + 1;
        }
    }

    /// The live feed broke; the loop reconnects.  Events missed while
    /// disconnected are not recovered beyond what the durable store
    /// already holds — a gap is tolerated, never treated as corruption.
    pub fn feed_lost(&mut self)
        requires
            old(self).state is Subscribed,
        ensures
            final(self).state is Disconnected,
            final(self).failures == old(self).failures,
    {
        self.state = FeedState::Disconnected;
    }

    /// How long to wait before the next connection attempt.  Never
    /// shorter than [`BACKOFF_BASE_MS`] — the loop must not busy-loop —
    /// and never longer than [`BACKOFF_CAP_MS`].
    pub fn next_retry_delay_ms(&self) -> (d: u64)
        ensures
            d == backoff_ms(self.failures as nat),
            BACKOFF_BASE_MS <= d <= BACKOFF_CAP_MS,
    {
        let mut d: u64 = BACKOFF_BASE_MS;
        let mut i: u32 = 0;
        while i < self.failures
            invariant
                i <= self.failures,
                d == backoff_ms(i as nat),
                BACKOFF_BASE_MS <= d <= BACKOFF_CAP_MS,
            decreases self.failures - i,
        {
            if d >= BACKOFF_CAP_MS / 2 {
                d = BACKOFF_CAP_MS;
            } else {
                d = d * 2;
            }
            i = i + 1;
        }
        d
    }

    /// Ingest one notification received while subscribed: validate it,
    /// append the event to the shared log, and only then fan it out,
    /// so that no subscriber can see the live tail before a snapshot
    /// would have included it.  A malformed notification is dropped
    /// and a redelivered one ignored — neither touches the log or any
    /// subscriber, and neither ever stops ingestion.
    pub fn handle_notification(
        &self,
        log: &mut SharedLog,
        fan: &mut Broadcaster,
        n: Notification,
    ) -> (outcome: IngestOutcome)
        requires
            self.state is Subscribed,
            sorted_by_id(old(log)@),
            bc_wf(old(fan)@),
        ensures
            sorted_by_id(final(log)@),
            bc_wf(final(fan)@),
            final(fan)@.len() == old(fan)@.len(),
            match decode_model(n@) {
                Err(err) => outcome == IngestOutcome::Dropped(err) && final(log)@ == old(log)@
                    && final(fan)@ == old(fan)@,
                Ok(e) => {
                    &&& final(log)@ == log_insert(old(log)@, e)
                    &&& has_id(old(log)@, e.id) ==> outcome == IngestOutcome::Duplicate
                        && final(log)@ == old(log)@ && final(fan)@ == old(fan)@
                    &&& !has_id(old(log)@, e.id) ==> outcome == IngestOutcome::Ingested
                        && (forall|i: int|
                        0 <= i < old(fan)@.len() ==> final(fan)@[i] == publish_slot(
                            #[trigger] old(fan)@[i],
                            e,
                        ))
                },
            },
    {
        let event = match decode_notification(n) {
            Ok(event) => event,
            Err(err) => {
                return IngestOutcome::Dropped(err);
            },
        };
        let added = log.append(event.duplicate());
        if added {
            fan.publish(&event);
            IngestOutcome::Ingested
        } else {
            IngestOutcome::Duplicate
        }
    }
}

} // verus!
