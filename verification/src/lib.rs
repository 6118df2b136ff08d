//! Fan-out and consistency core for a live event feed.
//!
//! A single authoritative in-memory log of events, fed by one
//! change-data-capture subscription, is replicated in real time to any
//! number of independently paced streaming clients.  The library holds
//! the verified heart of that design: the ordered shared log with
//! idempotent, order-restoring append; the broadcaster with a bounded
//! per-subscriber queue and an explicit gap signal on overflow; the
//! ingestion state machine that validates change notifications; and the
//! stream session that renders a subscriber's view.  Transport, storage
//! and scheduling stay outside and hand the library plain values.

pub mod event;
pub mod fanout;
pub mod ingest;
pub mod session;
pub mod shared_log;
pub mod text;

pub use event::Event;
pub use event::EventModel;
pub use fanout::Broadcaster;
pub use fanout::QueueItem;
pub use ingest::IngestionCore;
pub use ingest::Notification;
pub use session::OutboundItem;
pub use session::StreamSession;
pub use shared_log::SharedLog;
