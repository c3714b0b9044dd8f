//! Harvests catalogue identifiers for a dataset, either from the daily bulk
//! snapshot or from the incremental change feed, orders and batches them, and
//! plans their delivery to a queue in bounded waves of batch-send calls.
//!
//! Nothing here touches the network or the queue: that traffic belongs to
//! the caller, which hands fetched values in and carries planned requests
//! out. The one thing read from outside is the system clock.

pub mod chunks;
pub mod clock;
pub mod config;
pub mod dataset;
pub mod dedup;
pub mod error;
pub mod exporter;
pub mod handler;
pub mod json;
pub mod message;
pub mod queue;
pub mod syncer;
pub mod text;

pub use clock::Moment;
pub use config::{api_key, queue_url, Config};
pub use dataset::{Action, Dataset};
pub use dedup::{make_sure_index_exists, sorted_unique};
pub use error::{all_or_first_failure, BatchFailure, Error};
pub use exporter::{
    dated_snapshot_url, export_urls, exporter_url, extract, harvest, harvest_export,
    harvester_url, processing_date, processing_date_at, snapshot_url,
};
pub use handler::handler;
pub use message::{create_messages, Message};
pub use queue::{
    process_messages, queue, queue_outcome, wave_outcome, Call, Dispatcher, QueueEntry, Wave,
};
pub use syncer::{
    dated_request, harvest_sync, page_waves, request, url, Collector, QueryParameter,
};
