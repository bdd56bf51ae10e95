//! `dur`: a sliding-window request-rate governor.
//!
//! Given a client identifier (and optionally its source IP address and the
//! requested path), the engine decides whether to admit or reject the request,
//! based on how many requests that identifier has made inside a trailing time
//! window. The counting backend keeps, per identifier, a log of timestamped
//! request events; eviction is lazy and driven by traffic.

mod api;
mod backend;
mod config;
mod dur;
mod ip;
mod laws;
mod memory;
mod path;

pub use api::Request;
pub use backend::{Backend, LogEntryModel, StorageError, TagModel};
pub use dur::Dur;
pub use config::{Config, ConfigError, Limits};
pub use ip::{parse_ipv4, Ip, Ipv4Addr};
pub use laws::{
    lemma_eviction_window, lemma_fresh_identifier_admitted, lemma_no_over_admission,
    lemma_run_log_full, lemma_window_counting,
};
pub use memory::{IpAndPath, Memory, RequestError};
pub use path::Path;
