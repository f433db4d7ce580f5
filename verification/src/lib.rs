//! A verified core for a self-hosted media server: filename parsing and
//! library scanning, an entity store with an idempotent item hierarchy,
//! the play-decision engine, HTTP range handling, and the transcode
//! session manager.

pub mod artwork;
pub mod auth;
pub mod decision;
pub mod events;
pub mod gpu;
pub mod hls;
pub mod merge;
pub mod parser;
pub mod pipeline;
pub mod probe;
pub mod range;
pub mod scan;
pub mod session;
pub mod setup;
pub mod store;
pub mod strutil;
pub mod subtitles;
pub mod transcode;
pub mod types;
