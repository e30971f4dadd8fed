//! Core logic for locating every recoverable copy — live and
//! snapshot-resident — of a set of requested files on a copy-on-write
//! filesystem, and for the consent-gated workflow that destroys the
//! snapshots backing them.

pub mod alts;
pub mod config;
pub mod data;
pub mod display;
pub mod errors;
pub mod lookup;
pub mod mounts;
pub mod resolve;
pub mod snap_names;
pub mod strutil;
pub mod versions;
pub mod workflow;
