//! Staleness monitor core: evaluates per-server status records against a
//! configured threshold, gates repeat alerts through a persisted ledger with
//! a cooldown window, and composes the alert messages that the surrounding
//! program delivers.

pub mod codec;
pub mod conf;
pub mod digits;
pub mod driver;
pub mod evaluator;
pub mod feed;
pub mod yaaw;
