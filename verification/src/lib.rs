//! A chaos-engineering intercepting proxy core for a serverless runtime:
//! feature-flag configuration parsing and validation, event-condition
//! matching, failure-effect planning, and the per-invocation state machine.
//!
//! The crate is the verified heart of the proxy. The process around it — the
//! HTTP listener and client, the configuration fetchers, the clock, the
//! file system — hands plain values in and carries decisions out; random
//! draws and regular expressions come in through narrow trusted wrappers.

pub mod cache;
pub mod config;
pub mod failures;
pub mod json;
pub mod json_text;
pub mod matching;
pub mod proxy;
pub mod regexes;
pub mod rng;
pub mod round_trip;
pub mod serialize;
pub mod text;
