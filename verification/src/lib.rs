//! Verified core of a compose-stack supervisor with observability injection.
//!
//! The library rewrites a canonical compose document into a derived one that
//! interposes proxy sidecars, plans the run of the underlying engine, parses
//! proxy access records into a uniform observation model, and fans events out
//! through bounded in-memory hubs.

pub mod args;
pub mod compose;
pub mod derive;
pub mod domain;
pub mod engine;
pub mod envoy;
pub mod hub;
pub mod json;
pub mod logging;
pub mod multiline;
pub mod observe;
pub mod paths;
pub mod ports;
pub mod run;
pub mod session;
pub mod runner;
pub mod strings;
pub mod yaml;
