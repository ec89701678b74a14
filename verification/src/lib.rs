//! A request front door with per-client, per-route rate limiting.
//!
//! A request arrives as a start line and header lines. The classifier in
//! [`http`] maps the start line to one of three logical routes, the quota
//! tracker in [`limiter`] counts each client's requests in fixed windows of
//! sixty seconds, and the gateway in [`server`] keeps one tracker per route.
//! [`text`] splits a line into fields, and [`decimal`] reads and writes
//! numbers.
//!
//! Time is a count of nanoseconds on a monotonic clock. Every function that
//! depends on the time exists twice: once taking the time as an argument,
//! and once reading it from [`clock::Clock`], which never shows less than
//! it has shown before. The one that reads the clock answers as the other
//! does for the time that the clock then shows.
//!
//! The gateway and the trackers are changed through `&mut`, so that two
//! requests are never evaluated at once; a gateway that serves several
//! connections at a time is kept behind a lock.

pub mod clock;
pub mod decimal;
pub mod http;
pub mod limiter;
pub mod server;
pub mod text;
