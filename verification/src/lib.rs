//! Verified core of a collector for the `admin_getThrottleController` JSON-RPC method.
//!
//! The collector keeps one entry per UTC second, answers lookups over HTTP, and
//! fills the seconds that it could not poll. Everything that decides or computes
//! stands here; sockets, the mutex and the clock-driven loop stand in the program
//! around the library.
pub mod calendar;
pub mod clock;
pub mod config;
pub mod json;
pub mod laws;
pub mod model;
pub mod numeral;
pub mod percent;
pub mod scraper;
pub mod server;
pub mod startup;
pub mod text;
pub mod timeline;
