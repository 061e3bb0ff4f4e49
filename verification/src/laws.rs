//! What the collector promises, stated in terms of what goes in and what comes out: one
//! module for each part of it.
pub mod bodies;
pub mod numbers;
pub mod polling;
pub mod replies;
pub mod requests;
pub mod retention;
pub mod seconds;
pub mod settings;
pub mod wire;
pub mod words;
