//! Keystroke counters kept on an agent and merged into a hub.
//!
//! The agent stages hourly counts in a [`local::LocalStore`] and commits
//! them to a hub, whose [`hub::HubStore`] keeps one ledger per user. The
//! [`client`] runs the revert sequence, the [`service`] answers the hub's
//! requests, and [`retry`] runs a transaction again while its store is
//! locked. The [`laws`] state what holds across these operations.

pub mod agent;
pub mod client;
pub mod counts;
pub mod hub;
pub mod hub_config;
pub mod laws;
pub mod local;
pub mod retry;
pub mod service;
pub mod types;
