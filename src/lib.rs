//! Keeps a cloud machine's addresses, default routes and policy-routing
//! rules in line with what the cloud's metadata service publishes.
//!
//! The kernel work itself (netlink round trips, HTTP, files) is done by the
//! caller; this library decides what to do and keeps the record of what was
//! installed.

pub mod cloud;
pub mod env;
pub mod gateway;
pub mod conf;
pub mod ip;
pub mod keyed;
pub mod net;
pub mod parser;
pub mod provider;
pub mod reconcile;
pub mod text;
pub mod table;
