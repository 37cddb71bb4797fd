//! Core of a concurrent network discovery engine: the decisions of the host,
//! port and neighbor scans, the concurrency tuner, the progress throttle and
//! the service databases, each with a machine-checked contract.
//!
//! Sockets, name resolution and the event transport live outside this crate.
//! A scan is driven by handing each outside result to a step function, which
//! answers with the events to emit and the work to do next.

pub mod addr;
pub mod command;
pub mod dns;
pub mod endpoint;
pub mod events;
pub mod icmp;
pub mod interface;
pub mod literal;
pub mod literal_laws;
pub mod marks;
pub mod model;
pub mod names;
pub mod neigh;
pub mod ports;
pub mod portscan;
pub mod progress;
pub mod quic;
pub mod random;
pub mod service;
pub mod service_db;
pub mod tcp;
pub mod text;
pub mod tuner;
