//! Core of a local telemetry broker: the admission pipeline that decides
//! whether an inbound payload is accepted and recorded, the transactional
//! store model it writes to, and the lifecycle of the outbound hub
//! credential.

pub mod admission;
pub mod config;
pub mod models;
pub mod net;
pub mod store;
pub mod strutil;
pub mod token;
