//! Core of an order-management simulator that speaks FIX 4.2: the wire codec,
//! the message model, and the per-session decisions, each with a verified
//! contract.

pub mod codec_engine;
pub mod common_types;
pub mod decimal;
pub mod driver;
pub mod event_model;
pub mod metrics;
pub mod network_tcp;
pub mod protocol_defs;
pub mod session;
