//! Resource-monitoring agent core: metric collection with network-delta
//! tracking, threshold anomaly detection, an append-only persisted time
//! series with bounded retention, a lock-guarded latest-snapshot slot, and
//! the state machine behind OS service registration; plus the text-document
//! engine of the accompanying editor.

pub mod config;
pub mod document;
pub mod monitor;
pub mod notification;
pub mod numfmt;
pub mod orchestrator;
pub mod security;
pub mod service_manager;
pub mod settings;
pub mod shared_state;
pub mod storage;
pub mod textscan;
