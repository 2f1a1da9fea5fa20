//! Verified core of a transport benchmark that sends the same packets over
//! gRPC, QUIC and raw TCP and compares how they fare.

pub mod client;
pub mod clock;
pub mod connection;
pub mod datagen;
pub mod endian;
pub mod frame;
pub mod messages;
pub mod metrics;
pub mod orchestrator;
pub mod report;
pub mod serde_metrics;
pub mod streams;
pub mod summary;
pub mod text;
pub mod tls;
pub mod tracker;
pub mod wire;
