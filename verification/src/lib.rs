//! The decision logic of a small self-hosted monitoring dashboard: the rolling
//! history of samples and its column view, the choice of the busiest processes,
//! of the root disk and of the CPU temperature sensor, the network traffic
//! between two samples, and the Prometheus text exposition.

pub mod collector;
pub mod decimal;
pub mod disk;
pub mod history;
pub mod network;
pub mod processes;
pub mod prometheus;
pub mod sensors;
