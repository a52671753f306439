//! Vendor-neutral accelerator readiness toolkit: the decisions behind the
//! per-node daemon, the rack prober, the probe itself and the admin console.

pub mod admin;
pub mod config;
pub mod exporter;
pub mod graph;
pub mod hashing;
pub mod json;
pub mod k8s;
pub mod laws;
pub mod number;
pub mod paths;
pub mod preflight;
pub mod probe;
pub mod prober;
pub mod scan;
pub mod sensors;
pub mod sorting;
pub mod telemetry;
pub mod text;
pub mod textmap;
pub mod time;
pub mod topology;
