//! Throughput measurement: the endpoint base and the choice of methods.

pub mod cascade;
pub mod servers;
pub mod tier1_db;
