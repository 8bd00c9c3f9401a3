//! Traceroute probing: packet format, loss heuristics and ECMP probing.

pub mod engine;
pub mod heuristics;
pub mod probe;
pub mod tcp_probe;
