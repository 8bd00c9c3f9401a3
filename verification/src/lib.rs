//! peering-diag: diagnosis of peering problems between autonomous systems.
//!
//! The library holds the logic of the tool: the ICMP packet format, the
//! heuristics that tell real loss from ICMP rate-limiting, the ECMP imbalance
//! detector, the static databases of measurement endpoints and looking-glass
//! servers, the validation of web job requests and the text helpers used by
//! the reports. Probing, DNS, HTTP, SQLite and the terminal stay outside.

pub mod asn;
pub mod geo;
pub mod lg;
pub mod mtr;
pub mod report;
pub mod speedtest;
pub mod text;
pub mod web;
pub mod types;
