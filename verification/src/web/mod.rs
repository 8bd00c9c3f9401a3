//! Web interface: validation of job requests, job logs and the small rules of
//! the HTTP handlers. The HTTP server itself stays outside the library.

pub mod args;
pub mod geo;
pub mod jobs;
