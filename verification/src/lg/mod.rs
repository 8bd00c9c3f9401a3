//! Looking glass: diagnosis of the return path.

pub mod db;
pub mod engine;
pub mod globalping;
pub mod query;
