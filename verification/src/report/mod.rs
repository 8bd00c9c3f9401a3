//! Reports: the history of stored runs, the maintenance of the database and
//! the watch sessions.

pub mod display;
pub mod history;
pub mod loss;
pub mod maintenance;
pub mod temporal;
pub mod verdict;
pub mod watch;
