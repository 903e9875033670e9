//! Finds and removes the lines of a hosts file that name a given domain, and
//! drives the small window that reports on them.

pub mod hosts;
pub mod lines;
pub mod mode;
pub mod screen;
pub mod search;
