//! Access-log metrics: parse the lines of a web-server access log and keep
//! Prometheus counters of what they say.

pub mod chars;
pub mod grammar;
pub mod number;
pub mod ip;
pub mod time;
pub mod parser;
pub mod guard;
pub mod reader;
pub mod counters;
pub mod init_helpers;
pub mod metrics;
