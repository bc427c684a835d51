//! A crawlable tree of signed tokens, and per-user request statistics.

pub mod user;
pub mod collector;
pub mod ladder;
pub mod page;
pub mod stats;
pub mod token;
pub mod wire;
