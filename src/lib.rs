//! Local replica of an exchange order book, fed by redundant realtime streams.
//!
//! The verified core: decimal price text turned into a numeric key, the order
//! table and its ordered read-out, the order book's admission state machine and
//! the sequence gates that deduplicate messages racing in from several workers.
pub mod balancer;
pub mod book;
pub mod config;
pub mod data;
pub mod decimal;
pub mod error;
pub mod table;
pub mod worker;
pub mod ws;
