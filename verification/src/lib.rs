//! Aggregation of top-of-book order-book summaries from several exchange
//! feeds: a fixed-point price model, a decoder for the feed message format,
//! a merge-and-rank engine, a keyed store of per-exchange summaries, and a
//! subscription state machine for streaming the result out.

pub mod book;
pub mod decode;
pub mod feed;
pub mod publish;
pub mod store;

pub use book::{Level, Summary};
