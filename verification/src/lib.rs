//! The review log of a spaced repetition collection: its entries, the chunked reader that
//! lists them card by card, and the preparation of the statistics that are drawn from them.

pub mod calls;
pub mod card;
pub mod chunked;
pub mod collection;
pub mod config;
pub mod error;
pub mod graphs;
pub mod order;
pub mod revlog;
pub mod storage;
pub mod timestamp;
