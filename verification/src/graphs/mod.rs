//! What the statistics of a collection are drawn from.

pub mod by_card;
pub mod comparison;
pub mod context;
pub mod historical;
pub mod history;
pub mod memorized;
pub mod model;
pub mod preferences;
pub mod response;
pub mod split;
