//! What calls of the library give, told by what goes in and what comes out.

pub mod days;
pub mod entries;
pub mod history;
pub mod logging;
pub mod memory;
pub mod passes;
pub mod reading;
pub mod response;
pub mod statistics;
pub mod tables;
