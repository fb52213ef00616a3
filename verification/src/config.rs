//! The settings of a collection that the statistics read and write.

use vstd::prelude::*;

verus! {

/// The day on which a week starts.
#[derive(Debug, Clone, Copy, PartialEq, Eq, Structural)]
pub enum Weekday {
    Sunday,
    Monday,
    Friday,
    Saturday,
}

impl Weekday {
    /// The number of the day, counted from Sunday.
    pub open spec fn number(self) -> i32 {
        match self {
            Weekday::Sunday => 0,
            Weekday::Monday => 1,
            Weekday::Friday => 5,
            Weekday::Saturday => 6,
        }
    }

    pub fn as_number(self) -> (n: i32)
        ensures
            n == self.number(),
    {
        match self {
            Weekday::Sunday => 0,
            Weekday::Monday => 1,
            Weekday::Friday => 5,
            Weekday::Saturday => 6,
        }
    }
}

#[derive(Debug, Clone, Copy, PartialEq, Eq, Structural)]
pub struct Config {
    pub first_day_of_week: Weekday,
    pub card_counts_separate_inactive: bool,
    pub future_due_show_backlog: bool,
    /// Whether cards are scheduled by FSRS.
    pub fsrs: bool,
}

/// The settings of a new collection.
pub open spec fn initial_config() -> Config {
    Config {
        first_day_of_week: Weekday::Sunday,
        card_counts_separate_inactive: true,
        future_due_show_backlog: true,
        fsrs: false,
    }
}

impl Config {
    /// The settings of a new collection.
    pub fn new() -> (config: Config)
        ensures
            config == initial_config(),
    {
        Config {
            first_day_of_week: Weekday::Sunday,
            card_counts_separate_inactive: true,
            future_due_show_backlog: true,
            fsrs: false,
        }
    }
}

} // verus!
