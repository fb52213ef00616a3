//! How the statistics are shown.

use crate::collection::Collection;
use crate::config::Config;
use crate::config::Weekday;
use crate::error::AnkiError;
use vstd::prelude::*;

verus! {

#[derive(Debug, Clone, Copy, PartialEq, Eq, Structural)]
pub struct GraphPreferences {
    /// The number of the day, counted from Sunday.
    pub calendar_first_day_of_week: i32,
    pub card_counts_separate_inactive: bool,
    pub browser_links_supported: bool,
    pub future_due_show_backlog: bool,
}

/// The preferences that the settings stand for.
pub open spec fn preferences_of(config: Config) -> GraphPreferences {
    GraphPreferences {
        calendar_first_day_of_week: config.first_day_of_week.number(),
        card_counts_separate_inactive: config.card_counts_separate_inactive,
        browser_links_supported: true,
        future_due_show_backlog: config.future_due_show_backlog,
    }
}

/// The day with the given number, Sunday where a week cannot start on it.
pub open spec fn weekday_of(number: i32) -> Weekday {
    if number == 1 {
        Weekday::Monday
    } else if number == 5 {
        Weekday::Friday
    } else if number == 6 {
        Weekday::Saturday
    } else {
        Weekday::Sunday
    }
}

/// The settings after the preferences were set.
pub open spec fn with_preferences(config: Config, prefs: GraphPreferences) -> Config {
    Config {
        first_day_of_week: weekday_of(prefs.calendar_first_day_of_week),
        card_counts_separate_inactive: prefs.card_counts_separate_inactive,
        future_due_show_backlog: prefs.future_due_show_backlog,
        fsrs: config.fsrs,
    }
}

impl Collection {
    pub fn get_graph_preferences(&self) -> (prefs: GraphPreferences)
        ensures
            prefs == preferences_of(self.config),
    {
        GraphPreferences {
            calendar_first_day_of_week: self.config.first_day_of_week.as_number(),
            card_counts_separate_inactive: self.config.card_counts_separate_inactive,
            browser_links_supported: true,
            future_due_show_backlog: self.config.future_due_show_backlog,
        }
    }

    pub fn set_graph_preferences(&mut self, prefs: GraphPreferences) -> (r: Result<(), AnkiError>)
        ensures
            r is Ok,
            final(self).config == with_preferences(old(self).config, prefs),
            final(self).storage == old(self).storage,
            final(self).undo == old(self).undo,
    {
        self.config.first_day_of_week = match prefs.calendar_first_day_of_week {
            1 => Weekday::Monday,
            5 => Weekday::Friday,
            6 => Weekday::Saturday,
            _ => Weekday::Sunday,
        };
        self.config.card_counts_separate_inactive = prefs.card_counts_separate_inactive;
        self.config.future_due_show_backlog = prefs.future_due_show_backlog;
        Ok(())
    }
}

/// Preferences that are set are got back, but for a day on which no week starts, which becomes
/// Sunday, and for the links, which are always supported.
pub proof fn law_preferences_are_kept(config: Config, prefs: GraphPreferences)
    ensures
        ({
            let got = preferences_of(with_preferences(config, prefs));
            let day = prefs.calendar_first_day_of_week;
            &&& got.calendar_first_day_of_week == if day == 1 || day == 5 || day == 6 {
                day
            } else {
                0
            }
            &&& got.card_counts_separate_inactive == prefs.card_counts_separate_inactive
            &&& got.future_due_show_backlog == prefs.future_due_show_backlog
            &&& got.browser_links_supported
        }),
{
}

/// To set the preferences that were got changes nothing.
pub proof fn law_own_preferences_change_nothing(config: Config)
    ensures
        with_preferences(config, preferences_of(config)) == config,
{
}

} // verus!
