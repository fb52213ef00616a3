//! The entries of the review log.

use crate::card::CardId;
use crate::card::Usn;
use crate::timestamp::div_toward_zero;
use crate::timestamp::is_clock_reading;
use crate::timestamp::reading_millis;
use crate::timestamp::TimestampMillis;
use crate::timestamp::TimestampSecs;
use crate::timestamp::SECS_PER_DAY;
use vstd::prelude::*;
use vstd::std_specs::convert::FromSpecImpl;

verus! {

/// The id of an entry: the time at which it was made, in milliseconds.
#[derive(Debug, Clone, Copy, PartialEq, Eq, PartialOrd, Ord, Hash, Structural)]
pub struct RevlogId(pub i64);

impl RevlogId {
    /// An id for an entry that is made now: the milliseconds that the clock reads.
    pub fn new() -> (id: Self)
        ensures
            exists|reading: Result<u128, u128>| #[trigger]
                is_clock_reading(reading) && id.0 == reading_millis(reading),
    {
        RevlogId(TimestampMillis::now().0)
    }

    pub fn as_secs(self) -> (secs: TimestampSecs)
        ensures
            secs.0 == div_toward_zero(self.0 as int, 1000),
    {
        TimestampSecs(self.0 / 1000)
    }
}

impl From<TimestampMillis> for RevlogId {
    fn from(m: TimestampMillis) -> (id: Self) {
        RevlogId(m.0)
    }
}

impl FromSpecImpl<TimestampMillis> for RevlogId {
    open spec fn obeys_from_spec() -> bool {
        true
    }

    open spec fn from_spec(m: TimestampMillis) -> Self {
        RevlogId(m.0)
    }
}

#[derive(Debug, Clone, Copy, PartialEq, Eq, Structural)]
pub enum RevlogReviewKind {
    Learning,
    Review,
    Relearning,
    /// Once called "Cram" or "Early". It is assigned when reviewing cards before they are
    /// due, or when rescheduling is disabled.
    Filtered,
    Manual,
    Rescheduled,
}

#[derive(Debug, Clone, Copy, PartialEq, Eq, Structural)]
pub struct RevlogEntry {
    pub id: RevlogId,
    pub cid: CardId,
    pub usn: Usn,
    /// - In the V1 scheduler, 3 represents easy in the learning case.
    /// - 0 represents manual rescheduling.
    pub button_chosen: u8,
    /// Positive values are in days, negative values in seconds.
    pub interval: i32,
    /// Positive values are in days, negative values in seconds.
    pub last_interval: i32,
    /// The card's ease after answering, stored as 10x the %, eg 2500 represents 250%. When
    /// FSRS is active, difficulty is normalized to the range 100-1100, so a 0 difficulty can
    /// be distinguished from SM-2 learning.
    pub ease_factor: u32,
    /// Milliseconds taken to answer the card.
    pub taken_millis: u32,
    pub review_kind: RevlogReviewKind,
}

impl RevlogReviewKind {
    /// The number under which the kind is stored.
    pub open spec fn number(self) -> u8 {
        match self {
            RevlogReviewKind::Learning => 0,
            RevlogReviewKind::Review => 1,
            RevlogReviewKind::Relearning => 2,
            RevlogReviewKind::Filtered => 3,
            RevlogReviewKind::Manual => 4,
            RevlogReviewKind::Rescheduled => 5,
        }
    }

    pub fn as_number(self) -> (n: u8)
        ensures
            n == self.number(),
    {
        match self {
            RevlogReviewKind::Learning => 0,
            RevlogReviewKind::Review => 1,
            RevlogReviewKind::Relearning => 2,
            RevlogReviewKind::Filtered => 3,
            RevlogReviewKind::Manual => 4,
            RevlogReviewKind::Rescheduled => 5,
        }
    }

    /// The kind that is stored under `n`, if there is one.
    pub fn from_number(n: u8) -> (kind: Option<RevlogReviewKind>)
        ensures
            match kind {
                Some(kind) => kind.number() == n,
                None => n > 5,
            },
    {
        match n {
            0 => Some(RevlogReviewKind::Learning),
            1 => Some(RevlogReviewKind::Review),
            2 => Some(RevlogReviewKind::Relearning),
            3 => Some(RevlogReviewKind::Filtered),
            4 => Some(RevlogReviewKind::Manual),
            5 => Some(RevlogReviewKind::Rescheduled),
            _ => None,
        }
    }
}

impl Default for RevlogReviewKind {
    fn default() -> (kind: Self)
        ensures
            kind == RevlogReviewKind::Learning,
    {
        RevlogReviewKind::Learning
    }
}

impl Default for RevlogEntry {
    fn default() -> (entry: Self)
        ensures
            entry == (RevlogEntry {
                id: RevlogId(0),
                cid: CardId(0),
                usn: Usn(0),
                button_chosen: 0,
                interval: 0,
                last_interval: 0,
                ease_factor: 0,
                taken_millis: 0,
                review_kind: RevlogReviewKind::Learning,
            }),
    {
        RevlogEntry {
            id: RevlogId(0),
            cid: CardId(0),
            usn: Usn(0),
            button_chosen: 0,
            interval: 0,
            last_interval: 0,
            ease_factor: 0,
            taken_millis: 0,
            review_kind: RevlogReviewKind::Learning,
        }
    }
}

/// The length of a stored interval in seconds: a positive one counts days, another the seconds
/// below zero. A length of more than `i32::MAX` seconds counts as that.
pub open spec fn span_secs(interval: i32) -> int {
    let secs = if interval > 0 {
        interval * SECS_PER_DAY
    } else {
        -interval
    };
    if secs > i32::MAX {
        i32::MAX as int
    } else {
        secs
    }
}

fn to_secs(interval: i32) -> (secs: u32)
    ensures
        secs == span_secs(interval),
{
    let secs: i64 = if interval > 0 {
        interval as i64 * SECS_PER_DAY
    } else {
        -(interval as i64)
    };
    if secs > i32::MAX as i64 {
        i32::MAX as u32
    } else {
        secs as u32
    }
}

impl RevlogEntry {
    pub fn interval_secs(&self) -> (secs: u32)
        ensures
            secs == span_secs(self.interval),
    {
        to_secs(self.interval)
    }

    pub fn last_interval_secs(&self) -> (secs: u32)
        ensures
            secs == span_secs(self.last_interval),
    {
        to_secs(self.last_interval)
    }

    /// The whole days from the entry to the start of the next day, none for a later entry.
    pub open spec fn age_in_days(self, next_day_at: TimestampSecs) -> int {
        let secs = next_day_at.0 - div_toward_zero(self.id.0 as int, 1000);
        if secs > 0 {
            secs / SECS_PER_DAY as int
        } else {
            0
        }
    }

    /// The whole days from the entry to the start of the next day, none for a later entry, cut
    /// to 32 bits.
    pub fn days_elapsed(&self, next_day_at: TimestampSecs) -> (days: u32)
        ensures
            days == self.age_in_days(next_day_at) as u32,
    {
        let secs: i128 = next_day_at.0 as i128 - self.id.as_secs().0 as i128;
        if secs > 0 {
            let days: i128 = secs / SECS_PER_DAY as i128;
            #[verifier::truncate]
            (days as u32)
        } else {
            0
        }
    }

    /// A card was reset.
    pub open spec fn resets(self) -> bool {
        self.review_kind == RevlogReviewKind::Manual && self.ease_factor == 0
    }

    /// A card was crammed.
    pub open spec fn crams(self) -> bool {
        self.review_kind == RevlogReviewKind::Filtered && self.ease_factor == 0
    }

    /// An answer was given.
    pub open spec fn rated(self) -> bool {
        self.button_chosen > 0
    }

    /// An answer was given that scheduling and statistics take into account.
    pub open spec fn counts(self) -> bool {
        self.rated() && !self.crams()
    }

    /// Returns true if this entry represents a reset operation, as it is made when a card is
    /// turned into a new one. The 0 value of `ease_factor` tells it from the entry that is
    /// made when a due date is set, which has `RevlogReviewKind::Manual` but a non-zero
    /// `ease_factor`.
    pub fn is_reset(&self) -> (r: bool)
        ensures
            r == self.resets(),
    {
        self.review_kind == RevlogReviewKind::Manual && self.ease_factor == 0
    }

    /// Returns true if this entry represents a cramming operation, as it is made when a card
    /// is reviewed in a filtered deck that does not reschedule cards by their answers. The 0
    /// value of `ease_factor` tells it from the entry that is made when a card is reviewed
    /// before its due date in a filtered deck that reschedules, or is graded at once.
    pub fn is_cramming(&self) -> (r: bool)
        ensures
            r == self.crams(),
    {
        self.review_kind == RevlogReviewKind::Filtered && self.ease_factor == 0
    }

    pub fn has_rating(&self) -> (r: bool)
        ensures
            r == self.rated(),
    {
        self.button_chosen > 0
    }

    /// Returns true if the review entry is not manually rescheduled and not cramming. Used to
    /// filter out entries that shouldn't be considered for statistics and scheduling.
    pub fn has_rating_and_affects_scheduling(&self) -> (r: bool)
        ensures
            r == self.counts(),
    {
        // not rescheduled/set due date/reset
        self.has_rating()
        // not cramming
         && !self.is_cramming()
    }
}

/// No entry is both a reset and cramming.
pub proof fn law_reset_is_not_cramming(entry: RevlogEntry)
    ensures
        !(entry.resets() && entry.crams()),
{
}

/// Kinds that are stored under the same number are the same.
pub proof fn law_kind_numbers_distinct(a: RevlogReviewKind, b: RevlogReviewKind)
    requires
        a.number() == b.number(),
    ensures
        a == b,
{
}

/// A stored interval of days is no shorter than one of fewer days, and a length in seconds
/// always fits.
pub proof fn law_span_grows(a: i32, b: i32)
    ensures
        0 <= span_secs(a) <= i32::MAX,
        0 < a <= b ==> span_secs(a) <= span_secs(b),
        b <= a <= 0 ==> span_secs(a) <= span_secs(b),
{
}

} // verus!
