//! What is told of one entry of the review log.

use crate::card::CardId;
use crate::card::Usn;
use crate::revlog::RevlogEntry;
use crate::revlog::RevlogId;
use crate::revlog::RevlogReviewKind;
use crate::timestamp::TimestampMillis;
use crate::timestamp::TimestampSecs;
use vstd::prelude::*;

verus! {

/// A stored interval of 1 to 24855 days lasts 86400 seconds a day, more days last the longest
/// time that is told, and a stored number of seconds below zero lasts as long as it says. Nothing
/// else of the entry matters.
pub proof fn law_interval_lasts(entry: RevlogEntry, secs: u32)
    requires
        call_ensures(RevlogEntry::interval_secs, (&entry,), secs),
    ensures
        1 <= entry.interval <= 24855 ==> secs == entry.interval * 86400,
        entry.interval > 24855 ==> secs == 2147483647,
        -2147483647 <= entry.interval <= 0 ==> secs + entry.interval == 0,
        entry.interval < -2147483647 ==> secs == 2147483647,
{
}

/// The last interval lasts as long as an interval of the same number.
pub proof fn law_last_interval_lasts_alike(
    entry: RevlogEntry,
    other: RevlogEntry,
    last_secs: u32,
    secs: u32,
)
    requires
        call_ensures(RevlogEntry::last_interval_secs, (&entry,), last_secs),
        call_ensures(RevlogEntry::interval_secs, (&other,), secs),
        entry.last_interval == other.interval,
    ensures
        last_secs == secs,
{
}

/// Two intervals of days last together as long as one of all their days, as long as that can be
/// told.
pub proof fn law_intervals_add(
    a: RevlogEntry,
    b: RevlogEntry,
    both: RevlogEntry,
    a_secs: u32,
    b_secs: u32,
    secs: u32,
)
    requires
        call_ensures(RevlogEntry::interval_secs, (&a,), a_secs),
        call_ensures(RevlogEntry::interval_secs, (&b,), b_secs),
        call_ensures(RevlogEntry::interval_secs, (&both,), secs),
        a.interval >= 0,
        b.interval >= 0,
        both.interval == a.interval + b.interval,
        both.interval <= 24855,
    ensures
        secs == a_secs + b_secs,
{
}

/// The seconds of an id are its whole thousands, toward zero.
pub proof fn law_id_in_seconds(id: RevlogId, secs: TimestampSecs)
    requires
        call_ensures(RevlogId::as_secs, (id,), secs),
    ensures
        id.0 >= 0 ==> secs.0 * 1000 <= id.0 < secs.0 * 1000 + 1000,
        id.0 <= 0 ==> secs.0 * 1000 - 1000 < id.0 <= secs.0 * 1000,
{
}

/// An entry is as many whole days old as fit between it and the start of the next day, none if
/// it is later; counted up to 32 bits.
pub proof fn law_entry_is_whole_days_old(
    entry: RevlogEntry,
    next_day_at: TimestampSecs,
    days: u32,
)
    requires
        call_ensures(RevlogEntry::days_elapsed, (&entry, next_day_at), days),
        entry.id.0 >= 0,
        next_day_at.0 - entry.id.0 / 1000 < 0x1_0000_0000 * 86400,
    ensures
        next_day_at.0 >= entry.id.0 / 1000 ==> days * 86400 <= next_day_at.0 - entry.id.0 / 1000
            < days * 86400 + 86400,
        next_day_at.0 <= entry.id.0 / 1000 ==> days == 0,
{
}

/// A day later, an entry that is not later than the earlier day is a day older.
pub proof fn law_entry_ages_by_the_day(
    entry: RevlogEntry,
    today: TimestampSecs,
    tomorrow: TimestampSecs,
    days: u32,
    days_tomorrow: u32,
)
    requires
        call_ensures(RevlogEntry::days_elapsed, (&entry, today), days),
        call_ensures(RevlogEntry::days_elapsed, (&entry, tomorrow), days_tomorrow),
        entry.id.0 >= 0,
        today.0 >= entry.id.0 / 1000,
        tomorrow.0 == today.0 + 86400,
        tomorrow.0 - entry.id.0 / 1000 < 0x1_0000_0000 * 86400,
    ensures
        days_tomorrow == days + 1,
{
    law_entry_is_whole_days_old(entry, today, days);
    law_entry_is_whole_days_old(entry, tomorrow, days_tomorrow);
}

/// An entry is a reset if and only if it was made by hand without an ease.
pub proof fn law_reset(entry: RevlogEntry, r: bool)
    requires
        call_ensures(RevlogEntry::is_reset, (&entry,), r),
    ensures
        r <==> entry.ease_factor == 0 && entry.review_kind is Manual,
{
}

/// An entry is cramming if and only if it was made in a filtered deck without an ease.
pub proof fn law_cramming(entry: RevlogEntry, r: bool)
    requires
        call_ensures(RevlogEntry::is_cramming, (&entry,), r),
    ensures
        r <==> entry.ease_factor == 0 && entry.review_kind is Filtered,
{
}

/// An entry has a rating if and only if a button was chosen.
pub proof fn law_rating(entry: RevlogEntry, r: bool)
    requires
        call_ensures(RevlogEntry::has_rating, (&entry,), r),
    ensures
        r <==> entry.button_chosen != 0,
{
}

/// An entry counts if and only if it has a rating and is not cramming.
pub proof fn law_counting(entry: RevlogEntry, counts: bool, rated: bool, crammed: bool)
    requires
        call_ensures(RevlogEntry::has_rating_and_affects_scheduling, (&entry,), counts),
        call_ensures(RevlogEntry::has_rating, (&entry,), rated),
        call_ensures(RevlogEntry::is_cramming, (&entry,), crammed),
    ensures
        counts <==> rated && !crammed,
        counts ==> entry.button_chosen != 0 && !(entry.review_kind is Filtered
            && entry.ease_factor == 0),
{
}

/// Kinds are stored as the numbers from 0 to 5, in their order.
pub proof fn law_kind_as_number(kind: RevlogReviewKind, n: u8)
    requires
        call_ensures(RevlogReviewKind::as_number, (kind,), n),
    ensures
        n <= 5,
        n == 0 <==> kind is Learning,
        n == 1 <==> kind is Review,
        n == 2 <==> kind is Relearning,
        n == 3 <==> kind is Filtered,
        n == 4 <==> kind is Manual,
        n == 5 <==> kind is Rescheduled,
{
}

/// A number gives back the kind that is stored as it, and a number past 5 gives none.
pub proof fn law_kind_of_number(
    n: u8,
    found: Option<RevlogReviewKind>,
    kind: RevlogReviewKind,
    stored: u8,
)
    requires
        call_ensures(RevlogReviewKind::from_number, (n,), found),
        call_ensures(RevlogReviewKind::as_number, (kind,), stored),
    ensures
        found is Some <==> n <= 5,
        found == Some(kind) <==> n == stored,
{
}

/// A default entry is all zero.
pub proof fn law_default_entry(entry: RevlogEntry, kind: RevlogReviewKind)
    requires
        call_ensures(RevlogEntry::default, (), entry),
        call_ensures(RevlogReviewKind::default, (), kind),
    ensures
        entry.id.0 == 0 && entry.cid == CardId(0) && entry.usn == Usn(0),
        entry.button_chosen == 0 && entry.interval == 0 && entry.last_interval == 0,
        entry.ease_factor == 0 && entry.taken_millis == 0,
        entry.review_kind is Learning && kind is Learning,
{
}

/// A reading of the clock is told in milliseconds, those before 1970 below zero.
pub proof fn law_reading_in_millis(reading: Result<u128, u128>, stamp: TimestampMillis)
    requires
        call_ensures(TimestampMillis::from_reading, (reading,), stamp),
    ensures
        reading matches Ok(since) ==> since <= i64::MAX ==> stamp.0 == since,
        reading matches Err(before) ==> before <= i64::MAX ==> stamp.0 + before == 0,
{
}

/// A number of seconds is the point in time that many seconds after the start of 1970.
pub proof fn law_stamp_of_seconds(secs: i64, stamp: TimestampSecs)
    requires
        call_ensures(<TimestampSecs as From<i64>>::from, (secs,), stamp),
    ensures
        stamp.0 == secs,
{
}

/// The id of an entry that is made at a time is its milliseconds.
pub proof fn law_id_of_millis(made: TimestampMillis, id: RevlogId)
    requires
        call_ensures(<RevlogId as From<TimestampMillis>>::from, (made,), id),
    ensures
        id.0 == made.0,
{
}

/// Time passes by as many seconds as are added.
pub proof fn law_seconds_are_added(stamp: TimestampSecs, secs: i64, later: TimestampSecs)
    requires
        call_ensures(TimestampSecs::adding_secs, (stamp, secs), later),
    ensures
        later.0 - stamp.0 == secs,
{
}

} // verus!
