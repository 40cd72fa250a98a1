//! What holds of users, subscriptions and the clock that they go by.

use crate::clock::{
    clock_text, is_later, london_offset, london_text, london_time, london_weekday,
    minutes_left, time_of, weekday_of, NaiveTime, Timestamp, Weekday,
};
use crate::domain::subscription::{
    display_ids, in_window, is_free_number, next_id, next_id_is_smallest,
};
use crate::domain::{Channel, ScheduleView, SubscriptionView, TimeWindow, UserKeyView, UserView};
use crate::text::{decimal, digit, two_digits};
use vstd::prelude::*;
use vstd::string::*;

verus! {

// ---------------------------------------------------------------------------
// The clock
// ---------------------------------------------------------------------------

/// One instant is later than another exactly where more time has passed since the
/// start of 1970, down to the nanosecond.
pub proof fn later_means_more_time(a: Timestamp, b: Timestamp)
    ensures
        is_later(a, b) <==> a.secs * 0x1_0000_0000 + a.nanos > b.secs * 0x1_0000_0000 + b.nanos,
{
}

/// The minutes that are left are whole ones: that many fit into the time up to
/// the instant, and one more does not.
pub proof fn minutes_left_fit(until: Timestamp, from: Timestamp)
    requires
        until.wf(),
        from.wf(),
        !is_later(from, until),
    ensures
        ({
            let left = (until.secs - from.secs) * 1_000_000_000 + until.nanos - from.nanos;
            minutes_left(until, from) * 60_000_000_000 <= left < (minutes_left(until, from) + 1)
                * 60_000_000_000
        }),
{
}

/// No minutes are left of what has passed.
pub proof fn nothing_left_of_the_past(until: Timestamp, from: Timestamp)
    requires
        is_later(from, until),
    ensures
        minutes_left(until, from) == 0,
{
}

/// The days of the week follow each other: a day later it is the next day, and
/// after Sunday comes Monday.
pub proof fn days_follow_each_other(secs: int)
    ensures
        weekday_of(secs) == Weekday::Mon ==> weekday_of(secs + 86_400) == Weekday::Tue,
        weekday_of(secs) == Weekday::Tue ==> weekday_of(secs + 86_400) == Weekday::Wed,
        weekday_of(secs) == Weekday::Wed ==> weekday_of(secs + 86_400) == Weekday::Thu,
        weekday_of(secs) == Weekday::Thu ==> weekday_of(secs + 86_400) == Weekday::Fri,
        weekday_of(secs) == Weekday::Fri ==> weekday_of(secs + 86_400) == Weekday::Sat,
        weekday_of(secs) == Weekday::Sat ==> weekday_of(secs + 86_400) == Weekday::Sun,
        weekday_of(secs) == Weekday::Sun ==> weekday_of(secs + 86_400) == Weekday::Mon,
{
}

/// It is one day from midnight to midnight, and the count starts on a Thursday.
pub proof fn days_last_from_midnight_to_midnight(day: int, into: int)
    requires
        0 <= into < 86_400,
    ensures
        weekday_of(day * 86_400 + into) == weekday_of(day * 86_400),
        time_of(day * 86_400 + into, 0).secs == into,
        weekday_of(into) == Weekday::Thu,
{
}

/// London clocks show UTC and the offset that holds then: the time of day counts
/// from the last midnight of that clock, and the day is that of the same clock.
pub proof fn london_clocks_run_ahead(t: Timestamp, day: int, into: int)
    requires
        0 <= into < 86_400,
        t.secs + london_offset(t.secs) == day * 86_400 + into,
    ensures
        london_time(t).secs == into,
        london_time(t).nanos == t.nanos,
        london_weekday(t) == weekday_of(day * 86_400),
        london_text(t) == clock_text(into as nat),
{
    days_last_from_midnight_to_midnight(day, into);
}

// ---------------------------------------------------------------------------
// Windows and schedules
// ---------------------------------------------------------------------------

/// A window holds the times from its start on, up to its end and without it. One
/// that ends before it starts holds all but those from its end up to its start.
pub proof fn window_runs_from_start_to_end(w: TimeWindow, t: NaiveTime)
    ensures
        ({
            let at = t.secs * 0x1_0000_0000 + t.nanos;
            let start = w.start.secs * 0x1_0000_0000 + w.start.nanos;
            let end = w.end.secs * 0x1_0000_0000 + w.end.nanos;
            &&& start <= end ==> (in_window(w, t) <==> start <= at < end)
            &&& end < start ==> (in_window(w, t) <==> !(end <= at < start))
        }),
{
}

/// A schedule covers a time on a listed day whenever any of its windows holds the
/// time, at whatever place in the list that window stands.
pub proof fn any_window_will_do(s: ScheduleView, day: Weekday, time: NaiveTime, i: int, k: int)
    requires
        0 <= i < s.days.len(),
        s.days[i] == day,
        0 <= k < s.windows.len(),
        in_window(s.windows[k], time),
    ensures
        s.covers(day, time),
{
}

/// A schedule covers nothing on other days, and nothing outside its windows.
pub proof fn schedule_covers_no_more(s: ScheduleView, day: Weekday, time: NaiveTime)
    requires
        s.covers(day, time),
    ensures
        exists|i: int| 0 <= i < s.days.len() && s.days[i] == day,
        exists|k: int| 0 <= k < s.windows.len() && in_window(s.windows[k], time),
{
    let i = choose|i: int| 0 <= i < s.days.len() && s.days[i] == day;
    let k = choose|k: int| 0 <= k < s.windows.len() && in_window(s.windows[k], time);
    assert(s.days[i] == day);
    assert(in_window(s.windows[k], time));
}

/// The order of days and windows has no bearing, and one more of either never
/// takes away a time that was covered.
pub proof fn more_windows_cover_more(
    s: ScheduleView,
    wider: ScheduleView,
    day: Weekday,
    time: NaiveTime,
)
    requires
        forall|d: Weekday| #[trigger] s.days.contains(d) ==> wider.days.contains(d),
        forall|w: TimeWindow| #[trigger] s.windows.contains(w) ==> wider.windows.contains(w),
        s.covers(day, time),
    ensures
        wider.covers(day, time),
{
    schedule_covers_no_more(s, day, time);
    let i = choose|i: int| 0 <= i < s.days.len() && s.days[i] == day;
    assert(s.days.contains(day));
    let a = choose|a: int| 0 <= a < wider.days.len() && wider.days[a] == day;
    let k = choose|k: int| 0 <= k < s.windows.len() && in_window(s.windows[k], time);
    assert(s.windows.contains(s.windows[k]));
    let b = choose|b: int| 0 <= b < wider.windows.len() && wider.windows[b] == s.windows[k];
    any_window_will_do(wider, day, time, a, b);
}

/// A subscription is always active without a schedule, and with one exactly while
/// that covers the day and the time on London clocks.
pub proof fn schedule_decides_activity(sub: SubscriptionView, now: Timestamp)
    ensures
        sub.schedule is None ==> sub.active_at(now),
        sub.schedule is Some ==> (sub.active_at(now) <==> sub.schedule->0.covers(
            london_weekday(now),
            london_time(now),
        )),
{
}

/// A deadline is reached at the instant itself, not before and ever after.
pub proof fn deadline_is_the_instant(sub: SubscriptionView, now: Timestamp)
    requires
        sub.expires_at is Some,
    ensures
        sub.expired_at(now) <==> now.secs * 0x1_0000_0000 + now.nanos >= sub.expires_at->0.secs
            * 0x1_0000_0000 + sub.expires_at->0.nanos,
{
}

// ---------------------------------------------------------------------------
// What a subscription is for
// ---------------------------------------------------------------------------

/// Without a filter a subscription is for every service from its origin.
pub proof fn no_filter_wants_all(
    sub: SubscriptionView,
    destination_crs: Seq<char>,
    calling_points: Seq<Seq<char>>,
)
    requires
        sub.destination_filter.len() == 0,
    ensures
        sub.wants(sub.origin_crs, destination_crs, calling_points),
{
}

/// A subscription is for every service from its origin that ends at one station of
/// its filter.
pub proof fn wanted_terminus_is_enough(
    sub: SubscriptionView,
    calling_points: Seq<Seq<char>>,
    i: int,
)
    requires
        0 <= i < sub.destination_filter.len(),
    ensures
        sub.wants(sub.origin_crs, sub.destination_filter[i], calling_points),
{
    assert(sub.destination_filter.contains(sub.destination_filter[i]));
}

/// A subscription is for every service from its origin that calls at one station
/// of its filter, at whatever places that station stands in the two lists.
pub proof fn wanted_call_is_enough(
    sub: SubscriptionView,
    destination_crs: Seq<char>,
    calling_points: Seq<Seq<char>>,
    i: int,
    j: int,
)
    requires
        0 <= i < sub.destination_filter.len(),
        0 <= j < calling_points.len(),
        sub.destination_filter[i] == calling_points[j],
    ensures
        sub.wants(sub.origin_crs, destination_crs, calling_points),
{
    assert(calling_points.contains(sub.destination_filter[i]));
}

/// A subscription is for no other service: not from another origin, and with a
/// filter not where neither the terminus nor a call is in the filter.
pub proof fn nothing_else_is_wanted(
    sub: SubscriptionView,
    origin_crs: Seq<char>,
    destination_crs: Seq<char>,
    calling_points: Seq<Seq<char>>,
)
    requires
        sub.wants(origin_crs, destination_crs, calling_points),
    ensures
        origin_crs == sub.origin_crs,
        sub.destination_filter.len() > 0 ==> exists|i: int|
            0 <= i < sub.destination_filter.len() && (#[trigger] sub.destination_filter[i]
                == destination_crs || calling_points.contains(sub.destination_filter[i])),
{
    if sub.destination_filter.len() > 0 {
        if sub.destination_filter.contains(destination_crs) {
            let i = choose|i: int|
                0 <= i < sub.destination_filter.len() && sub.destination_filter[i]
                    == destination_crs;
            assert(sub.destination_filter[i] == destination_crs);
        }
    }
}

/// One more destination in a filter never takes a service away.
pub proof fn wider_filter_wants_more(
    sub: SubscriptionView,
    wider: SubscriptionView,
    origin_crs: Seq<char>,
    destination_crs: Seq<char>,
    calling_points: Seq<Seq<char>>,
)
    requires
        sub.destination_filter.len() > 0,
        wider.origin_crs == sub.origin_crs,
        forall|d: Seq<char>| #[trigger]
            sub.destination_filter.contains(d) ==> wider.destination_filter.contains(d),
        sub.wants(origin_crs, destination_crs, calling_points),
    ensures
        wider.wants(origin_crs, destination_crs, calling_points),
{
    nothing_else_is_wanted(sub, origin_crs, destination_crs, calling_points);
    let i = choose|i: int|
        0 <= i < sub.destination_filter.len() && (#[trigger] sub.destination_filter[i]
            == destination_crs || calling_points.contains(sub.destination_filter[i]));
    let d = sub.destination_filter[i];
    assert(sub.destination_filter.contains(d));
    let k = choose|k: int|
        0 <= k < wider.destination_filter.len() && wider.destination_filter[k] == d;
    if d == destination_crs {
        wanted_terminus_is_enough(wider, calling_points, k);
    } else {
        let j = choose|j: int| 0 <= j < calling_points.len() && calling_points[j] == d;
        wanted_call_is_enough(wider, destination_crs, calling_points, k, j);
    }
}

// ---------------------------------------------------------------------------
// Display IDs
// ---------------------------------------------------------------------------

proof fn lemma_two_digits_shape(n: nat)
    requires
        1 <= n <= 99,
    ensures
        two_digits(n).len() == 2,
        '0' <= two_digits(n)[0] <= '9',
        '0' <= two_digits(n)[1] <= '9',
        (two_digits(n)[0] as int - 48) * 10 + (two_digits(n)[1] as int - 48) == n,
{
    if n >= 10 {
        assert(decimal(n / 10) == seq![digit(n / 10)]);
        assert(decimal(n) == seq![digit(n / 10)].push(digit(n % 10)));
    }
}

/// A new display ID consists of two decimal digits, stands for a number from 1 to
/// 99, and is on the list not yet; the ID of every smaller number is.
pub proof fn new_display_id_is_the_first_gap(subs: Seq<SubscriptionView>, m: nat)
    requires
        next_id(subs) is Some,
    ensures
        ({
            let id = next_id(subs)->0;
            let number = (id[0] as int - 48) * 10 + (id[1] as int - 48);
            &&& id.len() == 2
            &&& '0' <= id[0] <= '9' && '0' <= id[1] <= '9'
            &&& 1 <= number <= 99
            &&& forall|i: int| 0 <= i < subs.len() ==> (#[trigger] subs[i]).display_id != id
            &&& 1 <= m < number ==> exists|i: int|
                0 <= i < subs.len() && (#[trigger] subs[i]).display_id.len() == 2
                    && (subs[i].display_id[0] as int - 48) * 10 + (subs[i].display_id[1] as int
                    - 48) == m
        }),
{
    next_id_is_smallest(subs);
    let id = next_id(subs)->0;
    let n = choose|n: nat|
        {
            &&& 1 <= n <= 99
            &&& id == two_digits(n)
            &&& #[trigger] is_free_number(subs, n)
            &&& forall|m: nat|
                1 <= m < n ==> !#[trigger] is_free_number(subs, m)
        };
    lemma_two_digits_shape(n);
    assert forall|i: int| 0 <= i < subs.len() implies (#[trigger] subs[i]).display_id != id by {
        assert(display_ids(subs)[i] == subs[i].display_id);
    }
    if 1 <= m < n {
        assert(!is_free_number(subs, m));
        lemma_two_digits_shape(m);
        let i = choose|i: int| 0 <= i < display_ids(subs).len() && display_ids(subs)[i] == two_digits(m);
        assert(subs[i].display_id == two_digits(m));
    }
}

/// There is no new display ID only where the ID of every number is taken.
pub proof fn no_display_id_means_all_taken(subs: Seq<SubscriptionView>, m: nat)
    requires
        next_id(subs) is None,
        1 <= m <= 99,
    ensures
        exists|i: int|
            0 <= i < subs.len() && (#[trigger] subs[i]).display_id.len() == 2 && (
            subs[i].display_id[0] as int - 48) * 10 + (subs[i].display_id[1] as int - 48) == m,
{
    next_id_is_smallest(subs);
    assert(!is_free_number(subs, m));
    lemma_two_digits_shape(m);
    let i = choose|i: int| 0 <= i < display_ids(subs).len() && display_ids(subs)[i] == two_digits(m);
    assert(subs[i].display_id == two_digits(m));
}

// ---------------------------------------------------------------------------
// Users
// ---------------------------------------------------------------------------

/// Notifications are paused for good, or up to the end of a timed pause and not
/// at its end; otherwise they are not.
pub proof fn pause_is_what_was_asked_for(user: UserView, now: Timestamp)
    ensures
        user.notifications_paused ==> user.paused_at(now),
        !user.notifications_paused && user.paused_until is None ==> !user.paused_at(now),
        !user.notifications_paused && user.paused_until is Some ==> (user.paused_at(now)
            <==> now.secs * 0x1_0000_0000 + now.nanos < user.paused_until->0.secs * 0x1_0000_0000
            + user.paused_until->0.nanos),
{
}

/// A new user has no subscriptions, no names, and is told of changes.
pub proof fn new_user_starts_empty(key: UserKeyView, created_at: Timestamp, now: Timestamp)
    ensures
        UserView::fresh(key, created_at).key == key,
        UserView::fresh(key, created_at).created_at == created_at,
        UserView::fresh(key, created_at).subscriptions.len() == 0,
        UserView::fresh(key, created_at).telegram_name is None,
        UserView::fresh(key, created_at).telegram_username is None,
        !UserView::fresh(key, created_at).paused_at(now),
{
}

/// A file stem starts with the channel and a hyphen and goes on with one character
/// for each of the ID: letters and digits as they are, `p` for a plus, and an
/// underscore for anything else, so that it is safe in a file name.
pub proof fn file_stem_spells_the_id(key: UserKeyView, i: int)
    requires
        0 <= i < key.channel_user_id.len(),
    ensures
        ({
            let start: int = if key.channel == Channel::Telegram {
                9
            } else {
                7
            };
            let c = key.channel_user_id[i];
            let shown = key.file_stem()[start + i];
            &&& key.file_stem().len() == start + key.channel_user_id.len()
            &&& key.channel == Channel::Telegram ==> key.file_stem().take(9) == "telegram-"@
            &&& key.channel == Channel::Twilio ==> key.file_stem().take(7) == "twilio-"@
            &&& ('a' <= c <= 'z' || 'A' <= c <= 'Z' || '0' <= c <= '9') ==> shown == c
            &&& c == '+' ==> shown == 'p'
            &&& !('a' <= c <= 'z' || 'A' <= c <= 'Z' || '0' <= c <= '9' || c == '+') ==> shown
                == '_'
        }),
{
    reveal_strlit("telegram");
    reveal_strlit("twilio");
    reveal_strlit("telegram-");
    reveal_strlit("twilio-");
    reveal_strlit("-");
    if key.channel == Channel::Telegram {
        assert(key.file_stem().take(9) =~= "telegram-"@);
    } else {
        assert(key.file_stem().take(7) =~= "twilio-"@);
    }
}

} // verus!
