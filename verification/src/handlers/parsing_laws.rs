//! Which days and times a text stands for, and how days are shown.

use crate::clock::{day_number, london_offset, london_text, NaiveTime, Timestamp, Weekday};
use crate::domain::TimeWindow;
use crate::handlers::parsing::{
    abbreviation, abbreviations, day_named, day_read, days_between, days_listed, days_read,
    days_text, range_ends, time_read, window_read, windows_listed, windows_read,
};
use crate::text::{
    digits, digits_value, holds, is_digit, lemma_join_holds, lemma_run_is,
    lemma_trim_nothing, other_than, split, trim,
    two_digits,
};
use crate::text_laws::numbers_are_written_in_digits;
use crate::unicode::lowercase;
use vstd::prelude::*;
use vstd::string::*;

verus! {

/// From one day to another come the days in order, both included and no others.
pub proof fn ranges_hold_the_days_between(from: Weekday, to: Weekday, d: Weekday)
    requires
        day_number(from) <= day_number(to),
    ensures
        ({
            let days = days_between(day_number(from), day_number(to));
            &&& days.contains(d) <==> day_number(from) <= day_number(d) <= day_number(to)
            &&& days.len() == day_number(to) - day_number(from) + 1
            &&& days[0] == from
            &&& days.last() == to
        }),
{
    let days = days_between(day_number(from), day_number(to));
    if day_number(from) <= day_number(d) <= day_number(to) {
        assert(days[day_number(d) - day_number(from)] == d);
    }
}

/// Weekdays are Monday to Friday, weekends Saturday and Sunday, and every day is
/// in the whole week.
pub proof fn groups_hold_their_days(s: Seq<char>, d: Weekday)
    ensures
        lowercase(s) == "weekdays"@ || lowercase(s) == "weekday"@ ==> days_read(s) is Ok && (
        days_read(s)->Ok_0.contains(d) <==> d !is Sat && d !is Sun),
        lowercase(s) == "weekends"@ || lowercase(s) == "weekend"@ ==> days_read(s) is Ok && (
        days_read(s)->Ok_0.contains(d) <==> d is Sat || d is Sun),
        lowercase(s) == "daily"@ || lowercase(s) == "everyday"@ || lowercase(s) == "all"@
            ==> days_read(s) is Ok && days_read(s)->Ok_0.contains(d),
{
    reveal_strlit("weekdays");
    reveal_strlit("weekday");
    reveal_strlit("weekends");
    reveal_strlit("weekend");
    reveal_strlit("daily");
    reveal_strlit("everyday");
    reveal_strlit("all");
    assert("weekdays"@[4] == 'd' && "weekends"@[4] == 'e' && "everyday"@[4] == 'y');
    assert("weekday"@[4] == 'd' && "weekend"@[4] == 'e');
    assert("daily"@.len() == 5 && "all"@.len() == 3 && "everyday"@.len() == 8);
    assert(0 <= day_number(d) <= 6);
    ranges_hold_the_days_between(Weekday::Mon, Weekday::Fri, d);
    ranges_hold_the_days_between(Weekday::Sat, Weekday::Sun, d);
    ranges_hold_the_days_between(Weekday::Mon, Weekday::Sun, d);
    assert(days_between(0, 6).contains(d));
    if lowercase(s) == "daily"@ || lowercase(s) == "everyday"@ || lowercase(s) == "all"@ {
        assert(days_read(s) == Ok::<Seq<Weekday>, Seq<char>>(days_between(0, 6)));
    }
}

/// A word for a group of days.
pub open spec fn names_a_group(word: Seq<char>) -> bool {
    ||| word == "weekdays"@
    ||| word == "weekday"@
    ||| word == "weekends"@
    ||| word == "weekend"@
    ||| word == "daily"@
    ||| word == "everyday"@
    ||| word == "all"@
}

/// A range is read as the days between its two ends, and refused where it runs
/// backwards; the refusal names both ends.
pub proof fn ranges_run_forwards(s: Seq<char>, from: Weekday, to: Weekday)
    requires
        !names_a_group(lowercase(s)),
        range_ends(s) == Some((from, to)),
    ensures
        days_read(s) is Ok <==> day_number(from) <= day_number(to),
        days_read(s) is Ok ==> days_read(s)->Ok_0 == days_between(
            day_number(from),
            day_number(to),
        ),
        days_read(s) is Err ==> holds(days_read(s)->Err_0, abbreviation(from)) && holds(
            days_read(s)->Err_0,
            abbreviation(to),
        ),
{
    if day_number(from) > day_number(to) {
        let a = abbreviation(from);
        let b = abbreviation(to);
        let e = days_read(s)->Err_0;
        let end = " if that's what you meant"@;
        assert(e =~= "Day range "@ + a + (" before "@ + b + " \u{2014} write it as "@ + b + "-"@ + a
            + end));
        assert(e =~= ("Day range "@ + a + " before "@) + b + (" \u{2014} write it as "@ + b + "-"@
            + a + end));
    }
}

/// A list of days is read if and only if each part names a day; the days come out
/// in the order of the parts.
pub proof fn every_day_of_a_list_counts(parts: Seq<Seq<char>>)
    ensures
        days_listed(parts) is Ok <==> forall|i: int|
            0 <= i < parts.len() ==> day_read(trim(#[trigger] parts[i])) is Ok,
        days_listed(parts) is Ok ==> days_listed(parts)->Ok_0.len() == parts.len(),
        days_listed(parts) is Ok ==> forall|i: int|
            0 <= i < parts.len() ==> day_read(trim(#[trigger] parts[i])) == Ok::<Weekday, Seq<char>>(
                days_listed(parts)->Ok_0[i],
            ),
    decreases parts.len(),
{
    if parts.len() > 0 {
        let t = parts.drop_last();
        every_day_of_a_list_counts(t);
        assert forall|i: int| 0 <= i < t.len() implies #[trigger] t[i] == parts[i] by {}
        if days_listed(parts) is Ok {
            assert forall|i: int| 0 <= i < parts.len() implies day_read(trim(#[trigger] parts[i]))
                == Ok::<Weekday, Seq<char>>(days_listed(parts)->Ok_0[i]) by {
                if i < t.len() {
                    assert(t[i] == parts[i]);
                }
            }
        } else if forall|i: int|
            0 <= i < parts.len() ==> day_read(trim(#[trigger] parts[i])) is Ok {
            assert forall|i: int| 0 <= i < t.len() implies day_read(trim(#[trigger] t[i])) is Ok by {
                assert(t[i] == parts[i]);
            }
            assert(day_read(trim(parts[parts.len() - 1])) is Ok);
        }
    }
}

/// The refusal of a list is that of its first part that names no day.
pub proof fn first_wrong_day_is_named(parts: Seq<Seq<char>>, n: int)
    requires
        0 <= n < parts.len(),
        forall|i: int| 0 <= i < n ==> day_read(trim(#[trigger] parts[i])) is Ok,
        day_read(trim(parts[n])) is Err,
    ensures
        days_listed(parts) is Err,
        days_listed(parts)->Err_0 == day_read(trim(parts[n]))->Err_0,
    decreases parts.len(),
{
    let t = parts.drop_last();
    assert forall|i: int| 0 <= i < t.len() implies #[trigger] t[i] == parts[i] by {}
    if n < t.len() {
        first_wrong_day_is_named(t, n);
    } else {
        every_day_of_a_list_counts(t);
    }
}

/// Neither a group nor a range is a list, split at its commas.
pub proof fn other_texts_are_lists_of_days(s: Seq<char>)
    requires
        !names_a_group(lowercase(s)),
        range_ends(s) is None,
    ensures
        days_read(s) == days_listed(split(s, ',')),
{
}

/// Texts that differ in case alone name the same day.
pub proof fn days_are_named_in_any_case(a: Seq<char>, b: Seq<char>)
    requires
        lowercase(a) == lowercase(b),
    ensures
        day_read(a) == day_read(b),
        day_read(a) is Ok <==> day_named(lowercase(a)) is Some,
{
}

/// The days are shown by the name of their group where they make up one, and by
/// their abbreviations, none left out, where they do not.
pub proof fn shown_days_hold_every_day(days: Seq<Weekday>, i: int)
    requires
        0 <= i < days.len(),
    ensures
        !(forall|d: Weekday| #[trigger] days.contains(d)) && !(forall|d: Weekday| #[trigger]
            days.contains(d) <==> d !is Sat && d !is Sun) && !(forall|d: Weekday| #[trigger]
            days.contains(d) <==> d is Sat || d is Sun) ==> holds(
            days_text(days),
            abbreviation(days[i]),
        ),
        (forall|d: Weekday| #[trigger] days.contains(d)) ==> days_text(days) == "daily"@,
        (forall|d: Weekday| #[trigger] days.contains(d) <==> d !is Sat && d !is Sun) ==> days_text(
            days,
        ) == "weekdays"@,
        (forall|d: Weekday| #[trigger] days.contains(d) <==> d is Sat || d is Sun) ==> days_text(
            days,
        ) == "weekends"@,
{
    let parts = abbreviations(days);
    lemma_join_holds(parts, ","@, i);
    assert(parts[i] == abbreviation(days[i]));
    assert(days.contains(Weekday::Mon) || !days.contains(Weekday::Mon));
}

/// The two sides of a window are its two times, the start first.
pub proof fn window_has_two_times(s: Seq<char>, a: Seq<char>, b: Seq<char>)
    requires
        trim(s) == a + seq!['-'] + b,
        !a.contains('-'),
    ensures
        window_read(s) is Ok <==> time_read(a) is Ok && time_read(b) is Ok,
        window_read(s) is Ok ==> window_read(s)->Ok_0.start == time_read(a)->Ok_0 && window_read(
            s,
        )->Ok_0.end == time_read(b)->Ok_0,
        time_read(a) is Err ==> window_read(s)->Err_0 == time_read(a)->Err_0,
        time_read(a) is Ok && time_read(b) is Err ==> window_read(s)->Err_0 == time_read(
            b,
        )->Err_0,
{
    let t = trim(s);
    let n = a.len() as int;
    assert forall|i: int| 0 <= i < n implies other_than('-')(#[trigger] t[i]) by {
        assert(t[i] == a[i]);
        assert(a.contains(a[i]));
    }
    assert(t[n] == '-');
    lemma_run_is(t, other_than('-'), n);
    assert(t.take(n) =~= a);
    assert(t.skip(n + 1) =~= b);
}

/// A text without a dash is no window.
pub proof fn window_needs_a_dash(s: Seq<char>)
    requires
        !trim(s).contains('-'),
    ensures
        window_read(s) is Err,
{
    let t = trim(s);
    assert forall|i: int| 0 <= i < t.len() implies other_than('-')(#[trigger] t[i]) by {
        assert(t.contains(t[i]));
    }
    lemma_run_is(t, other_than('-'), t.len() as int);
}

/// A list of windows is read if and only if each part is a window; the windows come
/// out in the order of the parts. No text names no window.
pub proof fn every_window_of_a_list_counts(parts: Seq<Seq<char>>)
    ensures
        windows_listed(parts) is Ok <==> forall|i: int|
            0 <= i < parts.len() ==> window_read(trim(#[trigger] parts[i])) is Ok,
        windows_listed(parts) is Ok ==> windows_listed(parts)->Ok_0.len() == parts.len(),
        windows_listed(parts) is Ok ==> forall|i: int|
            0 <= i < parts.len() ==> window_read(trim(#[trigger] parts[i])) == Ok::<
                TimeWindow,
                Seq<char>,
            >(windows_listed(parts)->Ok_0[i]),
    decreases parts.len(),
{
    if parts.len() > 0 {
        let t = parts.drop_last();
        every_window_of_a_list_counts(t);
        assert forall|i: int| 0 <= i < t.len() implies #[trigger] t[i] == parts[i] by {}
        if windows_listed(parts) is Ok {
            assert forall|i: int| 0 <= i < parts.len() implies window_read(
                trim(#[trigger] parts[i]),
            ) == Ok::<TimeWindow, Seq<char>>(windows_listed(parts)->Ok_0[i]) by {
                if i < t.len() {
                    assert(t[i] == parts[i]);
                }
            }
        } else if forall|i: int|
            0 <= i < parts.len() ==> window_read(trim(#[trigger] parts[i])) is Ok {
            assert forall|i: int| 0 <= i < t.len() implies window_read(
                trim(#[trigger] t[i]),
            ) is Ok by {
                assert(t[i] == parts[i]);
            }
            assert(window_read(trim(parts[parts.len() - 1])) is Ok);
        }
    }
}

/// A text of windows is split at its commas; an empty one is refused.
pub proof fn windows_are_parted_by_commas(s: Seq<char>)
    ensures
        s.len() > 0 ==> windows_read(s) == windows_listed(split(s, ',')),
        s.len() == 0 ==> windows_read(s) is Err,
{
}

/// A time of two numbers with a colon in between is read as that hour and that
/// minute, and refused where there is no such time of day.
pub proof fn times_are_hours_and_minutes(h: Seq<char>, m: Seq<char>)
    requires
        1 <= h.len() <= 2,
        1 <= m.len() <= 2,
        forall|i: int| 0 <= i < h.len() ==> is_digit(#[trigger] h[i]),
        forall|i: int| 0 <= i < m.len() ==> is_digit(#[trigger] m[i]),
    ensures
        ({
            let s = h + seq![':'] + m;
            let hour = digits_value(h);
            let minute = digits_value(m);
            &&& time_read(s) is Ok <==> hour <= 23 && minute <= 59
            &&& time_read(s) is Ok ==> time_read(s)->Ok_0 == (NaiveTime {
                secs: (hour * 3600 + minute * 60) as u32,
                nanos: 0,
            })
        }),
{
    let s = h + seq![':'] + m;
    let a = h.len() as int;
    assert(s[0] == h[0]);
    assert(s.last() == m[m.len() - 1]);
    lemma_trim_nothing(s);
    assert forall|i: int| 0 <= i < a implies digits()(#[trigger] s[i]) by {
        assert(s[i] == h[i]);
    }
    assert(s[a] == ':');
    lemma_run_is(s, digits(), a);
    assert(s.take(a) =~= h);
    let rest = s.skip(a);
    assert(rest.skip(1) =~= m);
    assert(is_digit(m[0]));
    lemma_trim_nothing(m);
    assert forall|i: int| 0 <= i < m.len() implies digits()(#[trigger] m[i]) by {}
    lemma_run_is(m, digits(), m.len() as int);
    assert(m.take(m.len() as int) =~= m);
}

/// The time that is shown for an instant is what London clocks show: read again it
/// is the minute in which the instant falls there.
pub proof fn instants_are_shown_in_london_time(t: Timestamp)
    ensures
        time_read(london_text(t)) is Ok,
        time_read(london_text(t))->Ok_0.secs == (t.secs + london_offset(t.secs)) % 86_400 / 60 * 60,
        time_read(london_text(t))->Ok_0.nanos == 0,
{
    let secs = ((t.secs + london_offset(t.secs)) % 86_400) as nat;
    let h = secs / 3600;
    let m = secs / 60 % 60;
    numbers_are_written_in_digits(h);
    numbers_are_written_in_digits(m);
    times_are_hours_and_minutes(two_digits(h), two_digits(m));
}

} // verus!
