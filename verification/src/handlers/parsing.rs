//! Days and time windows as users write them.

use crate::clock::{
    clock_reading, clock_text, day_number, hour_minute_text, read_hour_minute, weekday_at,
    weekday_from_number, NaiveTime, Weekday,
};
use crate::domain::subscription::windows_wf;
use crate::domain::TimeWindow;
use crate::markup::{esc, escaped};
use crate::text::{
    all_ascii, ascii_lower, chars, decimal, digit, digits, digits_value, find_char, is_ascii_char,
    is_digit, join, join_all, lemma_run_is, lemma_trim_nothing, other_than, same, split,
    split_at_each, split_undoes_join, text_of, texts, trim, trimmed, two_digits,
};
use crate::unicode::{ascii_lowercase, lowercase, to_lower};
use vstd::prelude::*;
use vstd::string::*;

verus! {

// ---------------------------------------------------------------------------
// Days
// ---------------------------------------------------------------------------

pub open spec fn abbreviation(d: Weekday) -> Seq<char> {
    match d {
        Weekday::Mon => "Mon"@,
        Weekday::Tue => "Tue"@,
        Weekday::Wed => "Wed"@,
        Weekday::Thu => "Thu"@,
        Weekday::Fri => "Fri"@,
        Weekday::Sat => "Sat"@,
        Weekday::Sun => "Sun"@,
    }
}

pub fn day_abbr(d: Weekday) -> (r: &'static str)
    ensures
        r@ == abbreviation(d),
{
    match d {
        Weekday::Mon => "Mon",
        Weekday::Tue => "Tue",
        Weekday::Wed => "Wed",
        Weekday::Thu => "Thu",
        Weekday::Fri => "Fri",
        Weekday::Sat => "Sat",
        Weekday::Sun => "Sun",
    }
}

pub fn day_index(d: Weekday) -> (r: u32)
    ensures
        r == day_number(d),
        r < 7,
{
    match d {
        Weekday::Mon => 0,
        Weekday::Tue => 1,
        Weekday::Wed => 2,
        Weekday::Thu => 3,
        Weekday::Fri => 4,
        Weekday::Sat => 5,
        Weekday::Sun => 6,
    }
}

/// The day that a lowercase word names.
pub open spec fn day_named(word: Seq<char>) -> Option<Weekday> {
    if word == "mon"@ || word == "monday"@ {
        Some(Weekday::Mon)
    } else if word == "tue"@ || word == "tuesday"@ {
        Some(Weekday::Tue)
    } else if word == "wed"@ || word == "wednesday"@ {
        Some(Weekday::Wed)
    } else if word == "thu"@ || word == "thursday"@ {
        Some(Weekday::Thu)
    } else if word == "fri"@ || word == "friday"@ {
        Some(Weekday::Fri)
    } else if word == "sat"@ || word == "saturday"@ {
        Some(Weekday::Sat)
    } else if word == "sun"@ || word == "sunday"@ {
        Some(Weekday::Sun)
    } else {
        None
    }
}

/// The day that a text names in any case, or what is wrong with it.
pub open spec fn day_read(s: Seq<char>) -> Result<Weekday, Seq<char>> {
    match day_named(lowercase(s)) {
        Some(d) => Ok(d),
        None => Err(
            "Unknown day \""@ + escaped(lowercase(s)) + "\" \u{2014} use Mon/Tue/\u{2026}/Sun"@,
        ),
    }
}

pub open spec fn result_view<T>(r: Result<T, String>) -> Result<T, Seq<char>> {
    match r {
        Ok(t) => Ok(t),
        Err(e) => Err(e@),
    }
}

pub open spec fn list_view<T>(r: Result<Vec<T>, String>) -> Result<Seq<T>, Seq<char>> {
    match r {
        Ok(v) => Ok(v@),
        Err(e) => Err(e@),
    }
}

/// Parse the name of a day, in full or abbreviated. A day that is shown by
/// its abbreviation reads back as the day.
pub fn parse_day(s: &str) -> (r: Result<Weekday, String>)
    ensures
        result_view(r) == day_read(s@),
        forall|d: Weekday| s@ == #[trigger] abbreviation(d) ==> r == Ok::<Weekday, String>(d),
{
    let word = to_lower(s);
    let w = word.as_str();
    proof {
        lemma_abbreviations_are_names(s@, w@);
    }
    if same(w, "mon") || same(w, "monday") {
        Ok(Weekday::Mon)
    } else if same(w, "tue") || same(w, "tuesday") {
        Ok(Weekday::Tue)
    } else if same(w, "wed") || same(w, "wednesday") {
        Ok(Weekday::Wed)
    } else if same(w, "thu") || same(w, "thursday") {
        Ok(Weekday::Thu)
    } else if same(w, "fri") || same(w, "friday") {
        Ok(Weekday::Fri)
    } else if same(w, "sat") || same(w, "saturday") {
        Ok(Weekday::Sat)
    } else if same(w, "sun") || same(w, "sunday") {
        Ok(Weekday::Sun)
    } else {
        let mut msg = "Unknown day \"".to_string();
        msg.append(esc(w).as_str());
        msg.append("\" \u{2014} use Mon/Tue/\u{2026}/Sun");
        Err(msg)
    }
}

/// The days from one number to another, both included.
pub open spec fn days_between(from: int, to: int) -> Seq<Weekday> {
    Seq::new((to - from + 1) as nat, |i: int| weekday_at(from + i))
}

/// Each part names a day; the first part that does not says what is wrong.
pub open spec fn days_listed(parts: Seq<Seq<char>>) -> Result<Seq<Weekday>, Seq<char>>
    decreases parts.len(),
{
    if parts.len() == 0 {
        Ok(Seq::empty())
    } else {
        match days_listed(parts.drop_last()) {
            Err(e) => Err(e),
            Ok(days) => match day_read(trim(parts.last())) {
                Err(e) => Err(e),
                Ok(d) => Ok(days.push(d)),
            },
        }
    }
}

/// The two sides of the first `c`, where there is one.
pub open spec fn split_once(s: Seq<char>, c: char) -> Option<(Seq<char>, Seq<char>)> {
    let n = find_char(s, c);
    if n >= s.len() {
        None
    } else {
        Some((s.take(n), s.skip(n + 1)))
    }
}

/// The days of a range such as `mon-fri`, where both sides name a day.
pub open spec fn range_ends(s: Seq<char>) -> Option<(Weekday, Weekday)> {
    match split_once(s, '-') {
        None => None,
        Some((a, b)) => match (day_read(trim(a)), day_read(trim(b))) {
            (Ok(from), Ok(to)) => Some((from, to)),
            _ => None,
        },
    }
}

/// The days that a text names, or what is wrong with it.
pub open spec fn days_read(s: Seq<char>) -> Result<Seq<Weekday>, Seq<char>> {
    let word = lowercase(s);
    if word == "weekdays"@ || word == "weekday"@ {
        Ok(days_between(0, 4))
    } else if word == "weekends"@ || word == "weekend"@ {
        Ok(days_between(5, 6))
    } else if word == "daily"@ || word == "everyday"@ || word == "all"@ {
        Ok(days_between(0, 6))
    } else {
        match range_ends(s) {
            Some((from, to)) => if day_number(from) <= day_number(to) {
                Ok(days_between(day_number(from), day_number(to)))
            } else {
                Err(
                    "Day range "@ + abbreviation(from) + " before "@ + abbreviation(to)
                        + " \u{2014} write it as "@ + abbreviation(to) + "-"@ + abbreviation(from)
                        + " if that's what you meant"@,
                )
            },
            None => days_listed(split(s, ',')),
        }
    }
}

fn day_span(from: u32, to: u32) -> (r: Vec<Weekday>)
    requires
        from <= to < 7,
    ensures
        r@ == days_between(from as int, to as int),
{
    let ghost all = days_between(from as int, to as int);
    let mut out: Vec<Weekday> = Vec::new();
    let mut d: u32 = from;
    while d <= to
        invariant
            from <= d <= to + 1,
            to < 7,
            all == days_between(from as int, to as int),
            out@ == all.take(d - from),
        decreases to + 1 - d,
    {
        out.push(weekday_from_number(d));
        assert(all.take(d + 1 - from) =~= all.take(d - from).push(all[d - from]));
        d += 1;
    }
    assert(all.take(d - from) =~= all);
    out
}

/// The two sides of the first `c`, where there is one.
pub fn cut_at(s: &str, c: char) -> (r: Option<(String, String)>)
    ensures
        match r {
            Some(sides) => split_once(s@, c) == Some((sides.0@, sides.1@)),
            None => split_once(s@, c) is None,
        },
{
    let v = chars(s);
    let mut n: usize = 0;
    while n < v.len() && v[n] != c
        invariant
            n <= v@.len(),
            forall|j: int| 0 <= j < n ==> #[trigger] v@[j] != c,
        decreases v.len() - n,
    {
        n += 1;
    }
    proof {
        lemma_run_is(s@, other_than(c), n as int);
    }
    if n >= v.len() {
        return None;
    }
    let a = text_of(&v, 0, n);
    let b = text_of(&v, n + 1, v.len());
    assert(a@ =~= s@.take(n as int));
    assert(b@ =~= s@.skip(n + 1));
    Some((a, b))
}

fn range_of(s: &str) -> (r: Option<(Weekday, Weekday)>)
    ensures
        r == range_ends(s@),
{
    match cut_at(s, '-') {
        None => None,
        Some(sides) => {
            let from = parse_day(trimmed(sides.0.as_str()).as_str());
            let to = parse_day(trimmed(sides.1.as_str()).as_str());
            match (from, to) {
                (Ok(f), Ok(t)) => Some((f, t)),
                _ => None,
            }
        },
    }
}

/// Parse a days string into a list of weekdays.
/// Accepts: `weekdays`, `weekends`, `daily`, `Mon-Fri`, `Mon,Wed,Fri`, `Mon`.
///
/// Days that are shown read back: as the same set of days, and where they
/// were shown one by one as the same list.
pub fn parse_days(s: &str) -> (r: Result<Vec<Weekday>, String>)
    ensures
        list_view(r) == days_read(s@),
        forall|days: Seq<Weekday>|
            days.len() > 0 && s@ == #[trigger] days_text(days) ==> {
                &&& r is Ok
                &&& same_days(r->Ok_0@, days)
                &&& !is_grouped(days) ==> r->Ok_0@ == days
            },
{
    let word = to_lower(s);
    let w = word.as_str();
    proof {
        lemma_shown_days(s@, w@);
        lemma_spans();
    }
    if same(w, "weekdays") || same(w, "weekday") {
        return Ok(day_span(0, 4));
    }
    if same(w, "weekends") || same(w, "weekend") {
        return Ok(day_span(5, 6));
    }
    if same(w, "daily") || same(w, "everyday") || same(w, "all") {
        return Ok(day_span(0, 6));
    }
    // Range: Mon-Fri
    if let Some((from, to)) = range_of(s) {
        let fi = day_index(from);
        let ti = day_index(to);
        if fi <= ti {
            return Ok(day_span(fi, ti));
        }
        let mut msg = "Day range ".to_string();
        msg.append(day_abbr(from));
        msg.append(" before ");
        msg.append(day_abbr(to));
        msg.append(" \u{2014} write it as ");
        msg.append(day_abbr(to));
        msg.append("-");
        msg.append(day_abbr(from));
        msg.append(" if that's what you meant");
        return Err(msg);
    }
    // Comma list: Mon,Wed,Fri
    let parts = split_at_each(s, ',');
    let ghost all = texts(parts@);
    let mut out: Vec<Weekday> = Vec::new();
    let mut i: usize = 0;
    assert(all.take(0) =~= Seq::<Seq<char>>::empty());
    assert(out@ =~= Seq::<Weekday>::empty());
    while i < parts.len()
        invariant
            0 <= i <= parts@.len(),
            all == texts(parts@),
            all == split(s@, ','),
            days_listed(all.take(i as int)) == Ok::<Seq<Weekday>, Seq<char>>(out@),
            days_read(s@) == days_listed(all),
            forall|days: Seq<Weekday>|
                days.len() > 0 && s@ == #[trigger] days_text(days) ==> {
                    &&& all == abbreviations(days)
                    &&& out@ == days.take(i as int)
                },
        decreases parts.len() - i,
    {
        assert(all.take(i + 1).drop_last() =~= all.take(i as int));
        assert forall|days: Seq<Weekday>|
            days.len() > 0 && s@ == #[trigger] days_text(days) implies trim(all[i as int])
            == abbreviation(days[i as int]) by {
            lemma_abbreviation(days[i as int]);
        }
        match parse_day(trimmed(parts[i].as_str()).as_str()) {
            Ok(d) => {
                out.push(d);
                assert forall|days: Seq<Weekday>|
                    days.len() > 0 && s@ == #[trigger] days_text(days) implies out@ == days.take(
                    i + 1,
                ) by {
                    assert(days.take(i + 1) =~= days.take(i as int).push(days[i as int]));
                }
            },
            Err(e) => {
                proof {
                    lemma_days_error_stays(all, i + 1);
                }
                return Err(e);
            },
        }
        i += 1;
    }
    assert(all.take(i as int) =~= all);
    assert forall|days: Seq<Weekday>|
        days.len() > 0 && s@ == #[trigger] days_text(days) implies out@ == days by {
        assert(days.take(i as int) =~= days);
    }
    Ok(out)
}

/// Two lists name the same days.
pub open spec fn same_days(a: Seq<Weekday>, b: Seq<Weekday>) -> bool {
    forall|d: Weekday| #[trigger] a.contains(d) <==> b.contains(d)
}

/// The characters of the abbreviations.
proof fn lemma_abbreviation(d: Weekday)
    ensures
        ({
            let s = abbreviation(d);
            &&& s.len() == 3
            &&& all_ascii(s)
            &&& !s.contains(',')
            &&& !s.contains('-')
            &&& s[0] == 'M' || s[0] == 'T' || s[0] == 'W' || s[0] == 'F' || s[0] == 'S'
            &&& trim(s) == s
        }),
{
    reveal_strlit("Mon");
    reveal_strlit("Tue");
    reveal_strlit("Wed");
    reveal_strlit("Thu");
    reveal_strlit("Fri");
    reveal_strlit("Sat");
    reveal_strlit("Sun");
    lemma_trim_nothing(abbreviation(d));
}

/// An abbreviation in lower case names its day.
proof fn lemma_abbreviations_are_names(s: Seq<char>, word: Seq<char>)
    requires
        all_ascii(s) ==> word == ascii_lowercase(s),
    ensures
        forall|d: Weekday| s == #[trigger] abbreviation(d) ==> day_named(word) == Some(d),
{
    assert forall|d: Weekday| s == #[trigger] abbreviation(d) implies day_named(word) == Some(d) by {
        lemma_abbreviation(d);
        reveal_strlit("Mon");
        reveal_strlit("Tue");
        reveal_strlit("Wed");
        reveal_strlit("Thu");
        reveal_strlit("Fri");
        reveal_strlit("Sat");
        reveal_strlit("Sun");
        reveal_strlit("mon");
        reveal_strlit("tue");
        reveal_strlit("wed");
        reveal_strlit("thu");
        reveal_strlit("fri");
        reveal_strlit("sat");
        reveal_strlit("sun");
        reveal_strlit("monday");
        reveal_strlit("tuesday");
        reveal_strlit("wednesday");
        reveal_strlit("thursday");
        reveal_strlit("friday");
        reveal_strlit("saturday");
        assert("mon"@[0] == 'm' && "wed"@[0] == 'w' && "fri"@[0] == 'f');
        assert("tue"@[0] == 't' && "tue"@[1] == 'u' && "thu"@[0] == 't' && "thu"@[1] == 'h');
        assert("sat"@[0] == 's' && "sat"@[1] == 'a' && "sun"@[0] == 's' && "sun"@[1] == 'u');
        match d {
            Weekday::Mon => assert(word =~= "mon"@),
            Weekday::Tue => assert(word =~= "tue"@),
            Weekday::Wed => assert(word =~= "wed"@),
            Weekday::Thu => assert(word =~= "thu"@),
            Weekday::Fri => assert(word =~= "fri"@),
            Weekday::Sat => assert(word =~= "sat"@),
            Weekday::Sun => assert(word =~= "sun"@),
        }
    }
}

/// Which days the groups hold.
proof fn lemma_spans()
    ensures
        forall|d: Weekday| #[trigger]
            days_between(0, 4).contains(d) <==> d != Weekday::Sat && d != Weekday::Sun,
        forall|d: Weekday| #[trigger]
            days_between(5, 6).contains(d) <==> d == Weekday::Sat || d == Weekday::Sun,
        forall|d: Weekday| #[trigger] days_between(0, 6).contains(d),
{
    assert forall|d: Weekday| d != Weekday::Sat && d != Weekday::Sun implies #[trigger] days_between(
        0,
        4,
    ).contains(d) by {
        assert(days_between(0, 4)[day_number(d)] == d);
    }
    assert forall|d: Weekday| d == Weekday::Sat || d == Weekday::Sun implies #[trigger] days_between(
        5,
        6,
    ).contains(d) by {
        assert(days_between(5, 6)[day_number(d) - 5] == d);
    }
    assert forall|d: Weekday| #[trigger] days_between(0, 6).contains(d) by {
        assert(days_between(0, 6)[day_number(d)] == d);
    }
}

/// The shape of days that are shown one by one.
proof fn lemma_list_text(days: Seq<Weekday>)
    requires
        days.len() > 0,
    ensures
        ({
            let s = join(abbreviations(days), ","@);
            &&& s.len() == 4 * days.len() - 1
            &&& all_ascii(s)
            &&& forall|i: int| 0 <= i < s.len() ==> #[trigger] s[i] != '-'
            &&& s[0] == 'M' || s[0] == 'T' || s[0] == 'W' || s[0] == 'F' || s[0] == 'S'
            &&& days.len() > 1 ==> s[3] == ','
        }),
    decreases days.len(),
{
    let names = abbreviations(days);
    let s = join(names, ","@);
    let last = abbreviation(days.last());
    reveal_strlit(",");
    lemma_abbreviation(days.last());
    assert forall|i: int| 0 <= i < 3 implies #[trigger] last[i] != '-' by {
        assert(last.contains(last[i]));
    }
    if days.len() > 1 {
        let front = days.drop_last();
        assert(names.drop_last() =~= abbreviations(front));
        lemma_list_text(front);
        let t = join(abbreviations(front), ","@);
        let n = t.len() as int;
        assert(s == t + ","@ + last);
        assert forall|i: int| 0 <= i < s.len() implies is_ascii_char(#[trigger] s[i]) && s[i]
            != '-' by {
            if i < n {
                assert(s[i] == t[i]);
            } else if i > n {
                assert(s[i] == last[i - n - 1]);
            }
        }
    } else {
        assert(s == last);
    }
}

/// Days that are shown are found again: by the name of their group, or one by one
/// between the commas.
proof fn lemma_shown_days(s: Seq<char>, word: Seq<char>)
    requires
        all_ascii(s) ==> word == ascii_lowercase(s),
    ensures
        forall|days: Seq<Weekday>|
            days.len() > 0 && s == #[trigger] days_text(days) ==> {
                &&& word == "weekdays"@ || word == "weekday"@ <==> is_work_week(days)
                &&& word == "weekends"@ || word == "weekend"@ <==> is_weekend(days)
                &&& word == "daily"@ || word == "everyday"@ || word == "all"@ <==> is_whole_week(
                    days,
                )
                &&& !is_grouped(days) ==> split_once(s, '-') is None && split(s, ',')
                    == abbreviations(days)
            },
{
    reveal_strlit("weekdays");
    reveal_strlit("weekday");
    reveal_strlit("weekends");
    reveal_strlit("weekend");
    reveal_strlit("daily");
    reveal_strlit("everyday");
    reveal_strlit("all");
    assert forall|days: Seq<Weekday>| days.len() > 0 && s == #[trigger] days_text(days) implies {
        &&& word == "weekdays"@ || word == "weekday"@ <==> is_work_week(days)
        &&& word == "weekends"@ || word == "weekend"@ <==> is_weekend(days)
        &&& word == "daily"@ || word == "everyday"@ || word == "all"@ <==> is_whole_week(days)
        &&& !is_grouped(days) ==> split_once(s, '-') is None && split(s, ',') == abbreviations(days)
    } by {
        if is_grouped(days) {
            assert(all_ascii(s));
            assert(word =~= s);
            assert(word[0] == s[0] && word.len() == s.len());
            assert("weekdays"@[4] == 'd' && "weekends"@[4] == 'e' && "everyday"@[4] == 'y');
        } else {
            let parts = abbreviations(days);
            lemma_list_text(days);
            assert(word.len() == s.len());
            assert(word[0] == ascii_lower(s[0]));
            if days.len() > 1 {
                assert(word[3] == ',');
            }
            assert("weekday"@[3] == 'k' && "weekend"@[3] == 'k' && "all"@[0] == 'a');
            assert forall|i: int| 0 <= i < s.len() implies other_than('-')(#[trigger] s[i]) by {}
            lemma_run_is(s, other_than('-'), s.len() as int);
            reveal_strlit(",");
            assert(","@ =~= seq![',']);
            assert forall|i: int| 0 <= i < parts.len() implies !(#[trigger] parts[i]).contains(
                ',',
            ) by {
                lemma_abbreviation(days[i]);
            }
            split_undoes_join(parts, ',');
        }
    }
}

proof fn lemma_days_error_stays(parts: Seq<Seq<char>>, n: int)
    requires
        0 <= n <= parts.len(),
        days_listed(parts.take(n)) is Err,
    ensures
        days_listed(parts) == days_listed(parts.take(n)),
    decreases parts.len() - n,
{
    if n < parts.len() {
        assert(parts.take(n + 1).drop_last() =~= parts.take(n));
        lemma_days_error_stays(parts, n + 1);
    } else {
        assert(parts.take(n) =~= parts);
    }
}

// ---------------------------------------------------------------------------
// Windows
// ---------------------------------------------------------------------------

/// The time of day that a text such as `07:30` names, or what is wrong with it.
pub open spec fn time_read(s: Seq<char>) -> Result<NaiveTime, Seq<char>> {
    match clock_reading(trim(s)) {
        Some((hour, minute)) => Ok(
            NaiveTime { secs: (hour * 3600 + minute * 60) as u32, nanos: 0 },
        ),
        None => Err("Invalid time \""@ + escaped(trim(s)) + "\" \u{2014} expected HH:MM"@),
    }
}

pub fn parse_time(s: &str) -> (r: Result<NaiveTime, String>)
    ensures
        result_view(r) == time_read(s@),
        r is Ok ==> r->Ok_0.wf(),
{
    let t = trimmed(s);
    match read_hour_minute(t.as_str()) {
        Some(hm) => Ok(NaiveTime { secs: hm.0 * 3600 + hm.1 * 60, nanos: 0 }),
        None => {
            let mut msg = "Invalid time \"".to_string();
            msg.append(esc(t.as_str()).as_str());
            msg.append("\" \u{2014} expected HH:MM");
            Err(msg)
        },
    }
}

/// The window that a text such as `07:30-09:00` names, or what is wrong with it.
pub open spec fn window_read(s: Seq<char>) -> Result<TimeWindow, Seq<char>> {
    let t = trim(s);
    match split_once(t, '-') {
        None => Err("Invalid window \""@ + escaped(t) + "\" \u{2014} expected HH:MM-HH:MM"@),
        Some((a, b)) => match time_read(a) {
            Err(e) => Err(e),
            Ok(start) => match time_read(b) {
                Err(e) => Err(e),
                Ok(end) => Ok(TimeWindow { start, end }),
            },
        },
    }
}

/// Parse a single `HH:MM-HH:MM` window.
pub fn parse_window(s: &str) -> (r: Result<TimeWindow, String>)
    ensures
        result_view(r) == window_read(s@),
        r is Ok ==> r->Ok_0.wf(),
{
    let t = trimmed(s);
    match cut_at(t.as_str(), '-') {
        None => {
            let mut msg = "Invalid window \"".to_string();
            msg.append(esc(t.as_str()).as_str());
            msg.append("\" \u{2014} expected HH:MM-HH:MM");
            Err(msg)
        },
        Some(sides) => match parse_time(sides.0.as_str()) {
            Err(e) => Err(e),
            Ok(start) => match parse_time(sides.1.as_str()) {
                Err(e) => Err(e),
                Ok(end) => Ok(TimeWindow::new(start, end)),
            },
        },
    }
}

/// Each part names a window; the first part that does not says what is wrong.
pub open spec fn windows_listed(parts: Seq<Seq<char>>) -> Result<Seq<TimeWindow>, Seq<char>>
    decreases parts.len(),
{
    if parts.len() == 0 {
        Ok(Seq::empty())
    } else {
        match windows_listed(parts.drop_last()) {
            Err(e) => Err(e),
            Ok(windows) => match window_read(trim(parts.last())) {
                Err(e) => Err(e),
                Ok(w) => Ok(windows.push(w)),
            },
        }
    }
}

/// The windows that a text names, or what is wrong with it.
pub open spec fn windows_read(s: Seq<char>) -> Result<Seq<TimeWindow>, Seq<char>> {
    if s.len() == 0 {
        Err("No time window specified \u{2014} expected HH:MM-HH:MM"@)
    } else {
        windows_listed(split(s, ','))
    }
}

proof fn lemma_windows_error_stays(parts: Seq<Seq<char>>, n: int)
    requires
        0 <= n <= parts.len(),
        windows_listed(parts.take(n)) is Err,
    ensures
        windows_listed(parts) == windows_listed(parts.take(n)),
    decreases parts.len() - n,
{
    if n < parts.len() {
        assert(parts.take(n + 1).drop_last() =~= parts.take(n));
        lemma_windows_error_stays(parts, n + 1);
    } else {
        assert(parts.take(n) =~= parts);
    }
}

/// Parse comma-separated time windows.
pub fn parse_windows(s: &str) -> (r: Result<Vec<TimeWindow>, String>)
    ensures
        list_view(r) == windows_read(s@),
        r is Ok ==> windows_wf(r->Ok_0@),
{
    if s.is_empty() {
        return Err("No time window specified \u{2014} expected HH:MM-HH:MM".to_string());
    }
    let parts = split_at_each(s, ',');
    let ghost all = texts(parts@);
    let mut out: Vec<TimeWindow> = Vec::new();
    let mut i: usize = 0;
    assert(all.take(0) =~= Seq::<Seq<char>>::empty());
    assert(out@ =~= Seq::<TimeWindow>::empty());
    while i < parts.len()
        invariant
            0 <= i <= parts@.len(),
            all == texts(parts@),
            windows_listed(all.take(i as int)) == Ok::<Seq<TimeWindow>, Seq<char>>(out@),
            windows_read(s@) == windows_listed(all),
            windows_wf(out@),
        decreases parts.len() - i,
    {
        assert(all.take(i + 1).drop_last() =~= all.take(i as int));
        match parse_window(trimmed(parts[i].as_str()).as_str()) {
            Ok(w) => {
                out.push(w);
            },
            Err(e) => {
                proof {
                    lemma_windows_error_stays(all, i + 1);
                }
                return Err(e);
            },
        }
        i += 1;
    }
    assert(all.take(i as int) =~= all);
    Ok(out)
}

// ---------------------------------------------------------------------------
// Display
// ---------------------------------------------------------------------------

pub open spec fn has_weekdays(days: Seq<Weekday>) -> bool {
    &&& days.contains(Weekday::Mon)
    &&& days.contains(Weekday::Tue)
    &&& days.contains(Weekday::Wed)
    &&& days.contains(Weekday::Thu)
    &&& days.contains(Weekday::Fri)
}

pub open spec fn has_a_weekday(days: Seq<Weekday>) -> bool {
    ||| days.contains(Weekday::Mon)
    ||| days.contains(Weekday::Tue)
    ||| days.contains(Weekday::Wed)
    ||| days.contains(Weekday::Thu)
    ||| days.contains(Weekday::Fri)
}

pub open spec fn abbreviations(days: Seq<Weekday>) -> Seq<Seq<char>> {
    Seq::new(days.len(), |i: int| abbreviation(days[i]))
}

/// The days are all seven.
pub open spec fn is_whole_week(days: Seq<Weekday>) -> bool {
    has_weekdays(days) && days.contains(Weekday::Sat) && days.contains(Weekday::Sun)
}

/// The days are Monday to Friday.
pub open spec fn is_work_week(days: Seq<Weekday>) -> bool {
    has_weekdays(days) && !days.contains(Weekday::Sat) && !days.contains(Weekday::Sun)
}

/// The days are Saturday and Sunday.
pub open spec fn is_weekend(days: Seq<Weekday>) -> bool {
    days.contains(Weekday::Sat) && days.contains(Weekday::Sun) && !has_a_weekday(days)
}

/// The days make up a group that has a name.
pub open spec fn is_grouped(days: Seq<Weekday>) -> bool {
    is_whole_week(days) || is_work_week(days) || is_weekend(days)
}

/// How the days are shown: by the name of the group, or one by one.
pub open spec fn days_text(days: Seq<Weekday>) -> Seq<char> {
    if is_whole_week(days) {
        "daily"@
    } else if is_work_week(days) {
        "weekdays"@
    } else if is_weekend(days) {
        "weekends"@
    } else {
        join(abbreviations(days), ","@)
    }
}

fn has_day(days: &Vec<Weekday>, d: Weekday) -> (r: bool)
    ensures
        r == days@.contains(d),
{
    let mut i: usize = 0;
    while i < days.len()
        invariant
            0 <= i <= days@.len(),
            forall|j: int| 0 <= j < i ==> #[trigger] days@[j] != d,
        decreases days.len() - i,
    {
        if days[i] == d {
            return true;
        }
        i += 1;
    }
    false
}

pub fn format_days(days: &Vec<Weekday>) -> (r: String)
    ensures
        r@ == days_text(days@),
{
    let mon = has_day(days, Weekday::Mon);
    let tue = has_day(days, Weekday::Tue);
    let wed = has_day(days, Weekday::Wed);
    let thu = has_day(days, Weekday::Thu);
    let fri = has_day(days, Weekday::Fri);
    let sat = has_day(days, Weekday::Sat);
    let sun = has_day(days, Weekday::Sun);
    let all_week = mon && tue && wed && thu && fri;
    if all_week && sat && sun {
        return "daily".to_string();
    }
    if all_week && !sat && !sun {
        return "weekdays".to_string();
    }
    if sat && sun && !(mon || tue || wed || thu || fri) {
        return "weekends".to_string();
    }
    let ghost names = abbreviations(days@);
    let mut out: Vec<String> = Vec::new();
    let mut i: usize = 0;
    while i < days.len()
        invariant
            0 <= i <= days@.len(),
            names == abbreviations(days@),
            texts(out@) == names.take(i as int),
        decreases days.len() - i,
    {
        let ghost before = texts(out@);
        out.push(day_abbr(days[i]).to_string());
        assert(texts(out@) =~= before.push(names[i as int]));
        assert(names.take(i + 1) =~= names.take(i as int).push(names[i as int]));
        i += 1;
    }
    assert(names.take(i as int) =~= names);
    join_all(&out, ",")
}

pub open spec fn window_text(w: TimeWindow) -> Seq<char> {
    clock_text(w.start.secs as nat) + "-"@ + clock_text(w.end.secs as nat)
}

pub open spec fn window_texts(windows: Seq<TimeWindow>) -> Seq<Seq<char>> {
    Seq::new(windows.len(), |i: int| window_text(windows[i]))
}

/// How the windows are shown.
pub open spec fn windows_text(windows: Seq<TimeWindow>) -> Seq<char> {
    join(window_texts(windows), ","@)
}

pub fn format_windows(windows: &Vec<TimeWindow>) -> (r: String)
    requires
        windows_wf(windows@),
    ensures
        r@ == windows_text(windows@),
{
    let ghost lines = window_texts(windows@);
    let mut out: Vec<String> = Vec::new();
    let mut i: usize = 0;
    while i < windows.len()
        invariant
            0 <= i <= windows@.len(),
            windows_wf(windows@),
            lines == window_texts(windows@),
            texts(out@) == lines.take(i as int),
        decreases windows.len() - i,
    {
        let ghost before = texts(out@);
        let w = windows[i];
        let mut line = hour_minute_text(w.start.secs);
        line.append("-");
        line.append(hour_minute_text(w.end.secs).as_str());
        out.push(line);
        assert(texts(out@) =~= before.push(lines[i as int]));
        assert(lines.take(i + 1) =~= lines.take(i as int).push(lines[i as int]));
        i += 1;
    }
    assert(lines.take(i as int) =~= lines);
    join_all(&out, ",")
}

// ---------------------------------------------------------------------------
// Laws
// ---------------------------------------------------------------------------

/// A window whose ends are whole minutes.
pub open spec fn is_whole(w: TimeWindow) -> bool {
    &&& w.wf()
    &&& w.start.nanos == 0 && w.start.secs % 60 == 0
    &&& w.end.nanos == 0 && w.end.secs % 60 == 0
}

proof fn lemma_two_digits(n: nat)
    requires
        n < 100,
    ensures
        two_digits(n) == seq![digit(n / 10), digit(n % 10)],
        is_digit(digit(n / 10)),
        is_digit(digit(n % 10)),
        digits_value(two_digits(n)) == n,
{
    let s = seq![digit(n / 10), digit(n % 10)];
    if n >= 10 {
        assert(decimal(n / 10) == seq![digit(n / 10)]);
    }
    assert(two_digits(n) =~= s);
    assert(s.drop_last() =~= seq![digit(n / 10)]);
    assert(seq![digit(n / 10)].drop_last() =~= Seq::<char>::empty());
    assert(digits_value(Seq::<char>::empty()) == 0);
    assert(digits_value(seq![digit(n / 10)]) == n / 10);
}

/// The shape of a time of day as text.
proof fn lemma_clock_text(secs: nat)
    requires
        secs < 86_400,
    ensures
        ({
            let s = clock_text(secs);
            &&& s.len() == 5
            &&& is_digit(s[0]) && is_digit(s[1]) && is_digit(s[3]) && is_digit(s[4])
            &&& s[2] == ':'
            &&& digits_value(s.take(2)) == secs / 3600
            &&& digits_value(s.skip(3)) == secs / 60 % 60
        }),
{
    let h = secs / 3600;
    let m = secs / 60 % 60;
    lemma_two_digits(h);
    lemma_two_digits(m);
    let s = clock_text(secs);
    assert(s.take(2) =~= two_digits(h));
    assert(s.skip(3) =~= two_digits(m));
}

/// A time of day that is shown reads back as the hour and the minute.
pub proof fn shown_time_reads_back(secs: nat)
    requires
        secs < 86_400,
    ensures
        clock_reading(clock_text(secs)) == Some((secs / 3600, secs / 60 % 60)),
{
    let s = clock_text(secs);
    lemma_clock_text(secs);
    lemma_trim_nothing(s);
    assert(digits()(s[0]) && digits()(s[1]) && !digits()(s[2]));
    lemma_run_is(s, digits(), 2);
    let rest = s.skip(2);
    assert(rest[0] == s[2]);
    let u = rest.skip(1);
    assert(u =~= s.skip(3));
    assert(u[0] == s[3] && u[1] == s[4] && u.len() == 2);
    lemma_trim_nothing(u);
    assert(digits()(u[0]) && digits()(u[1]));
    lemma_run_is(u, digits(), 2);
    assert(u.take(2) =~= u);
}

/// A window that is shown reads back as the window.
pub proof fn shown_window_reads_back(w: TimeWindow)
    requires
        is_whole(w),
    ensures
        window_read(window_text(w)) == Ok::<TimeWindow, Seq<char>>(w),
        !window_text(w).contains(','),
        trim(window_text(w)) == window_text(w),
{
    let a = clock_text(w.start.secs as nat);
    let b = clock_text(w.end.secs as nat);
    let s = window_text(w);
    reveal_strlit("-");
    lemma_clock_text(w.start.secs as nat);
    lemma_clock_text(w.end.secs as nat);
    assert("-"@ =~= seq!['-']);
    assert(s.len() == 11);
    assert(forall|i: int| 0 <= i < 5 ==> #[trigger] s[i] == a[i]);
    assert(s[5] == '-');
    assert(s[6] == b[0] && s[7] == b[1] && s[8] == b[2] && s[9] == b[3] && s[10] == b[4]);
    assert forall|i: int| 0 <= i < s.len() implies #[trigger] s[i] != ',' by {
        if i < 5 {
            assert(s[i] == a[i]);
        }
    }
    lemma_trim_nothing(s);
    assert forall|i: int| 0 <= i < 5 implies other_than('-')(#[trigger] s[i]) by {
        assert(s[i] == a[i]);
    }
    lemma_run_is(s, other_than('-'), 5);
    assert(s.take(5) =~= a);
    assert(s.skip(6) =~= b);
    lemma_trim_nothing(a);
    lemma_trim_nothing(b);
    shown_time_reads_back(w.start.secs as nat);
    shown_time_reads_back(w.end.secs as nat);
}

proof fn lemma_windows_listed(windows: Seq<TimeWindow>)
    requires
        forall|i: int| 0 <= i < windows.len() ==> is_whole(#[trigger] windows[i]),
    ensures
        windows_listed(window_texts(windows)) == Ok::<Seq<TimeWindow>, Seq<char>>(windows),
    decreases windows.len(),
{
    if windows.len() > 0 {
        let t = windows.drop_last();
        assert forall|i: int| 0 <= i < t.len() implies is_whole(#[trigger] t[i]) by {
            assert(t[i] == windows[i]);
        }
        lemma_windows_listed(t);
        assert(window_texts(windows).drop_last() =~= window_texts(t));
        assert(is_whole(windows[windows.len() - 1]));
        shown_window_reads_back(windows.last());
        assert(t.push(windows.last()) =~= windows);
    } else {
        assert(windows =~= Seq::<TimeWindow>::empty());
    }
}

/// Windows that are shown read back as the windows.
pub proof fn shown_windows_read_back(windows: Seq<TimeWindow>)
    requires
        windows.len() > 0,
        forall|i: int| 0 <= i < windows.len() ==> is_whole(#[trigger] windows[i]),
    ensures
        windows_read(windows_text(windows)) == Ok::<Seq<TimeWindow>, Seq<char>>(windows),
{
    let parts = window_texts(windows);
    reveal_strlit(",");
    assert(","@ =~= seq![',']);
    assert forall|i: int| 0 <= i < parts.len() implies !(#[trigger] parts[i]).contains(',') by {
        assert(is_whole(windows[i]));
        shown_window_reads_back(windows[i]);
    }
    split_undoes_join(parts, ',');
    lemma_windows_listed(windows);
    let s = windows_text(windows);
    if s.len() == 0 {
        assert(find_char(s, ',') == 0);
        assert(split(s, ',') =~= seq![s]);
        assert(parts[0] == s);
        assert(is_whole(windows[0]));
        lemma_clock_text(windows[0].start.secs as nat);
    }
}

} // verus!
