//! Subscriptions to departures, and the schedules that restrict them.

use crate::clock::{
    is_later, london_clock, london_time, london_weekday, time_le, time_lt, utc_now, NaiveTime,
    Timestamp, Weekday,
};
use crate::text::{
    clone_texts, decimal, lemma_decimal_injective, lists, opt_text, same, texts, two_digit_text,
    two_digits, views,
};
use vstd::prelude::*;

verus! {

// ---------------------------------------------------------------------------
// Time windows
// ---------------------------------------------------------------------------

/// A time window within a day (local UK time).
#[derive(Debug, Clone, Copy, PartialEq, Eq, Structural)]
pub struct TimeWindow {
    pub start: NaiveTime,
    pub end: NaiveTime,
}

/// `t` is in the window, which runs past midnight where it ends before it starts.
pub open spec fn in_window(w: TimeWindow, t: NaiveTime) -> bool {
    if time_le(w.start, w.end) {
        time_le(w.start, t) && time_lt(t, w.end)
    } else {
        time_le(w.start, t) || time_lt(t, w.end)
    }
}

impl TimeWindow {
    /// Both ends are times of day.
    pub open spec fn wf(&self) -> bool {
        self.start.wf() && self.end.wf()
    }

    pub fn new(start: NaiveTime, end: NaiveTime) -> (r: Self)
        ensures
            r == (TimeWindow { start, end }),
    {
        TimeWindow { start, end }
    }

    /// Returns true if `t` falls within this window, handling overnight wrap-around.
    pub fn contains(&self, t: NaiveTime) -> (r: bool)
        ensures
            r == in_window(*self, t),
    {
        if self.start.not_after(&self.end) {
            self.start.not_after(&t) && t.is_before(&self.end)
        } else {
            self.start.not_after(&t) || t.is_before(&self.end)
        }
    }
}

/// A window and the one with its ends exchanged split the day between them,
/// unless the two ends are equal.
pub proof fn swapped_window_is_the_rest_of_the_day(w: TimeWindow, t: NaiveTime)
    requires
        w.start != w.end,
    ensures
        in_window(w, t) != in_window(TimeWindow { start: w.end, end: w.start }, t),
{
}

/// The end of a window is not in it, and its start is unless the window is empty.
pub proof fn window_ends(w: TimeWindow)
    ensures
        !in_window(w, w.end),
        w.start != w.end ==> in_window(w, w.start),
{
}

// ---------------------------------------------------------------------------
// Schedules
// ---------------------------------------------------------------------------

/// Restricts a subscription to specific days and time windows.
#[derive(Debug)]
pub struct Schedule {
    /// Days of the week this schedule applies to.
    pub days: Vec<Weekday>,
    pub windows: Vec<TimeWindow>,
}

#[verifier::ext_equal]
pub struct ScheduleView {
    pub days: Seq<Weekday>,
    pub windows: Seq<TimeWindow>,
}

impl View for Schedule {
    type V = ScheduleView;

    open spec fn view(&self) -> ScheduleView {
        ScheduleView { days: self.days@, windows: self.windows@ }
    }
}

impl Clone for Schedule {
    fn clone(&self) -> (r: Self)
        ensures
            r@ == self@,
    {
        let r = Schedule { days: self.days.clone(), windows: self.windows.clone() };
        assert(r.days@ =~= self.days@);
        assert(r.windows@ =~= self.windows@);
        r
    }
}

/// Both ends of every window are times of day.
pub open spec fn windows_wf(windows: Seq<TimeWindow>) -> bool {
    forall|i: int| 0 <= i < windows.len() ==> (#[trigger] windows[i]).wf()
}

impl ScheduleView {
    pub open spec fn wf(self) -> bool {
        windows_wf(self.windows)
    }

    /// The day is one of the days, and the time is in one of the windows.
    pub open spec fn covers(self, day: Weekday, time: NaiveTime) -> bool {
        &&& self.days.contains(day)
        &&& exists|i: int| 0 <= i < self.windows.len() && in_window(#[trigger] self.windows[i], time)
    }

    /// The schedule covers the instant on London clocks.
    pub open spec fn active_at(self, now: Timestamp) -> bool {
        self.covers(london_weekday(now), london_time(now))
    }
}

impl Schedule {
    /// Returns true if the day and the time of day are ones this schedule covers.
    pub fn covers(&self, day: Weekday, time: NaiveTime) -> (r: bool)
        ensures
            r == self@.covers(day, time),
    {
        let mut listed = false;
        let mut i: usize = 0;
        while i < self.days.len()
            invariant
                0 <= i <= self.days@.len(),
                listed == exists|j: int| 0 <= j < i && #[trigger] self.days@[j] == day,
            decreases self.days.len() - i,
        {
            if self.days[i] == day {
                listed = true;
            }
            i += 1;
        }
        if !listed {
            return false;
        }
        let mut k: usize = 0;
        while k < self.windows.len()
            invariant
                0 <= k <= self.windows@.len(),
                self.days@.contains(day),
                forall|j: int| 0 <= j < k ==> !in_window(#[trigger] self.windows@[j], time),
            decreases self.windows.len() - k,
        {
            if self.windows[k].contains(time) {
                assert(in_window(self@.windows[k as int], time));
                return true;
            }
            k += 1;
        }
        false
    }

    /// Returns true if `now` (UTC) falls within an active window for this
    /// schedule, evaluated in Europe/London local time.
    pub fn is_active_at(&self, now: Timestamp) -> (r: bool)
        requires
            now.wf(),
        ensures
            r == self@.active_at(now),
    {
        let local = london_clock(&now);
        self.covers(local.0, local.1)
    }
}

// ---------------------------------------------------------------------------
// Subscriptions
// ---------------------------------------------------------------------------

/// A user's subscription to departures from an origin station.
#[derive(Debug)]
pub struct Subscription {
    /// Stable globally-unique ULID.
    pub id: String,
    /// Short per-user display ID shown in /subs (e.g. "01", "02").
    /// Assigned at creation; unique within one user's subscription list.
    pub display_id: String,
    /// 3-letter CRS code, uppercase.
    pub origin_crs: String,
    /// Empty = all destinations.
    pub destination_filter: Vec<String>,
    /// `None` = always active.
    pub schedule: Option<Schedule>,
    pub created_at: Timestamp,
    /// Absolute UTC time after which this subscription auto-expires.
    /// `None` = no expiry (scheduled subscriptions never auto-expire).
    pub expires_at: Option<Timestamp>,
}

#[verifier::ext_equal]
pub struct SubscriptionView {
    pub id: Seq<char>,
    pub display_id: Seq<char>,
    pub origin_crs: Seq<char>,
    pub destination_filter: Seq<Seq<char>>,
    pub schedule: Option<ScheduleView>,
    pub created_at: Timestamp,
    pub expires_at: Option<Timestamp>,
}

impl View for Subscription {
    type V = SubscriptionView;

    open spec fn view(&self) -> SubscriptionView {
        SubscriptionView {
            id: self.id@,
            display_id: self.display_id@,
            origin_crs: self.origin_crs@,
            destination_filter: texts(self.destination_filter@),
            schedule: match self.schedule {
                Some(s) => Some(s@),
                None => None,
            },
            created_at: self.created_at,
            expires_at: self.expires_at,
        }
    }
}

impl Clone for Subscription {
    fn clone(&self) -> (r: Self)
        ensures
            r@ == self@,
    {
        Subscription {
            id: self.id.clone(),
            display_id: self.display_id.clone(),
            origin_crs: self.origin_crs.clone(),
            destination_filter: clone_texts(&self.destination_filter),
            schedule: match &self.schedule {
                Some(s) => Some(s.clone()),
                None => None,
            },
            created_at: self.created_at,
            expires_at: self.expires_at,
        }
    }
}

/// The characters in which a ULID is written.
pub open spec fn is_ulid_char(c: char) -> bool {
    '0' <= c <= '9' || ('A' <= c <= 'Z' && c != 'I' && c != 'L' && c != 'O' && c != 'U')
}

/// The form of a ULID: 26 characters of its alphabet.
pub open spec fn is_ulid_text(s: Seq<char>) -> bool {
    s.len() == 26 && forall|i: int| 0 <= i < s.len() ==> is_ulid_char(#[trigger] s[i])
}

/// `Ulid::new` of the ulid crate, as text. The value depends on the clock and
/// on chance; whatever it is, it has the form of a ULID.
#[verifier::external_body]
pub(crate) fn new_ulid() -> (r: String)
    ensures
        is_ulid_text(r@),
{
    ulid::Ulid::new().to_string()
}

/// The display IDs of a list of subscriptions.
pub open spec fn display_ids(subs: Seq<SubscriptionView>) -> Seq<Seq<char>> {
    Seq::new(subs.len(), |i: int| subs[i].display_id)
}

/// No display ID stands in the list twice.
pub open spec fn distinct_display_ids(subs: Seq<SubscriptionView>) -> bool {
    forall|i: int, j: int|
        0 <= i < j < subs.len() ==> (#[trigger] subs[i]).display_id != (#[trigger] subs[j]).display_id
}

/// The number is one whose two digits no subscription shows.
pub open spec fn is_free_number(subs: Seq<SubscriptionView>, n: nat) -> bool {
    !display_ids(subs).contains(two_digits(n))
}

/// The smallest free number from `n` to 99.
pub open spec fn free_number_from(subs: Seq<SubscriptionView>, n: nat) -> Option<nat>
    decreases 100 - n,
{
    if n > 99 {
        None
    } else if is_free_number(subs, n) {
        Some(n)
    } else {
        free_number_from(subs, n + 1)
    }
}

/// The display ID that a new subscription gets: the smallest free number.
pub open spec fn next_id(subs: Seq<SubscriptionView>) -> Option<Seq<char>> {
    match free_number_from(subs, 1) {
        Some(n) => Some(two_digits(n)),
        None => None,
    }
}

/// The smallest free number from 1 to 99, as two digits.
pub open spec fn is_next_display_id(subs: Seq<SubscriptionView>, id: Option<Seq<char>>) -> bool {
    match id {
        Some(text) => exists|n: nat|
            {
                &&& 1 <= n <= 99
                &&& text == two_digits(n)
                &&& #[trigger] is_free_number(subs, n)
                &&& forall|m: nat| 1 <= m < n ==> !#[trigger] is_free_number(subs, m)
            },
        None => forall|m: nat| 1 <= m <= 99 ==> !#[trigger] is_free_number(subs, m),
    }
}

impl SubscriptionView {
    /// The instants are ones the calendar covers, and the windows are made of times of day.
    pub open spec fn wf(self) -> bool {
        &&& self.created_at.wf()
        &&& self.expires_at is Some ==> self.expires_at->0.wf()
        &&& self.schedule is Some ==> self.schedule->0.wf()
    }

    pub open spec fn active_at(self, now: Timestamp) -> bool {
        match self.schedule {
            None => true,
            Some(s) => s.active_at(now),
        }
    }

    /// The deadline has been reached.
    pub open spec fn expired_at(self, now: Timestamp) -> bool {
        match self.expires_at {
            None => false,
            Some(t) => !is_later(t, now),
        }
    }

    /// A service leaves from the origin, and its terminus or one of its
    /// calling points is a wanted destination.
    pub open spec fn wants(
        self,
        origin_crs: Seq<char>,
        destination_crs: Seq<char>,
        calling_points: Seq<Seq<char>>,
    ) -> bool {
        &&& self.origin_crs == origin_crs
        &&& {
            ||| self.destination_filter.len() == 0
            ||| self.destination_filter.contains(destination_crs)
            ||| exists|i: int|
                0 <= i < self.destination_filter.len() && calling_points.contains(
                    #[trigger] self.destination_filter[i],
                )
        }
    }
}

impl Subscription {
    /// Default auto-expiry duration for unscheduled subscriptions (30 minutes).
    pub const DEFAULT_EXPIRY_MINUTES: i64 = 30;

    /// A subscription with the given identity. It has no display ID yet, and
    /// no expiry.
    pub fn with_identity(
        id: String,
        created_at: Timestamp,
        origin_crs: String,
        destination_filter: Vec<String>,
        schedule: Option<Schedule>,
    ) -> (r: Self)
        ensures
            r.id == id,
            r.display_id@ == Seq::<char>::empty(),
            r.origin_crs == origin_crs,
            r.destination_filter == destination_filter,
            r.schedule == schedule,
            r.created_at == created_at,
            r.expires_at is None,
    {
        Subscription {
            id,
            display_id: String::new(),
            origin_crs,
            destination_filter,
            schedule,
            created_at,
            expires_at: None,
        }
    }

    /// A subscription with a fresh identity, created now. The caller sets the
    /// display ID via `next_display_id`.
    pub fn new(
        origin_crs: String,
        destination_filter: Vec<String>,
        schedule: Option<Schedule>,
    ) -> (r: Self)
        ensures
            is_ulid_text(r.id@),
            r.display_id@ == Seq::<char>::empty(),
            r.origin_crs == origin_crs,
            r.destination_filter == destination_filter,
            r.schedule == schedule,
            r.created_at.wf(),
            r.expires_at is None,
    {
        Subscription::with_identity(
            new_ulid(),
            utc_now(),
            origin_crs,
            destination_filter,
            schedule,
        )
    }

    /// Returns true if this subscription has passed its `expires_at` deadline.
    pub fn is_expired_at(&self, now: Timestamp) -> (r: bool)
        ensures
            r == self@.expired_at(now),
    {
        match &self.expires_at {
            Some(t) => !t.later_than(&now),
            None => false,
        }
    }

    /// Returns the smallest two-digit decimal ID (`"01"`-`"99"`) not already
    /// used by any subscription in `existing`.
    ///
    /// Returns `None` only if all 99 slots are occupied.
    pub fn next_display_id(existing: &Vec<Subscription>) -> (r: Option<String>)
        ensures
            opt_text(r) == next_id(views(existing@)),
            is_next_display_id(views(existing@), opt_text(r)),
    {
        let ghost subs = views(existing@);
        let mut used: Vec<String> = Vec::new();
        let mut i: usize = 0;
        while i < existing.len()
            invariant
                0 <= i <= existing@.len(),
                subs == views(existing@),
                texts(used@) == display_ids(subs).take(i as int),
            decreases existing.len() - i,
        {
            let ghost before = texts(used@);
            used.push(existing[i].display_id.clone());
            proof {
                assert(texts(used@) =~= before.push(existing@[i as int].display_id@));
                assert(display_ids(subs).take(i + 1) =~= display_ids(subs).take(i as int).push(
                    subs[i as int].display_id,
                ));
            }
            i += 1;
        }
        assert(display_ids(subs).take(i as int) =~= display_ids(subs));
        let mut n: u64 = 1;
        while n <= 99
            invariant
                1 <= n <= 100,
                texts(used@) == display_ids(subs),
                subs == views(existing@),
                forall|m: nat| 1 <= m < n ==> !#[trigger] is_free_number(subs, m),
                free_number_from(subs, 1) == free_number_from(subs, n as nat),
            decreases 100 - n,
        {
            let candidate = two_digit_text(n);
            if !lists(&used, candidate.as_str()) {
                assert(is_free_number(subs, n as nat));
                return Some(candidate);
            }
            n += 1;
        }
        None
    }

    /// Returns true if this subscription should produce notifications right now.
    pub fn is_active_at(&self, now: Timestamp) -> (r: bool)
        requires
            now.wf(),
        ensures
            r == self@.active_at(now),
    {
        match &self.schedule {
            None => true,
            Some(sched) => sched.is_active_at(now),
        }
    }

    /// Whether this subscription is for departures such as these: from the
    /// origin, to a destination in the filter or through one.
    pub fn is_for(
        &self,
        origin_crs: &str,
        destination_crs: &str,
        calling_points: &Vec<String>,
    ) -> (r: bool)
        ensures
            r == self@.wants(origin_crs@, destination_crs@, texts(calling_points@)),
    {
        if !same(self.origin_crs.as_str(), origin_crs) {
            return false;
        }
        if self.destination_filter.len() == 0 || lists(&self.destination_filter, destination_crs) {
            return true;
        }
        let mut i: usize = 0;
        while i < self.destination_filter.len()
            invariant
                0 <= i <= self.destination_filter@.len(),
                self@.destination_filter == texts(self.destination_filter@),
                forall|j: int|
                    0 <= j < i ==> !texts(calling_points@).contains(
                        #[trigger] self@.destination_filter[j],
                    ),
                self@.origin_crs == origin_crs@,
            decreases self.destination_filter.len() - i,
        {
            if lists(calling_points, self.destination_filter[i].as_str()) {
                assert(texts(calling_points@).contains(self@.destination_filter[i as int]));
                return true;
            }
            i += 1;
        }
        false
    }
}

/// Different numbers below a hundred show different pairs of digits.
proof fn lemma_two_digits_injective(a: nat, b: nat)
    requires
        two_digits(a) == two_digits(b),
    ensures
        a == b,
{
    let s = two_digits(a);
    let t = two_digits(b);
    if a < 10 && b < 10 {
        assert(s[1] == t[1]);
    } else if a >= 10 && b >= 10 {
        lemma_decimal_injective(a, b);
    } else {
        let big = if a < 10 { b } else { a };
        lemma_decimal_does_not_start_with_zero(big);
        assert(s[0] == t[0]);
    }
}

proof fn lemma_decimal_does_not_start_with_zero(n: nat)
    requires
        n > 0,
    ensures
        decimal(n).len() > 0,
        decimal(n)[0] != '0',
    decreases n,
{
    if n >= 10 {
        lemma_decimal_does_not_start_with_zero(n / 10);
        assert(decimal(n)[0] == decimal(n / 10)[0]);
    }
}

/// The display ID of a new subscription is that of the smallest free number.
pub proof fn next_id_is_smallest(subs: Seq<SubscriptionView>)
    ensures
        is_next_display_id(subs, next_id(subs)),
{
    lemma_free_number(subs, 1);
}

proof fn lemma_free_number(subs: Seq<SubscriptionView>, n: nat)
    requires
        1 <= n <= 100,
    ensures
        match free_number_from(subs, n) {
            Some(k) => {
                &&& n <= k <= 99
                &&& is_free_number(subs, k)
                &&& forall|m: nat| n <= m < k ==> !#[trigger] is_free_number(subs, m)
            },
            None => forall|m: nat| n <= m <= 99 ==> !#[trigger] is_free_number(subs, m),
        },
    decreases 100 - n,
{
    if n <= 99 && !is_free_number(subs, n) {
        lemma_free_number(subs, n + 1);
    }
}

/// A display ID handed out by `next_display_id` is unique in the list that it joins.
pub proof fn new_display_id_is_unique(
    subs: Seq<SubscriptionView>,
    id: Seq<char>,
    added: SubscriptionView,
)
    requires
        distinct_display_ids(subs),
        is_next_display_id(subs, Some(id)),
        added.display_id == id,
    ensures
        distinct_display_ids(subs.push(added)),
{
    let all = subs.push(added);
    assert forall|i: int, j: int| 0 <= i < j < all.len() implies (#[trigger] all[i]).display_id != (
    #[trigger] all[j]).display_id by {
        if j == subs.len() {
            assert(display_ids(subs)[i] == subs[i].display_id);
        }
    }
}

/// A list of fewer than 99 subscriptions always has a display ID left.
pub proof fn display_id_is_left(subs: Seq<SubscriptionView>)
    requires
        subs.len() < 99,
    ensures
        !is_next_display_id(subs, None),
{
    if is_next_display_id(subs, None) {
        assert forall|m: nat| 1 <= m <= 99 implies display_ids(subs).contains(#[trigger] two_digits(m)) by {
            assert(!is_free_number(subs, m));
        }
        lemma_used_numbers(display_ids(subs), 99);
    }
}

proof fn lemma_used_numbers(ids: Seq<Seq<char>>, n: nat)
    requires
        forall|m: nat| 1 <= m <= n ==> ids.contains(#[trigger] two_digits(m)),
    ensures
        ids.len() >= n,
    decreases n,
{
    if n > 0 {
        assert(ids.contains(two_digits(n)));
        let k = choose|k: int| 0 <= k < ids.len() && ids[k] == two_digits(n);
        let rest = ids.remove(k);
        assert forall|m: nat| 1 <= m <= n - 1 implies rest.contains(#[trigger] two_digits(m)) by {
            let j = choose|j: int| 0 <= j < ids.len() && ids[j] == two_digits(m);
            if j == k {
                lemma_two_digits_injective(m, n);
            }
            if j < k {
                assert(rest[j] == ids[j]);
            } else {
                assert(rest[j - 1] == ids[j]);
            }
        }
        lemma_used_numbers(rest, (n - 1) as nat);
    }
}

/// A subscription without a deadline never expires.
pub proof fn no_deadline_no_expiry(sub: SubscriptionView, now: Timestamp)
    requires
        sub.expires_at is None,
    ensures
        !sub.expired_at(now),
{
}

/// Once a subscription has expired it stays expired.
pub proof fn expiry_is_final(sub: SubscriptionView, now: Timestamp, then: Timestamp)
    requires
        sub.expired_at(now),
        !is_later(now, then),
    ensures
        sub.expired_at(then),
{
}

} // verus!
