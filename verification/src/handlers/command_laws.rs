//! What the commands do to a user and what they answer.

use crate::clock::{london_text, minutes_left, Timestamp};
use crate::domain::subscription::next_id;
use crate::domain::{Channel, ScheduleView, SubscriptionView, UserView};
use crate::handlers::commands::{
    candidate_lines, codes_listed, covered, covered_by, default_deadline, destinations_text, find_reply, find_text, kill_step,
    paused, pause_minutes, resumed, scheduled_sub, scheduled_text, shown_as, station_words, step_after_saving,
    sub_line, sub_lines, sub_request, subs_text, subscribed, temporary, unsubscribed, watch_text, watched,
    without_id, StepView, SubRequest, ThenView,
};
use crate::handlers::departures::{code_problem, code_texts, BoardQueryView, Format};
use crate::handlers::parsing::{days_read, days_text, windows_read, windows_text};
use crate::handlers::{command_of, dispatched, handled, now_step, AppState};
use crate::markup::escaped;
use crate::stations::normalise::normalised;
use crate::stations::{code_in_query, found, skim_scores, FindResultView, StationIndexView};
use crate::table::value_of;
use crate::text::{
    all_digits, decimal, holds, is_blank, is_digit, join, lemma_decimal_reads_back, lemma_holds,
    lemma_in_parts, lemma_join_holds, lemma_run_is, lemma_trim_nothing, non_blanks,
    same_ignoring_case, split, split_undoes_join, trim, unsigned_value, words,
};
use crate::unicode::{lowercase, uppercase};
use vstd::prelude::*;
use vstd::string::*;

verus! {

// ---------------------------------------------------------------------------
// /sub, temporary
// ---------------------------------------------------------------------------

/// The subscription makes a temporary one to these destinations superfluous: it
/// has the same origin and no schedule, and it is for all destinations or for the
/// same ones, each as often.
pub open spec fn makes_superfluous(
    existing: SubscriptionView,
    origin: Seq<char>,
    destinations: Seq<Seq<char>>,
) -> bool {
    &&& existing.origin_crs == origin
    &&& existing.schedule is None
    &&& {
        ||| existing.destination_filter.len() == 0
        ||| existing.destination_filter.len() == destinations.len() && forall|d: Seq<char>|
            #[trigger] existing.destination_filter.to_multiset().count(d)
                == destinations.to_multiset().count(d)
    }
}

proof fn lemma_covered_by(
    existing: SubscriptionView,
    origin: Seq<char>,
    destinations: Seq<Seq<char>>,
)
    ensures
        covered_by(existing, origin, destinations) is Some <==> makes_superfluous(
            existing,
            origin,
            destinations,
        ),
{
    broadcast use vstd::seq_lib::group_to_multiset_ensures;

    let a = existing.destination_filter.to_multiset();
    let b = destinations.to_multiset();
    if forall|d: Seq<char>| #[trigger] a.count(d) == b.count(d) {
        assert(a =~= b);
    }
    if a == b {
        assert(existing.destination_filter.len() == a.len());
        assert(destinations.len() == b.len());
    }
}

proof fn lemma_covered(subs: Seq<SubscriptionView>, origin: Seq<char>, destinations: Seq<Seq<char>>)
    ensures
        covered(subs, origin, destinations) is Some <==> exists|i: int|
            0 <= i < subs.len() && makes_superfluous(#[trigger] subs[i], origin, destinations),
    decreases subs.len(),
{
    if subs.len() > 0 {
        let rest = subs.drop_first();
        lemma_covered_by(subs[0], origin, destinations);
        lemma_covered(rest, origin, destinations);
        if covered(subs, origin, destinations) is Some && covered_by(
            subs[0],
            origin,
            destinations,
        ) is None {
            let i = choose|i: int|
                0 <= i < rest.len() && makes_superfluous(#[trigger] rest[i], origin, destinations);
            assert(subs[i + 1] == rest[i]);
        }
        if exists|i: int|
            0 <= i < subs.len() && makes_superfluous(#[trigger] subs[i], origin, destinations) {
            let i = choose|i: int|
                0 <= i < subs.len() && makes_superfluous(#[trigger] subs[i], origin, destinations);
            if i > 0 {
                assert(rest[i - 1] == subs[i]);
            }
        }
    }
}

/// A temporary subscription to known stations, while a display ID is free, is
/// refused only where another one makes it superfluous. Otherwise it joins the end
/// of the list as it was asked for, for thirty minutes, and nothing else changes.
pub proof fn new_watch_is_added(
    user: UserView,
    index: StationIndexView,
    origin: Seq<char>,
    destinations: Seq<Seq<char>>,
    format: Format,
    now: Timestamp,
    id: Seq<char>,
)
    requires
        now.wf(),
        code_problem(index, origin, destinations) is None,
        next_id(user.subscriptions) is Some,
        forall|i: int|
            0 <= i < user.subscriptions.len() ==> !makes_superfluous(
                #[trigger] user.subscriptions[i],
                origin,
                destinations,
            ),
    ensures
        ({
            let after = watched(user, index, origin, destinations, format, now, id);
            let subs = after.user.subscriptions;
            let n = user.subscriptions.len() as int;
            &&& subs.len() == n + 1
            &&& forall|i: int| 0 <= i < n ==> #[trigger] subs[i] == user.subscriptions[i]
            &&& subs[n].id == id
            &&& subs[n].display_id == next_id(user.subscriptions)->0
            &&& subs[n].origin_crs == origin
            &&& subs[n].destination_filter == destinations
            &&& subs[n].schedule is None
            &&& subs[n].created_at == now
            &&& subs[n].expires_at is Some
            &&& subs[n].expires_at->0.secs == now.secs + 1800
            &&& subs[n].expires_at->0.nanos == now.nanos
            &&& after.user.key == user.key
            &&& after.user.notifications_paused == user.notifications_paused
            &&& after.user.paused_until == user.paused_until
            &&& after.step is Save
            &&& after.step->then is Board
            &&& after.step->then->query == (BoardQueryView { origin_crs: origin, destinations, format })
            &&& holds(after.step->then->confirmed, escaped(origin))
        }),
{
    lemma_covered(user.subscriptions, origin, destinations);
    let after = watched(user, index, origin, destinations, format, now, id);
    let text = after.step->then->confirmed;
    let tail = " Expires at "@ + london_text(default_deadline(now)) + " (30m)."@;
    if destinations.len() == 0 {
        assert(text =~= "Watching all departures from <code>"@ + escaped(origin) + ("</code>."@
            + tail));
    } else {
        assert(text =~= "Watching departures from <code>"@ + escaped(origin) + ("</code> to <code>"@
            + escaped(join(destinations, ", "@)) + "</code>."@ + tail));
    }
}

/// A temporary subscription that another one makes superfluous is refused, and the
/// user stays as they are.
pub proof fn superfluous_watch_is_refused(
    user: UserView,
    index: StationIndexView,
    origin: Seq<char>,
    destinations: Seq<Seq<char>>,
    format: Format,
    now: Timestamp,
    id: Seq<char>,
    i: int,
)
    requires
        0 <= i < user.subscriptions.len(),
        makes_superfluous(user.subscriptions[i], origin, destinations),
    ensures
        watched(user, index, origin, destinations, format, now, id).user == user,
        watched(user, index, origin, destinations, format, now, id).step is Reply,
{
    lemma_covered(user.subscriptions, origin, destinations);
    assert(makes_superfluous(user.subscriptions[i], origin, destinations));
}

/// A destination that no other subscription from the station has, while none is for
/// all of them, is reason enough for a new one.
pub proof fn new_destination_is_watched(
    user: UserView,
    index: StationIndexView,
    origin: Seq<char>,
    destinations: Seq<Seq<char>>,
    format: Format,
    now: Timestamp,
    id: Seq<char>,
    d: Seq<char>,
)
    requires
        code_problem(index, origin, destinations) is None,
        next_id(user.subscriptions) is Some,
        destinations.contains(d),
        forall|i: int|
            0 <= i < user.subscriptions.len() ==> (#[trigger] user.subscriptions[i]).origin_crs
                != origin || user.subscriptions[i].schedule is Some || (
            user.subscriptions[i].destination_filter.len() > 0
                && !user.subscriptions[i].destination_filter.contains(d)),
    ensures
        ({
            let subs = watched(user, index, origin, destinations, format, now, id).user.subscriptions;
            &&& subs.len() == user.subscriptions.len() + 1
            &&& subs.last().origin_crs == origin
            &&& subs.last().destination_filter == destinations
        }),
{
    broadcast use vstd::seq_lib::group_to_multiset_ensures;

    lemma_covered(user.subscriptions, origin, destinations);
    assert forall|i: int| 0 <= i < user.subscriptions.len() implies !makes_superfluous(
        #[trigger] user.subscriptions[i],
        origin,
        destinations,
    ) by {
        let filter = user.subscriptions[i].destination_filter;
        if filter.len() > 0 && !filter.contains(d) {
            assert(filter.to_multiset().count(d) == 0);
            assert(destinations.to_multiset().count(d) > 0);
        }
    }
}

/// So is a request for fewer destinations than every other subscription from the
/// station has.
pub proof fn narrower_request_is_watched(
    user: UserView,
    index: StationIndexView,
    origin: Seq<char>,
    destinations: Seq<Seq<char>>,
    format: Format,
    now: Timestamp,
    id: Seq<char>,
)
    requires
        code_problem(index, origin, destinations) is None,
        next_id(user.subscriptions) is Some,
        forall|i: int|
            0 <= i < user.subscriptions.len() ==> (#[trigger] user.subscriptions[i]).origin_crs
                != origin || user.subscriptions[i].schedule is Some
                || user.subscriptions[i].destination_filter.len() > destinations.len(),
    ensures
        ({
            let subs = watched(user, index, origin, destinations, format, now, id).user.subscriptions;
            &&& subs.len() == user.subscriptions.len() + 1
            &&& subs.last().origin_crs == origin
            &&& subs.last().destination_filter == destinations
        }),
{
    lemma_covered(user.subscriptions, origin, destinations);
    assert forall|i: int| 0 <= i < user.subscriptions.len() implies !makes_superfluous(
        #[trigger] user.subscriptions[i],
        origin,
        destinations,
    ) by {}
}

/// The same request again, the destinations in whatever order, or any request from
/// a station all of whose departures are watched, is refused.
pub proof fn same_watch_is_refused(
    user: UserView,
    index: StationIndexView,
    origin: Seq<char>,
    destinations: Seq<Seq<char>>,
    format: Format,
    now: Timestamp,
    id: Seq<char>,
    i: int,
)
    requires
        0 <= i < user.subscriptions.len(),
        user.subscriptions[i].origin_crs == origin,
        user.subscriptions[i].schedule is None,
        user.subscriptions[i].destination_filter.len() == 0
            || user.subscriptions[i].destination_filter.to_multiset()
            == destinations.to_multiset(),
    ensures
        watched(user, index, origin, destinations, format, now, id).user == user,
        watched(user, index, origin, destinations, format, now, id).step is Reply,
{
    broadcast use vstd::seq_lib::group_to_multiset_ensures;

    assert(user.subscriptions[i].destination_filter.len()
        == user.subscriptions[i].destination_filter.to_multiset().len());
    assert(destinations.len() == destinations.to_multiset().len());
    superfluous_watch_is_refused(user, index, origin, destinations, format, now, id, i);
}

/// The confirmation of a temporary subscription gives its destinations and the
/// time at which it expires.
pub proof fn confirmation_gives_everything(
    origin: Seq<char>,
    destinations: Seq<Seq<char>>,
    now: Timestamp,
)
    ensures
        holds(watch_text(origin, destinations, now), escaped(origin)),
        destinations.len() > 0 ==> holds(
            watch_text(origin, destinations, now),
            escaped(join(destinations, ", "@)),
        ),
        holds(
            watch_text(origin, destinations, now),
            london_text(default_deadline(now)),
        ),
{
    let text = watch_text(origin, destinations, now);
    let at = london_text(default_deadline(now));
    let by = " Expires at "@;
    let end = " (30m)."@;
    if destinations.len() == 0 {
        let a = "Watching all departures from <code>"@;
        assert(text =~= a + escaped(origin) + ("</code>."@ + by + at + end));
        assert(text =~= (a + escaped(origin) + "</code>."@ + by) + at + end);
    } else {
        let a = "Watching departures from <code>"@;
        let b = "</code> to <code>"@;
        let c = escaped(join(destinations, ", "@));
        assert(text =~= a + escaped(origin) + (b + c + "</code>."@ + by + at + end));
        assert(text =~= (a + escaped(origin) + b) + c + ("</code>."@ + by + at + end));
        assert(text =~= (a + escaped(origin) + b + c + "</code>."@ + by) + at + end);
    }
}

/// A request for an unknown station, or one where every display ID is taken, leaves
/// the user as they are; the answer to the first says what is wrong.
pub proof fn impossible_requests_change_nothing(
    user: UserView,
    index: StationIndexView,
    origin: Seq<char>,
    destinations: Seq<Seq<char>>,
    schedule: ScheduleView,
    format: Format,
    now: Timestamp,
    id: Seq<char>,
)
    requires
        code_problem(index, origin, destinations) is Some || next_id(user.subscriptions) is None,
    ensures
        watched(user, index, origin, destinations, format, now, id).user == user,
        watched(user, index, origin, destinations, format, now, id).step is Reply,
        scheduled_sub(user, index, origin, destinations, schedule, now, id).user == user,
        scheduled_sub(user, index, origin, destinations, schedule, now, id).step is Reply,
        code_problem(index, origin, destinations) is Some ==> {
            let problem = code_problem(index, origin, destinations)->0;
            &&& watched(user, index, origin, destinations, format, now, id).step
                == StepView::Reply(problem)
            &&& scheduled_sub(user, index, origin, destinations, schedule, now, id).step
                == StepView::Reply(problem)
        },
{
}

// ---------------------------------------------------------------------------
// /sub, scheduled
// ---------------------------------------------------------------------------

/// A scheduled subscription to known stations, while a display ID is free, joins
/// the end of the list as it was asked for, without a deadline.
pub proof fn new_schedule_is_added(
    user: UserView,
    index: StationIndexView,
    origin: Seq<char>,
    destinations: Seq<Seq<char>>,
    schedule: ScheduleView,
    now: Timestamp,
    id: Seq<char>,
)
    requires
        code_problem(index, origin, destinations) is None,
        next_id(user.subscriptions) is Some,
    ensures
        ({
            let after = scheduled_sub(user, index, origin, destinations, schedule, now, id);
            let subs = after.user.subscriptions;
            let n = user.subscriptions.len() as int;
            &&& subs.len() == n + 1
            &&& forall|i: int| 0 <= i < n ==> #[trigger] subs[i] == user.subscriptions[i]
            &&& subs[n].id == id
            &&& subs[n].display_id == next_id(user.subscriptions)->0
            &&& subs[n].origin_crs == origin
            &&& subs[n].destination_filter == destinations
            &&& subs[n].schedule == Some(schedule)
            &&& subs[n].created_at == now
            &&& subs[n].expires_at is None
            &&& after.user.key == user.key
            &&& after.user.notifications_paused == user.notifications_paused
            &&& after.user.paused_until == user.paused_until
            &&& after.step is Save
            &&& after.step->then is Reply
            &&& holds(after.step->then->Reply_0, escaped(next_id(user.subscriptions)->0))
            &&& holds(after.step->then->Reply_0, escaped(days_text(schedule.days)))
            &&& holds(after.step->then->Reply_0, escaped(windows_text(schedule.windows)))
        }),
{
    let after = scheduled_sub(user, index, origin, destinations, schedule, now, id);
    let shown = next_id(user.subscriptions)->0;
    let text = after.step->then->Reply_0;
    let empty = Seq::<char>::empty();
    let where_to = if destinations.len() == 0 {
        "all destinations"@
    } else {
        join(code_texts(destinations), ", "@)
    };
    let head = "Scheduled subscription added <code>["@;
    let middle = "]</code>:\n<code>"@ + escaped(origin) + "</code> \u{2192} "@ + where_to + " | "@;
    let days = escaped(days_text(schedule.days));
    let windows = escaped(windows_text(schedule.windows));
    assert(text =~= head + escaped(shown) + (middle + days + " "@ + windows));
    assert(text =~= (head + escaped(shown) + middle) + days + (" "@ + windows));
    assert(text =~= (head + escaped(shown) + middle + days + " "@) + windows + empty);
}

// ---------------------------------------------------------------------------
// /sub, what it asks for
// ---------------------------------------------------------------------------

/// An origin by itself asks for a temporary subscription to all destinations.
pub proof fn origin_alone_is_temporary(tokens: Seq<Seq<char>>)
    requires
        tokens.len() == 1,
    ensures
        sub_request(tokens) is Temporary,
        sub_request(tokens)->Temporary_origin == uppercase(tokens[0]),
        sub_request(tokens)->Temporary_destinations.len() == 0,
{
}

/// The codes of a comma list are taken one by one, in upper case; what is empty is
/// left out.
pub proof fn codes_are_taken_one_by_one(a: Seq<Seq<char>>, b: Seq<Seq<char>>, part: Seq<char>)
    ensures
        codes_listed(a + b) == codes_listed(a) + codes_listed(b),
        uppercase(trim(part)).len() > 0 ==> codes_listed(seq![part]) == seq![
            uppercase(trim(part)),
        ],
        uppercase(trim(part)).len() == 0 ==> codes_listed(seq![part]).len() == 0,
    decreases b.len(),
{
    let one = seq![part];
    assert(one.drop_last() =~= Seq::<Seq<char>>::empty());
    assert(codes_listed(one.drop_last()) =~= Seq::<Seq<char>>::empty());
    assert(uppercase(trim(part)).len() > 0 ==> codes_listed(one) =~= seq![uppercase(trim(part))]);
    if b.len() == 0 {
        assert(a + b =~= a);
        assert(codes_listed(a) + codes_listed(b) =~= codes_listed(a));
    } else {
        codes_are_taken_one_by_one(a, b.drop_last(), part);
        assert((a + b).drop_last() =~= a + b.drop_last());
        assert(codes_listed(a + b) =~= codes_listed(a) + codes_listed(b));
    }
}

/// `to` and a list of codes behind the origin ask for those destinations, whatever
/// the case of the `to`.
pub proof fn destinations_stand_behind_to(origin: Seq<char>, to: Seq<char>, codes: Seq<Seq<char>>)
    requires
        same_ignoring_case(to, "to"@),
        codes.len() > 0,
        forall|i: int| 0 <= i < codes.len() ==> !(#[trigger] codes[i]).contains(','),
    ensures
        ({
            let request = sub_request(seq![origin, to, join(codes, seq![','])]);
            &&& request is Temporary
            &&& request->Temporary_origin == uppercase(origin)
            &&& request->Temporary_destinations == codes_listed(codes)
        }),
{
    split_undoes_join(codes, ',');
}

/// Days and windows behind the stations ask for a schedule of just those.
pub proof fn days_and_windows_make_a_schedule(tokens: Seq<Seq<char>>)
    requires
        tokens.len() >= 3,
        !same_ignoring_case(tokens[1], "to"@),
        days_read(tokens[1]) is Ok,
        windows_read(join(tokens.skip(2), ","@)) is Ok,
    ensures
        ({
            let request = sub_request(tokens);
            &&& request is Scheduled
            &&& request->Scheduled_origin == uppercase(tokens[0])
            &&& request->Scheduled_destinations.len() == 0
            &&& request->schedule.days == days_read(tokens[1])->Ok_0
            &&& request->schedule.windows == windows_read(join(tokens.skip(2), ","@))->Ok_0
        }),
{
}

/// So they do behind destinations.
pub proof fn schedules_have_destinations_too(tokens: Seq<Seq<char>>)
    requires
        tokens.len() >= 5,
        same_ignoring_case(tokens[1], "to"@),
        days_read(tokens[3]) is Ok,
        windows_read(join(tokens.skip(4), ","@)) is Ok,
    ensures
        ({
            let request = sub_request(tokens);
            &&& request is Scheduled
            &&& request->Scheduled_origin == uppercase(tokens[0])
            &&& request->Scheduled_destinations == codes_listed(split(tokens[2], ','))
            &&& request->schedule.days == days_read(tokens[3])->Ok_0
            &&& request->schedule.windows == windows_read(join(tokens.skip(4), ","@))->Ok_0
        }),
{
}

/// What cannot be read leaves the user as they are: nothing at all, days that are
/// none, days without a window, windows that are none.
pub proof fn unreadable_requests_change_nothing(
    user: UserView,
    index: StationIndexView,
    args: Seq<char>,
    format: Format,
    now: Timestamp,
    id: Seq<char>,
)
    requires
        ({
            let t = words(args);
            let k = station_words(t);
            ||| t.len() == 0
            ||| k < t.len() && (days_read(t[k]) is Err || k + 1 == t.len() || windows_read(
                join(t.skip(k + 1), ","@),
            ) is Err)
        }),
    ensures
        subscribed(user, index, args, format, now, id).user == user,
        subscribed(user, index, args, format, now, id).step is Reply,
{
}

// ---------------------------------------------------------------------------
// /unsub
// ---------------------------------------------------------------------------

proof fn lemma_shown_as(subs: Seq<SubscriptionView>, shown: Seq<char>)
    ensures
        0 <= shown_as(subs, shown) <= subs.len(),
        shown_as(subs, shown) < subs.len() ==> subs[shown_as(subs, shown)].display_id == shown,
        forall|i: int|
            0 <= i < shown_as(subs, shown) ==> (#[trigger] subs[i]).display_id != shown,
    decreases subs.len(),
{
    if subs.len() > 0 && subs[0].display_id != shown {
        let rest = subs.drop_first();
        lemma_shown_as(rest, shown);
        assert forall|i: int| 0 <= i < shown_as(subs, shown) implies (
        #[trigger] subs[i]).display_id != shown by {
            if i > 0 {
                assert(rest[i - 1] == subs[i]);
            }
        }
        if shown_as(rest, shown) < rest.len() {
            assert(rest[shown_as(rest, shown)] == subs[shown_as(subs, shown)]);
        }
    }
}

proof fn lemma_without_id(subs: Seq<SubscriptionView>, k: int)
    requires
        0 <= k < subs.len(),
        forall|i: int| 0 <= i < subs.len() && i != k ==> (#[trigger] subs[i]).id != subs[k].id,
    ensures
        without_id(subs, subs[k].id) == subs.remove(k),
    decreases subs.len(),
{
    let t = subs.drop_last();
    let id = subs[k].id;
    if k == subs.len() - 1 {
        assert forall|i: int| 0 <= i < t.len() implies (#[trigger] t[i]).id != id by {
            assert(t[i] == subs[i]);
        }
        lemma_without_id_none(t, id);
        assert(subs.remove(k) =~= t);
    } else {
        assert forall|i: int| 0 <= i < t.len() && i != k implies (#[trigger] t[i]).id != t[k].id by {
            assert(t[i] == subs[i]);
        }
        lemma_without_id(t, k);
        assert(subs[subs.len() - 1].id != id);
        assert(t.remove(k).push(subs.last()) =~= subs.remove(k));
    }
}

proof fn lemma_without_id_none(subs: Seq<SubscriptionView>, id: Seq<char>)
    requires
        forall|i: int| 0 <= i < subs.len() ==> (#[trigger] subs[i]).id != id,
    ensures
        without_id(subs, id) == subs,
    decreases subs.len(),
{
    if subs.len() > 0 {
        let t = subs.drop_last();
        assert forall|i: int| 0 <= i < t.len() implies (#[trigger] t[i]).id != id by {
            assert(t[i] == subs[i]);
        }
        lemma_without_id_none(t, id);
        assert(subs[subs.len() - 1].id != id);
        assert(t.push(subs.last()) =~= subs);
    } else {
        assert(without_id(subs, id) =~= subs);
    }
}

/// `/unsub` with a display ID takes the one subscription that shows it off the
/// list and leaves the rest as it is, in order.
pub proof fn unsub_takes_the_one_that_shows_the_id(user: UserView, arg: Seq<char>, k: int)
    requires
        0 <= k < user.subscriptions.len(),
        user.subscriptions[k].display_id == trim(arg),
        trim(arg).len() > 0,
        !same_ignoring_case(trim(arg), "all"@),
        forall|i: int|
            0 <= i < user.subscriptions.len() && i != k ==> (
            #[trigger] user.subscriptions[i]).display_id != trim(arg)
                && user.subscriptions[i].id != user.subscriptions[k].id,
    ensures
        unsubscribed(user, arg).user.subscriptions == user.subscriptions.remove(k),
        unsubscribed(user, arg).user.key == user.key,
        unsubscribed(user, arg).user.notifications_paused == user.notifications_paused,
        unsubscribed(user, arg).user.paused_until == user.paused_until,
        unsubscribed(user, arg).step is Save,
        unsubscribed(user, arg).step->then is Reply,
        holds(
            unsubscribed(user, arg).step->then->Reply_0,
            escaped(user.subscriptions[k].origin_crs),
        ),
{
    let subs = user.subscriptions;
    lemma_shown_as(subs, trim(arg));
    let m = shown_as(subs, trim(arg));
    if m != k {
        if m < subs.len() {
            assert(subs[m].display_id != trim(arg));
        } else {
            assert(subs[k].display_id != trim(arg));
        }
    }
    lemma_without_id(subs, k);
    let sub = subs[k];
    let text = unsubscribed(user, arg).step->then->Reply_0;
    assert(text =~= ("Removed subscription: "@ + "<code>"@) + escaped(sub.origin_crs)
        + ("</code> \u{2192} "@ + escaped(destinations_text(sub.destination_filter))));
}

/// An ID that no subscription shows changes nothing.
pub proof fn unsub_of_nothing_changes_nothing(user: UserView, arg: Seq<char>)
    requires
        !same_ignoring_case(trim(arg), "all"@),
        forall|i: int|
            0 <= i < user.subscriptions.len() ==> (#[trigger] user.subscriptions[i]).display_id
                != trim(arg),
    ensures
        unsubscribed(user, arg).user == user,
        unsubscribed(user, arg).step is Reply,
{
    lemma_shown_as(user.subscriptions, trim(arg));
}

/// `/unsub all`, in whatever case, takes every subscription off the list, and tells
/// how many they were.
pub proof fn unsub_all_takes_all(user: UserView, arg: Seq<char>)
    requires
        trim(arg).len() > 0,
        same_ignoring_case(trim(arg), "all"@),
    ensures
        unsubscribed(user, arg).user.subscriptions.len() == 0,
        unsubscribed(user, arg).user.key == user.key,
        unsubscribed(user, arg).user.notifications_paused == user.notifications_paused,
        unsubscribed(user, arg).user.paused_until == user.paused_until,
        user.subscriptions.len() > 0 ==> unsubscribed(user, arg).step is Save && unsubscribed(
            user,
            arg,
        ).step->then is Reply && holds(
            unsubscribed(user, arg).step->then->Reply_0,
            decimal(user.subscriptions.len()),
        ),
{
    if user.subscriptions.len() > 0 {
        let n = user.subscriptions.len();
        let end = (if n == 1 {
            ""@
        } else {
            "s"@
        }) + "."@;
        assert(unsubscribed(user, arg).step->then->Reply_0 =~= "Removed "@ + decimal(n) + (
        " subscription"@ + end));
    }
}

// ---------------------------------------------------------------------------
// /subs
// ---------------------------------------------------------------------------

/// The list has a line for every subscription.
pub proof fn every_subscription_is_listed(subs: Seq<SubscriptionView>, now: Timestamp, i: int)
    requires
        0 <= i < subs.len(),
    ensures
        holds(subs_text(subs, now), sub_line(subs[i], now)),
{
    lemma_join_holds(sub_lines(subs, now), "\n"@, i);
    let tail = "\n\nUse <code>/unsub ID</code> to remove one, or <code>/unsub all</code> to remove all."@;
    lemma_holds("Your subscriptions:\n"@, join(sub_lines(subs, now), "\n"@), tail, sub_line(subs[i], now));
}

/// The line of a subscription gives its origin, its destinations, its display ID,
/// and where it has them its days, its windows, and when it expires.
pub proof fn sub_line_gives_everything(s: SubscriptionView, now: Timestamp)
    ensures
        ({
            let line = sub_line(s, now);
            &&& holds(line, escaped(s.origin_crs))
            &&& s.destination_filter.len() == 0 ==> holds(line, escaped("all destinations"@))
            &&& s.destination_filter.len() > 0 ==> holds(
                line,
                escaped(join(s.destination_filter, ", "@)),
            )
            &&& holds(line, escaped(s.display_id))
            &&& s.schedule is Some ==> holds(
                line,
                escaped(
                    " | "@ + days_text(s.schedule->0.days) + " "@ + windows_text(
                        s.schedule->0.windows,
                    ),
                ),
            )
            &&& s.expires_at is Some ==> holds(
                line,
                escaped(
                    " | expires "@ + london_text(s.expires_at->0) + " ("@ + decimal(
                        minutes_left(s.expires_at->0, now),
                    ) + "m)"@,
                ),
            )
        }),
{
    let line = sub_line(s, now);
    let empty = Seq::<char>::empty();
    let a = "\u{2022} <code>"@;
    let b = escaped(s.origin_crs);
    let c = "</code> \u{2192} "@;
    let d = escaped(destinations_text(s.destination_filter));
    let e = "<code>["@;
    let f = escaped(s.display_id);
    let g = "]</code>"@;
    let h = escaped(crate::handlers::commands::schedule_text(s.schedule));
    let k = escaped(crate::handlers::commands::deadline_text(s.expires_at, now));
    assert(line =~= a + b + (c + d + e + f + g + h + k));
    assert(line =~= (a + b + c) + d + (e + f + g + h + k));
    assert(line =~= (a + b + c + d + e) + f + (g + h + k));
    assert(line =~= (a + b + c + d + e + f + g) + h + k);
    assert(line =~= (a + b + c + d + e + f + g + h) + k + empty);
}

// ---------------------------------------------------------------------------
// /pause, /resume, /kill
// ---------------------------------------------------------------------------

/// A number of minutes as it is written is the number that is read.
pub proof fn minutes_read_as_written(n: u64)
    requires
        n > 0,
    ensures
        pause_minutes(decimal(n as nat)) == Some(n),
{
    let s = decimal(n as nat);
    lemma_decimal_reads_back(n as nat);
    lemma_decimal_digits(n as nat);
    assert(is_digit(s[0]));
    assert(is_digit(s[s.len() - 1]));
    lemma_trim_nothing(s);
}

proof fn lemma_decimal_digits(n: nat)
    ensures
        decimal(n).len() > 0,
        all_digits(decimal(n)),
    decreases n,
{
    if n >= 10 {
        lemma_decimal_digits(n / 10);
    }
}

/// `/pause` with a number pauses for as many minutes from now on, and for no
/// longer; whatever pause there was before is over.
pub proof fn timed_pause_is_as_long_as_asked(user: UserView, n: u64, now: Timestamp)
    requires
        0 < n <= i64::MAX,
        now.secs + 60 * n <= i64::MAX,
    ensures
        ({
            let after = paused(user, decimal(n as nat), now).user;
            &&& !after.notifications_paused
            &&& after.paused_until is Some
            &&& after.paused_until->0.secs == now.secs + 60 * n
            &&& after.paused_until->0.nanos == now.nanos
            &&& after.subscriptions == user.subscriptions
            &&& after.key == user.key
        }),
{
    minutes_read_as_written(n);
    let s = decimal(n as nat);
    lemma_decimal_digits(n as nat);
    assert(is_digit(s[0]) && is_digit(s[s.len() - 1]));
    lemma_trim_nothing(s);
}

/// The answer to `/pause` with a number gives that number and the time at which the
/// pause ends.
pub proof fn pause_answer_gives_everything(user: UserView, arg: Seq<char>, now: Timestamp)
    requires
        trim(arg).len() > 0,
        pause_minutes(arg) is Some,
    ensures
        ({
            let after = paused(user, arg, now);
            &&& after.step is Save
            &&& after.step->then is Reply
            &&& holds(after.step->then->Reply_0, decimal(pause_minutes(arg)->0 as nat))
            &&& holds(after.step->then->Reply_0, london_text(after.user.paused_until->0))
        }),
{
    let after = paused(user, arg, now);
    let text = after.step->then->Reply_0;
    let n = decimal(pause_minutes(arg)->0 as nat);
    let at = london_text(after.user.paused_until->0);
    let end = "). Use <code>/resume</code> to restart early."@;
    assert(text =~= "Notifications paused for "@ + n + ("m (until "@ + at + end));
    assert(text =~= ("Notifications paused for "@ + n + "m (until "@) + at + end);
}

/// `/pause` by itself pauses until further notice, and leaves everything else.
pub proof fn bare_pause_has_no_end(user: UserView, arg: Seq<char>, now: Timestamp)
    requires
        trim(arg).len() == 0,
    ensures
        paused(user, arg, now).user.notifications_paused,
        paused(user, arg, now).user.paused_until is None,
        paused(user, arg, now).user.subscriptions == user.subscriptions,
        paused(user, arg, now).user.key == user.key,
{
}

/// A pause of no minutes, or of what is no number, is not made.
pub proof fn senseless_pause_changes_nothing(user: UserView, arg: Seq<char>, now: Timestamp)
    requires
        trim(arg).len() > 0,
        unsigned_value(trim(arg)) is None || unsigned_value(trim(arg)) == Some(0u64),
    ensures
        paused(user, arg, now).user == user,
        paused(user, arg, now).step is Reply,
{
}

/// `/resume` ends both kinds of pause and leaves everything else.
pub proof fn resume_touches_the_pause_only(user: UserView)
    ensures
        !resumed(user).user.notifications_paused,
        resumed(user).user.paused_until is None,
        resumed(user).user.subscriptions == user.subscriptions,
        resumed(user).user.key == user.key,
        resumed(user).user.created_at == user.created_at,
        resumed(user).user.telegram_name == user.telegram_name,
        resumed(user).user.telegram_username == user.telegram_username,
        resumed(user).step is Save,
{
}

/// The service is shut down only where the switch is enabled.
pub proof fn kill_needs_the_switch(enabled: bool)
    ensures
        kill_step(enabled) is Shutdown <==> enabled,
        !enabled ==> kill_step(enabled) is Reply,
{
}

// ---------------------------------------------------------------------------
// /find
// ---------------------------------------------------------------------------

/// The reply to a search names the station by name and code, or lists every
/// candidate by name and code, or repeats what was searched for.
pub proof fn search_reply_names_what_was_found(
    index: StationIndexView,
    query: Seq<char>,
    result: FindResultView,
    i: int,
)
    ensures
        match result {
            FindResultView::Exact(crs) => {
                &&& holds(find_text(index, query, result), escaped(crs))
                &&& value_of(index.by_crs, uppercase(crs)) is Some ==> holds(
                    find_text(index, query, result),
                    escaped(value_of(index.by_crs, uppercase(crs))->0.name),
                )
            },
            FindResultView::Ambiguous(list) => 0 <= i < list.len() ==> {
                &&& holds(find_text(index, query, result), escaped(list[i].0))
                &&& holds(find_text(index, query, result), escaped(list[i].1))
            },
            FindResultView::NotFound => holds(find_text(index, query, result), escaped(query)),
        },
{
    let text = find_text(index, query, result);
    let empty = Seq::<char>::empty();
    match result {
        FindResultView::Exact(crs) => {
            let name = escaped(
                match value_of(index.by_crs, uppercase(crs)) {
                    Some(s) => s.name,
                    None => "Unknown"@,
                },
            );
            let middle = "</b> \u{2014} <code>"@;
            assert(text =~= "Found: <b>"@ + name + (middle + escaped(crs) + "</code>"@));
            assert(text =~= ("Found: <b>"@ + name + middle) + escaped(crs) + "</code>"@);
        },
        FindResultView::Ambiguous(list) => {
            if 0 <= i < list.len() {
                let lines = candidate_lines(list);
                let middle = " \u{2014} <code>"@;
                assert(lines[i] =~= "\u{2022} "@ + escaped(list[i].0) + (middle + escaped(list[i].1)
                    + "</code>"@));
                assert(holds(lines[i], escaped(list[i].0)));
                assert(lines[i] =~= ("\u{2022} "@ + escaped(list[i].0) + middle) + escaped(
                    list[i].1,
                ) + "</code>"@);
                assert(holds(lines[i], escaped(list[i].1)));
                lemma_in_parts(lines, "\n"@, i, escaped(list[i].0));
                lemma_in_parts(lines, "\n"@, i, escaped(list[i].1));
                let all = join(lines, "\n"@);
                assert(text =~= "Multiple matches:\n"@ + all + empty);
                lemma_holds("Multiple matches:\n"@, all, empty, escaped(list[i].0));
                lemma_holds("Multiple matches:\n"@, all, empty, escaped(list[i].1));
            }
        },
        FindResultView::NotFound => {
            assert(text =~= "No station found matching \""@ + escaped(query) + "\"."@);
        },
    }
}

// ---------------------------------------------------------------------------
// Messages
// ---------------------------------------------------------------------------

/// A slash, a name without blanks, a blank and an argument are a command with that
/// name and that argument.
pub proof fn commands_are_taken_apart(name: Seq<char>, arg: Seq<char>)
    requires
        name.len() > 0,
        forall|i: int| 0 <= i < name.len() ==> !is_blank(#[trigger] name[i]),
        arg.len() > 0,
        !is_blank(arg[0]),
        !is_blank(arg.last()),
    ensures
        command_of(seq!['/'] + name + seq![' '] + arg) == Some((name, arg)),
        command_of(seq!['/'] + name) == Some((name, Seq::<char>::empty())),
{
    let text = seq!['/'] + name + seq![' '] + arg;
    assert(text[0] == '/' && text.last() == arg.last());
    lemma_trim_nothing(text);
    let rest = text.skip(1);
    let n = name.len() as int;
    assert forall|i: int| 0 <= i < n implies non_blanks()(#[trigger] rest[i]) by {
        assert(rest[i] == name[i]);
    }
    assert(rest[n] == ' ');
    lemma_run_is(rest, non_blanks(), n);
    assert(rest.take(n) =~= name);
    assert(rest.skip(n + 1) =~= arg);
    lemma_trim_nothing(arg);
    let bare = seq!['/'] + name;
    assert(bare[0] == '/' && bare.last() == name[n - 1]);
    lemma_trim_nothing(bare);
    assert(bare.skip(1) =~= name);
    assert forall|i: int| 0 <= i < n implies non_blanks()(#[trigger] name[i]) by {}
    lemma_run_is(name, non_blanks(), n);
}

/// A message without a slash is no command, and it changes nothing.
pub proof fn other_messages_change_nothing(
    user: UserView,
    state: AppState,
    text: Seq<char>,
    now: Timestamp,
    id: Seq<char>,
)
    requires
        text.len() > 0,
        !is_blank(text[0]),
        !is_blank(text.last()),
        text[0] != '/',
    ensures
        command_of(text) is None,
        handled(user, state, text, now, id).user == user,
        handled(user, state, text, now, id).step is Reply,
{
    lemma_trim_nothing(text);
}

/// Each command does what its name says, whatever the case of the name, and a name
/// that is none does nothing.
pub proof fn commands_do_what_they_say(
    user: UserView,
    state: AppState,
    cmd: Seq<char>,
    args: Seq<char>,
    format: Format,
    now: Timestamp,
    id: Seq<char>,
)
    ensures
        ({
            let name = lowercase(cmd);
            let r = dispatched(user, state, cmd, args, format, now, id);
            let index = state.stations@;
            &&& name == "sub"@ ==> r == subscribed(user, index, args, format, now, id)
            &&& name == "unsub"@ ==> r == unsubscribed(user, args)
            &&& name == "pause"@ ==> r == paused(user, args, now)
            &&& name == "resume"@ ==> r == resumed(user)
            &&& name == "subs"@ ==> r.step == StepView::Reply(
                subs_text(user.subscriptions, now),
            )
            &&& name == "kill"@ ==> r.step == kill_step(state.kill_switch_enabled)
            &&& name == "now"@ ==> r.step == now_step(
                index,
                args,
                format,
                "Usage: /now CRS [to CRS]"@,
            )
            &&& name != "sub"@ && name != "unsub"@ && name != "pause"@ && name != "resume"@
                ==> r.user == user
            &&& name != "kill"@ ==> !(r.step is Shutdown)
        }),
{
    reveal_strlit("help");
    reveal_strlit("find");
    reveal_strlit("now");
    reveal_strlit("sub");
    reveal_strlit("unsub");
    reveal_strlit("subs");
    reveal_strlit("pause");
    reveal_strlit("resume");
    reveal_strlit("kill");
    assert("help"@[0] == 'h' && "find"@[0] == 'f' && "kill"@[0] == 'k' && "subs"@[0] == 's');
    assert("pause"@[0] == 'p' && "unsub"@[0] == 'u' && "now"@[0] == 'n' && "sub"@[0] == 's');
    assert("subs"@.len() == 4 && "sub"@.len() == 3 && "resume"@[0] == 'r');
    let index = state.stations@;
    assert(!(subscribed(user, index, args, format, now, id).step is Shutdown)) by {
        match sub_request(words(args)) {
            SubRequest::Temporary { origin, destinations } => {
                assert(!(watched(user, index, origin, destinations, format, now, id).step is Shutdown));
            },
            SubRequest::Scheduled { origin, destinations, schedule } => {
                assert(!(scheduled_sub(user, index, origin, destinations, schedule, now, id).step
                    is Shutdown));
            },
            _ => {},
        }
    }
    assert(!(unsubscribed(user, args).step is Shutdown));
    assert(!(now_step(index, args, format, "Usage: /now CRS [to CRS]"@) is Shutdown));
}

/// `/now` asks for the board of the first word, and behind a `to` for the trains to
/// the third, in upper case.
pub proof fn now_asks_for_the_board(
    index: StationIndexView,
    args: Seq<char>,
    format: Format,
    usage: Seq<char>,
)
    requires
        words(args).len() > 0,
        uppercase(words(args)[0]).len() > 0,
    ensures
        match now_step(index, args, format, usage) {
            StepView::Fetch { intro, query } => {
                let t = words(args);
                &&& intro is None
                &&& query.origin_crs == uppercase(t[0])
                &&& query.format == format
                &&& t.len() >= 3 && same_ignoring_case(t[1], "to"@) ==> query.destinations.len() == 1
                    && query.destinations[0] == uppercase(t[2])
                &&& t.len() < 3 ==> query.destinations.len() == 0
                &&& t.len() >= 3 && !same_ignoring_case(t[1], "to"@) ==> query.destinations.len() == 0
            },
            StepView::Reply(_) => true,
            _ => false,
        },
{
}

/// A user who could not be saved is told so with the error; one who was gets the
/// confirmation, and the board where one was asked for.
pub proof fn saving_decides_the_reply(
    then: ThenView,
    failed: Seq<char>,
    error: Seq<char>,
    index: StationIndexView,
)
    ensures
        step_after_saving(then, failed, Err(error), index) == StepView::Reply(
            failed + escaped(error),
        ),
        then is Reply ==> step_after_saving(then, failed, Ok(()), index) == StepView::Reply(
            then->Reply_0,
        ),
        then is Board && code_problem(
            index,
            then->query.origin_crs,
            then->query.destinations,
        ) is None ==> step_after_saving(then, failed, Ok(()), index) == (StepView::Fetch {
            intro: Some(then->confirmed),
            query: then->query,
        }),
{
}

/// Users on Telegram get answers that are marked up, and users on SMS plain ones.
pub proof fn channel_decides_the_format(
    user: UserView,
    state: AppState,
    text: Seq<char>,
    cmd: Seq<char>,
    args: Seq<char>,
    now: Timestamp,
    id: Seq<char>,
)
    requires
        command_of(text) == Some((cmd, args)),
    ensures
        user.key.channel == Channel::Telegram ==> handled(user, state, text, now, id) == dispatched(
            user,
            state,
            cmd,
            args,
            Format::Html,
            now,
            id,
        ),
        user.key.channel == Channel::Twilio ==> handled(user, state, text, now, id) == dispatched(
            user,
            state,
            cmd,
            args,
            Format::Plain,
            now,
            id,
        ),
{
}

/// `to` with nothing behind it asks for all destinations.
pub proof fn bare_to_means_all_destinations(origin: Seq<char>, to: Seq<char>)
    requires
        same_ignoring_case(to, "to"@),
    ensures
        sub_request(seq![origin, to]) is Temporary,
        sub_request(seq![origin, to])->Temporary_origin == uppercase(origin),
        sub_request(seq![origin, to])->Temporary_destinations.len() == 0,
{
}

/// The confirmation of a scheduled subscription gives its origin and each of its
/// destinations.
pub proof fn schedule_confirmation_gives_the_stations(
    shown: Seq<char>,
    origin: Seq<char>,
    destinations: Seq<Seq<char>>,
    schedule: ScheduleView,
    i: int,
)
    ensures
        holds(scheduled_text(shown, origin, destinations, schedule), escaped(origin)),
        destinations.len() == 0 ==> holds(
            scheduled_text(shown, origin, destinations, schedule),
            "all destinations"@,
        ),
        0 <= i < destinations.len() ==> holds(
            scheduled_text(shown, origin, destinations, schedule),
            escaped(destinations[i]),
        ),
{
    let text = scheduled_text(shown, origin, destinations, schedule);
    let a = "Scheduled subscription added <code>["@ + escaped(shown) + "]</code>:\n<code>"@;
    let b = "</code> \u{2192} "@;
    let codes = code_texts(destinations);
    let to = if destinations.len() == 0 {
        "all destinations"@
    } else {
        join(codes, ", "@)
    };
    let end = " | "@ + escaped(days_text(schedule.days)) + " "@ + escaped(
        windows_text(schedule.windows),
    );
    assert(text =~= a + escaped(origin) + (b + to + end));
    assert(text =~= (a + escaped(origin) + b) + to + end);
    if 0 <= i < destinations.len() {
        assert(codes[i] =~= "<code>"@ + escaped(destinations[i]) + "</code>"@);
        lemma_in_parts(codes, ", "@, i, escaped(destinations[i]));
        lemma_holds(a + escaped(origin) + b, to, end, escaped(destinations[i]));
    }
}

/// The answer to `/unsub` gives the destinations of what was removed, and the one to
/// an ID that nothing shows repeats the ID.
pub proof fn unsub_answer_gives_everything(user: UserView, arg: Seq<char>)
    requires
        trim(arg).len() > 0,
        !same_ignoring_case(trim(arg), "all"@),
    ensures
        ({
            let r = unsubscribed(user, arg);
            let k = shown_as(user.subscriptions, trim(arg));
            &&& r.step is Reply ==> holds(r.step->Reply_0, escaped(trim(arg)))
            &&& r.step is Save ==> user.subscriptions[k].display_id == trim(arg) && holds(
                r.step->then->Reply_0,
                escaped(
                    if user.subscriptions[k].destination_filter.len() == 0 {
                        "all destinations"@
                    } else {
                        join(user.subscriptions[k].destination_filter, ", "@)
                    },
                ),
            )
        }),
{
    let k = shown_as(user.subscriptions, trim(arg));
    let r = unsubscribed(user, arg);
    let empty = Seq::<char>::empty();
    lemma_shown_as(user.subscriptions, trim(arg));
    if k < user.subscriptions.len() {
        let sub = user.subscriptions[k];
        let to = escaped(destinations_text(sub.destination_filter));
        assert(r.step->then->Reply_0 =~= ("Removed subscription: "@ + ("<code>"@ + escaped(
            sub.origin_crs,
        ) + "</code> \u{2192} "@)) + to + empty);
    }
}

/// Queries that come to the same form and spell out no code find the same.
pub proof fn same_names_find_the_same(
    index: StationIndexView,
    a: Seq<char>,
    b: Seq<char>,
)
    requires
        normalised(a) == normalised(b),
        code_in_query(a) is None,
        code_in_query(b) is None,
    ensures
        find_reply(index, a) == find_reply(index, b) || (holds(find_reply(index, a), escaped(a))
            && holds(find_reply(index, b), escaped(b))),
{
    let scores = skim_scores(index.all, normalised(a));
    let result = found(index, a, scores);
    assert(result == found(index, b, scores));
    search_reply_names_what_was_found(index, a, result, 0);
    search_reply_names_what_was_found(index, b, result, 0);
}

} // verus!
