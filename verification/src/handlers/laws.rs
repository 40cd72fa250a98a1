//! What the commands keep, and what they undo.

use crate::channel::telegram::{commanded, CommandView};
use crate::clock::{is_later, Timestamp};
use crate::domain::subscription::{
    distinct_display_ids, new_display_id_is_unique, next_id, next_id_is_smallest,
};
use crate::domain::{ScheduleView, SubscriptionView, UserView};
use crate::handlers::commands::{
    covered, covered_by, default_deadline, pause_end, pause_minutes, paused, reply, resumed,
    scheduled, scheduled_sub, shown_as, sub_request, subscribed, temporary, unsubscribed, watched,
    without_id, SubRequest,
};
use crate::handlers::departures::{code_problem, Format};
use crate::handlers::{command_of, dispatched, handled, AppState};
use crate::stations::StationIndexView;
use crate::text::{same_ignoring_case, trim, words};
use vstd::prelude::*;

verus! {

proof fn lemma_without_id_distinct(subs: Seq<SubscriptionView>, id: Seq<char>)
    requires
        distinct_display_ids(subs),
    ensures
        distinct_display_ids(without_id(subs, id)),
        forall|i: int|
            0 <= i < without_id(subs, id).len() ==> subs.contains(
                #[trigger] without_id(subs, id)[i],
            ),
    decreases subs.len(),
{
    if subs.len() > 0 {
        let t = subs.drop_last();
        lemma_without_id_distinct(t, id);
        let rest = without_id(t, id);
        let r = without_id(subs, id);
        assert forall|i: int| 0 <= i < r.len() implies subs.contains(#[trigger] r[i]) by {
            if i < rest.len() {
                assert(t.contains(rest[i]));
                let k = choose|k: int| 0 <= k < t.len() && t[k] == rest[i];
                assert(subs[k] == r[i]);
            } else {
                assert(subs[subs.len() - 1] == r[i]);
            }
        }
        assert forall|i: int, j: int| 0 <= i < j < r.len() implies (#[trigger] r[i]).display_id != (
        #[trigger] r[j]).display_id by {
            if j == rest.len() {
                assert(t.contains(rest[i]));
                let k = choose|k: int| 0 <= k < t.len() && t[k] == rest[i];
                assert(subs[k].display_id != subs[subs.len() - 1].display_id);
            }
        }
    }
}

proof fn lemma_new_subscription(subs: Seq<SubscriptionView>, added: SubscriptionView)
    requires
        distinct_display_ids(subs),
        next_id(subs) == Some(added.display_id),
    ensures
        distinct_display_ids(subs.push(added)),
{
    next_id_is_smallest(subs);
    new_display_id_is_unique(subs, added.display_id, added);
}

/// The same person, and display IDs that are still distinct.
spec fn still_sound(user: UserView, after: UserView) -> bool {
    &&& after.key == user.key
    &&& after.version == user.version
    &&& after.created_at == user.created_at
    &&& distinct_display_ids(user.subscriptions) ==> distinct_display_ids(after.subscriptions)
}

proof fn lemma_watched(
    user: UserView,
    index: StationIndexView,
    origin: Seq<char>,
    destinations: Seq<Seq<char>>,
    format: Format,
    now: Timestamp,
    id: Seq<char>,
)
    ensures
        still_sound(user, watched(user, index, origin, destinations, format, now, id).user),
{
    let subs = user.subscriptions;
    if distinct_display_ids(subs) && next_id(subs) is Some {
        lemma_new_subscription(subs, temporary(next_id(subs)->0, origin, destinations, now, id));
    }
}

proof fn lemma_scheduled(
    user: UserView,
    index: StationIndexView,
    origin: Seq<char>,
    destinations: Seq<Seq<char>>,
    schedule: ScheduleView,
    now: Timestamp,
    id: Seq<char>,
)
    ensures
        still_sound(
            user,
            scheduled_sub(user, index, origin, destinations, schedule, now, id).user,
        ),
{
    let subs = user.subscriptions;
    if distinct_display_ids(subs) && next_id(subs) is Some {
        lemma_new_subscription(
            subs,
            scheduled(next_id(subs)->0, origin, destinations, schedule, now, id),
        );
    }
}

proof fn lemma_subscribed(
    user: UserView,
    index: StationIndexView,
    args: Seq<char>,
    format: Format,
    now: Timestamp,
    id: Seq<char>,
)
    ensures
        still_sound(user, subscribed(user, index, args, format, now, id).user),
{
    match sub_request(words(args)) {
        SubRequest::Temporary { origin, destinations } => {
            lemma_watched(user, index, origin, destinations, format, now, id);
        },
        SubRequest::Scheduled { origin, destinations, schedule } => {
            lemma_scheduled(user, index, origin, destinations, schedule, now, id);
        },
        _ => {},
    }
}

proof fn lemma_unsubscribed(user: UserView, arg: Seq<char>)
    ensures
        still_sound(user, unsubscribed(user, arg).user),
{
    let subs = user.subscriptions;
    let k = shown_as(subs, trim(arg));
    if distinct_display_ids(subs) {
        lemma_without_id_distinct(subs, subs[k].id);
    }
}

proof fn lemma_dispatched(
    user: UserView,
    state: AppState,
    cmd: Seq<char>,
    args: Seq<char>,
    format: Format,
    now: Timestamp,
    id: Seq<char>,
)
    ensures
        still_sound(user, dispatched(user, state, cmd, args, format, now, id).user),
{
    lemma_subscribed(user, state.stations@, args, format, now, id);
    lemma_unsubscribed(user, args);
    assert(still_sound(user, paused(user, args, now).user));
    assert(still_sound(user, resumed(user).user));
    lemma_dispatch_cases(user, state, cmd, args, format, now, id);
}

/// What a command can make of a user.
proof fn lemma_dispatch_cases(
    user: UserView,
    state: AppState,
    cmd: Seq<char>,
    args: Seq<char>,
    format: Format,
    now: Timestamp,
    id: Seq<char>,
)
    ensures
        ({
            let after = dispatched(user, state, cmd, args, format, now, id).user;
            ||| after == user
            ||| after == subscribed(user, state.stations@, args, format, now, id).user
            ||| after == unsubscribed(user, args).user
            ||| after == paused(user, args, now).user
            ||| after == resumed(user).user
        }),
{
}

/// Whatever a user sends, no two of their subscriptions come to share a display ID.
pub proof fn display_ids_stay_distinct(
    user: UserView,
    state: AppState,
    text: Seq<char>,
    now: Timestamp,
    id: Seq<char>,
)
    requires
        distinct_display_ids(user.subscriptions),
    ensures
        distinct_display_ids(handled(user, state, text, now, id).user.subscriptions),
{
    if let Some((cmd, args)) = command_of(text) {
        lemma_dispatched(user, state, cmd, args, Format::of(user.key.channel), now, id);
    }
}

/// The same of the commands that Telegram parses.
pub proof fn commands_keep_display_ids_distinct(
    user: UserView,
    state: AppState,
    cmd: CommandView,
    descriptions: Seq<char>,
    now: Timestamp,
    id: Seq<char>,
)
    requires
        distinct_display_ids(user.subscriptions),
    ensures
        distinct_display_ids(
            commanded(user, state, cmd, descriptions, now, id).user.subscriptions,
        ),
{
    match cmd {
        CommandView::Sub(args) => {
            lemma_subscribed(user, state.stations@, args, Format::Html, now, id);
        },
        CommandView::Unsub(arg) => {
            lemma_unsubscribed(user, arg);
        },
        _ => {},
    }
}

/// Whatever a user sends, who they are stays the same.
pub proof fn identity_stays(
    user: UserView,
    state: AppState,
    text: Seq<char>,
    now: Timestamp,
    id: Seq<char>,
)
    ensures
        handled(user, state, text, now, id).user.key == user.key,
        handled(user, state, text, now, id).user.version == user.version,
        handled(user, state, text, now, id).user.created_at == user.created_at,
{
    if let Some((cmd, args)) = command_of(text) {
        lemma_dispatched(user, state, cmd, args, Format::of(user.key.channel), now, id);
    }
}

/// After `/resume` notifications are not paused, at any time.
pub proof fn resume_ends_the_pause(user: UserView, at: Timestamp)
    ensures
        !resumed(user).user.paused_at(at),
{
}

/// After `/pause` without a number notifications are paused, at any time.
pub proof fn pause_lasts(user: UserView, arg: Seq<char>, now: Timestamp, at: Timestamp)
    requires
        trim(arg).len() == 0,
    ensures
        paused(user, arg, now).user.paused_at(at),
{
}

/// After `/pause` with a number notifications are paused until the minutes are over.
pub proof fn timed_pause_lasts(user: UserView, arg: Seq<char>, now: Timestamp, at: Timestamp)
    requires
        trim(arg).len() > 0,
        pause_minutes(arg) is Some,
    ensures
        paused(user, arg, now).user.paused_at(at) <==> is_later(
            pause_end(now, pause_minutes(arg)->0),
            at,
        ),
{
}

/// A temporary subscription expires when its minutes are over, not before.
pub proof fn temporary_subscription_expires(
    display_id: Seq<char>,
    origin: Seq<char>,
    destinations: Seq<Seq<char>>,
    now: Timestamp,
    id: Seq<char>,
    at: Timestamp,
)
    ensures
        temporary(display_id, origin, destinations, now, id).expired_at(at) <==> !is_later(
            default_deadline(now),
            at,
        ),
        temporary(display_id, origin, destinations, now, id).active_at(at),
{
}

/// A scheduled subscription never expires.
pub proof fn scheduled_subscription_stays(
    display_id: Seq<char>,
    origin: Seq<char>,
    destinations: Seq<Seq<char>>,
    schedule: ScheduleView,
    now: Timestamp,
    id: Seq<char>,
    at: Timestamp,
)
    ensures
        !scheduled(display_id, origin, destinations, schedule, now, id).expired_at(at),
{
}

/// A request that comes when every display ID is taken is refused, and the user
/// stays as they are.
pub proof fn full_list_stays(
    user: UserView,
    index: StationIndexView,
    origin: Seq<char>,
    destinations: Seq<Seq<char>>,
    schedule: ScheduleView,
    format: Format,
    now: Timestamp,
    id: Seq<char>,
)
    requires
        next_id(user.subscriptions) is None,
    ensures
        watched(user, index, origin, destinations, format, now, id).user == user,
        scheduled_sub(user, index, origin, destinations, schedule, now, id).user == user,
{
}

/// A request with a code that is not that of a station is answered with what is
/// wrong, and the user stays as they are.
pub proof fn unknown_station_changes_nothing(
    user: UserView,
    index: StationIndexView,
    origin: Seq<char>,
    destinations: Seq<Seq<char>>,
    schedule: ScheduleView,
    format: Format,
    now: Timestamp,
    id: Seq<char>,
)
    requires
        code_problem(index, origin, destinations) is Some,
    ensures
        watched(user, index, origin, destinations, format, now, id) == reply(
            user,
            code_problem(index, origin, destinations)->0,
        ),
        scheduled_sub(user, index, origin, destinations, schedule, now, id) == reply(
            user,
            code_problem(index, origin, destinations)->0,
        ),
{
}

proof fn lemma_covered_by_last(
    subs: Seq<SubscriptionView>,
    added: SubscriptionView,
    origin: Seq<char>,
    destinations: Seq<Seq<char>>,
)
    requires
        covered_by(added, origin, destinations) is Some,
    ensures
        covered(subs.push(added), origin, destinations) is Some,
    decreases subs.len(),
{
    let all = subs.push(added);
    if subs.len() > 0 {
        lemma_covered_by_last(subs.drop_first(), added, origin, destinations);
        assert(all.drop_first() =~= subs.drop_first().push(added));
    } else {
        assert(all[0] == added);
    }
}

/// Who watches something already is told so: asking for the same again changes nothing.
pub proof fn no_second_watch(
    user: UserView,
    index: StationIndexView,
    origin: Seq<char>,
    destinations: Seq<Seq<char>>,
    format: Format,
    now: Timestamp,
    id: Seq<char>,
    later: Timestamp,
    other_id: Seq<char>,
)
    ensures
        ({
            let once = watched(user, index, origin, destinations, format, now, id).user;
            watched(once, index, origin, destinations, format, later, other_id).user == once
        }),
{
    let subs = user.subscriptions;
    let added = temporary(next_id(subs)->0, origin, destinations, now, id);
    assert(covered_by(added, origin, destinations) is Some);
    lemma_covered_by_last(subs, added, origin, destinations);
}

proof fn lemma_id_gone(subs: Seq<SubscriptionView>, id: Seq<char>, s: SubscriptionView)
    ensures
        without_id(subs, id).contains(s) <==> subs.contains(s) && s.id != id,
    decreases subs.len(),
{
    if subs.len() > 0 {
        let t = subs.drop_last();
        let rest = without_id(t, id);
        let r = without_id(subs, id);
        lemma_id_gone(t, id, s);
        if subs.contains(s) && s.id != id {
            let k = choose|k: int| 0 <= k < subs.len() && subs[k] == s;
            if k < t.len() {
                assert(t[k] == s);
                let j = choose|j: int| 0 <= j < rest.len() && rest[j] == s;
                assert(r[j] == s);
            } else {
                assert(r[r.len() - 1] == s);
            }
        }
        if r.contains(s) {
            let k = choose|k: int| 0 <= k < r.len() && r[k] == s;
            if k < rest.len() {
                assert(rest[k] == s);
                let j = choose|j: int| 0 <= j < t.len() && t[j] == s;
                assert(subs[j] == s);
            } else {
                assert(subs[subs.len() - 1] == s);
            }
        }
    }
}

/// `/unsub` with a display ID takes away the subscription that shows it, and
/// leaves every subscription with another ID.
pub proof fn unsub_removes_one(user: UserView, arg: Seq<char>, s: SubscriptionView)
    requires
        trim(arg).len() > 0,
        !same_ignoring_case(trim(arg), "all"@),
        shown_as(user.subscriptions, trim(arg)) < user.subscriptions.len(),
    ensures
        ({
            let gone = user.subscriptions[shown_as(user.subscriptions, trim(arg))];
            unsubscribed(user, arg).user.subscriptions.contains(s) <==> user.subscriptions.contains(
                s,
            ) && s.id != gone.id
        }),
{
    let gone = user.subscriptions[shown_as(user.subscriptions, trim(arg))];
    lemma_id_gone(user.subscriptions, gone.id, s);
}

} // verus!
