//! What a user is told, and what not.

use crate::board::{html_lines, plain_row, status};
use crate::clock::Timestamp;
use crate::darwin::ServiceView;
use crate::domain::laws::{
    nothing_else_is_wanted, wanted_call_is_enough, wider_filter_wants_more,
};
use crate::domain::{Channel, SubscriptionView, UserView};
use crate::markup::escaped;
use crate::poller::diff::{
    before, change_kinds, changes, changes_of, digest, digest_row, digest_rows, digest_text,
    of_origin, origins, reason, section, section_texts, sections, shown, stops_for, stops_to,
    ChangeKind, SectionView, ServiceChangeView, ServiceSnapshot, Snapshots,
};
use crate::poller::window::{window_is_no_larger, window_is_part_of_the_view};
use crate::poller::{
    active, after_expiry, boards, boards_are_fetched_once, boards_of, changed_ids, distinct_calls,
    every_change_is_told, expired, ids, is_wanted, lemma_expired, lemma_origins, lemma_wanted,
    lemma_with_boards, lemma_with_calls, notification, station_names, user_view, wanted_services,
    watchers, with_boards, with_services, without_ids, CallKeyView, Seen, WatcherView,
};
use crate::sorting::{sorted, sorting_keeps_the_values, sorting_puts_in_order};
use crate::stations::StationIndexView;
use crate::table::{lookup_after_insertion, value_of};
use crate::text::{
    holds, join, lemma_holds, lemma_in_parts, lemma_join_holds, lex_le, starts_with, text_position,
};
use vstd::prelude::*;
use vstd::string::*;

verus! {

// ---------------------------------------------------------------------------
// Who is told
// ---------------------------------------------------------------------------

/// The active subscriptions are those among the user's own that are active.
pub proof fn active_ones_are_selected(
    subs: Seq<SubscriptionView>,
    now: Timestamp,
    sub: SubscriptionView,
)
    ensures
        active(subs, now).contains(sub) <==> subs.contains(sub) && sub.active_at(now),
    decreases subs.len(),
{
    if subs.len() > 0 {
        let t = subs.drop_last();
        let rest = active(t, now);
        let r = active(subs, now);
        active_ones_are_selected(t, now, sub);
        if subs.contains(sub) && sub.active_at(now) {
            let k = choose|k: int| 0 <= k < subs.len() && subs[k] == sub;
            if k < t.len() {
                assert(t[k] == sub);
                let j = choose|j: int| 0 <= j < rest.len() && rest[j] == sub;
                assert(r[j] == sub);
            } else {
                assert(r[r.len() - 1] == sub);
            }
        }
        if r.contains(sub) {
            let k = choose|k: int| 0 <= k < r.len() && r[k] == sub;
            if k < rest.len() {
                assert(rest[k] == sub);
                let j = choose|j: int| 0 <= j < t.len() && t[j] == sub;
                assert(subs[j] == sub);
            } else {
                assert(subs[subs.len() - 1] == sub);
            }
        }
    }
}

/// Every user who is not paused and has an active subscription is watched for,
/// with all of their active subscriptions.
pub proof fn every_listener_is_watched_for(
    users: Seq<UserView>,
    now: Timestamp,
    i: int,
    sub: SubscriptionView,
)
    requires
        0 <= i < users.len(),
        !users[i].paused_at(now),
        users[i].subscriptions.contains(sub),
        sub.active_at(now),
    ensures
        exists|k: int|
            0 <= k < watchers(users, now).len() && (#[trigger] watchers(users, now)[k]).key
                == users[i].key && watchers(users, now)[k].subscriptions.contains(sub),
    decreases users.len(),
{
    let t = users.drop_last();
    let rest = watchers(t, now);
    let r = watchers(users, now);
    if i < t.len() {
        every_listener_is_watched_for(t, now, i, sub);
        let k = choose|k: int|
            0 <= k < rest.len() && (#[trigger] rest[k]).key == users[i].key
                && rest[k].subscriptions.contains(sub);
        assert(r[k] == rest[k]);
    } else {
        active_ones_are_selected(users[i].subscriptions, now, sub);
        assert(r[r.len() - 1].key == users[i].key);
    }
}

/// Nobody else is watched for: each watcher is a user who is not paused, and only
/// subscriptions of that user that are active count.
pub proof fn only_listeners_are_watched_for(users: Seq<UserView>, now: Timestamp, k: int)
    requires
        0 <= k < watchers(users, now).len(),
    ensures
        watchers(users, now)[k].subscriptions.len() > 0,
        exists|i: int|
            {
                &&& 0 <= i < users.len()
                &&& (#[trigger] users[i]).key == watchers(users, now)[k].key
                &&& !users[i].paused_at(now)
                &&& forall|sub: SubscriptionView| #[trigger]
                    watchers(users, now)[k].subscriptions.contains(sub)
                        <==> users[i].subscriptions.contains(sub) && sub.active_at(now)
            },
    decreases users.len(),
{
    let t = users.drop_last();
    let rest = watchers(t, now);
    let w = watchers(users, now)[k];
    if k < rest.len() {
        only_listeners_are_watched_for(t, now, k);
        let i = choose|i: int|
            {
                &&& 0 <= i < t.len()
                &&& (#[trigger] t[i]).key == rest[k].key
                &&& !t[i].paused_at(now)
                &&& forall|sub: SubscriptionView| #[trigger]
                    rest[k].subscriptions.contains(sub) <==> t[i].subscriptions.contains(sub)
                        && sub.active_at(now)
            };
        assert(users[i] == t[i]);
    } else {
        let user = users[users.len() - 1];
        assert(w.key == user.key);
        assert forall|sub: SubscriptionView| #[trigger]
            w.subscriptions.contains(sub) <==> user.subscriptions.contains(sub) && sub.active_at(
                now,
            ) by {
            active_ones_are_selected(user.subscriptions, now, sub);
        }
    }
}

// ---------------------------------------------------------------------------
// Which boards are fetched
// ---------------------------------------------------------------------------

/// A subscription needs the board of its origin, unless it has a filter that is
/// left to Darwin; then it needs one board for each destination in the filter.
pub proof fn boards_that_a_subscription_needs(
    sub: SubscriptionView,
    filter_at_api: bool,
    call: CallKeyView,
)
    ensures
        boards_of(sub, filter_at_api).contains(call) <==> {
            &&& call.origin_crs == sub.origin_crs
            &&& if filter_at_api && sub.destination_filter.len() > 0 {
                call.destination is Some && sub.destination_filter.contains(call.destination->0)
            } else {
                call.destination is None
            }
        },
{
    let all = boards_of(sub, filter_at_api);
    if all.contains(call) {
        let k = choose|k: int| 0 <= k < all.len() && all[k] == call;
        if filter_at_api && sub.destination_filter.len() > 0 {
            assert(sub.destination_filter[k] == call.destination->0);
        }
    }
    if filter_at_api && sub.destination_filter.len() > 0 {
        if call.origin_crs == sub.origin_crs && call.destination is Some
            && sub.destination_filter.contains(call.destination->0) {
            let k = choose|k: int|
                0 <= k < sub.destination_filter.len() && sub.destination_filter[k]
                    == call.destination->0;
            assert(all[k] == call);
        }
    } else if call.origin_crs == sub.origin_crs && call.destination is None {
        assert(all[0] == call);
    }
}

proof fn lemma_boards_come_from(
    calls: Seq<CallKeyView>,
    subs: Seq<SubscriptionView>,
    filter_at_api: bool,
    call: CallKeyView,
)
    requires
        distinct_calls(calls),
        with_boards(calls, subs, filter_at_api).contains(call),
    ensures
        calls.contains(call) || exists|j: int|
            0 <= j < subs.len() && boards_of(#[trigger] subs[j], filter_at_api).contains(call),
    decreases subs.len(),
{
    if subs.len() > 0 {
        let t = subs.drop_last();
        let prior = with_boards(calls, t, filter_at_api);
        lemma_with_boards(calls, t, filter_at_api);
        lemma_with_calls(prior, boards_of(subs.last(), filter_at_api));
        if prior.contains(call) {
            lemma_boards_come_from(calls, t, filter_at_api, call);
            if !calls.contains(call) {
                let j = choose|j: int|
                    0 <= j < t.len() && boards_of(#[trigger] t[j], filter_at_api).contains(call);
                assert(subs[j] == t[j]);
            }
        } else {
            assert(boards_of(subs[subs.len() - 1], filter_at_api).contains(call));
        }
    }
}

/// No board is fetched that no active subscription needs.
pub proof fn no_board_is_fetched_in_vain(
    all: Seq<WatcherView>,
    filter_at_api: bool,
    call: CallKeyView,
)
    requires
        boards(all, filter_at_api).contains(call),
    ensures
        exists|i: int, j: int|
            0 <= i < all.len() && 0 <= j < all[i].subscriptions.len() && boards_of(
                #[trigger] all[i].subscriptions[j],
                filter_at_api,
            ).contains(call),
    decreases all.len(),
{
    if all.len() > 0 {
        let t = all.drop_last();
        boards_are_fetched_once(t, filter_at_api);
        lemma_boards_come_from(
            boards(t, filter_at_api),
            all.last().subscriptions,
            filter_at_api,
            call,
        );
        if boards(t, filter_at_api).contains(call) {
            no_board_is_fetched_in_vain(t, filter_at_api, call);
            let (i, j) = choose|i: int, j: int|
                0 <= i < t.len() && 0 <= j < t[i].subscriptions.len() && boards_of(
                    #[trigger] t[i].subscriptions[j],
                    filter_at_api,
                ).contains(call);
            assert(all[i].subscriptions[j] == t[i].subscriptions[j]);
        } else {
            let subs = all.last().subscriptions;
            let j = choose|j: int|
                0 <= j < subs.len() && boards_of(#[trigger] subs[j], filter_at_api).contains(call);
            assert(all[all.len() - 1].subscriptions[j] == subs[j]);
        }
    }
}

/// What was fetched last of a service is what stands on the map, and services that
/// were not on the board stay as they were.
pub proof fn latest_board_counts(map: Snapshots, services: Seq<ServiceView>, i: int, id: Seq<char>)
    requires
        0 <= i < services.len(),
        forall|j: int| i < j < services.len() ==> (#[trigger] services[j]).service_id
            != services[i].service_id,
        forall|j: int| 0 <= j < services.len() ==> (#[trigger] services[j]).service_id != id,
    ensures
        value_of(with_services(map, services), services[i].service_id) == Some(services[i]),
        value_of(with_services(map, services), id) == value_of(map, id),
    decreases services.len(),
{
    let t = services.drop_last();
    let s = services.last();
    let prior = with_services(map, t);
    assert(services[services.len() - 1] == s);
    lookup_after_insertion(prior, s.service_id, s, id);
    lookup_after_insertion(prior, s.service_id, s, services[i].service_id);
    if t.len() > 0 {
        let k = if i < t.len() {
            i
        } else {
            t.len() - 1
        };
        assert forall|j: int| k < j < t.len() implies (#[trigger] t[j]).service_id
            != t[k].service_id by {
            assert(services[j].service_id == t[j].service_id);
        }
        assert forall|j: int| 0 <= j < t.len() implies (#[trigger] t[j]).service_id != id by {
            assert(services[j].service_id == t[j].service_id);
        }
        latest_board_counts(map, t, k, id);
    }
}

// ---------------------------------------------------------------------------
// What is on a user's view
// ---------------------------------------------------------------------------

/// A service that calls at one station of the filter of one subscription from its
/// origin is on the view of the user.
pub proof fn wanted_call_is_on_the_view(
    map: Snapshots,
    subs: Seq<SubscriptionView>,
    p: (Seq<char>, ServiceView),
    k: int,
    i: int,
    j: int,
)
    requires
        map.contains(p),
        0 <= k < subs.len(),
        subs[k].origin_crs == p.1.origin_crs,
        0 <= i < subs[k].destination_filter.len(),
        0 <= j < p.1.calling_point_crs.len(),
        subs[k].destination_filter[i] == p.1.calling_point_crs[j],
    ensures
        wanted_services(map, subs).contains(p),
{
    wanted_call_is_enough(subs[k], p.1.destination_crs, p.1.calling_point_crs, i, j);
    assert(subs[k].wants(p.1.origin_crs, p.1.destination_crs, p.1.calling_point_crs));
    lemma_wanted(map, subs, p);
}

/// So is one that ends at a station of the filter, and without a filter any
/// service from the origin.
pub proof fn wanted_terminus_is_on_the_view(
    map: Snapshots,
    subs: Seq<SubscriptionView>,
    p: (Seq<char>, ServiceView),
    k: int,
)
    requires
        map.contains(p),
        0 <= k < subs.len(),
        subs[k].origin_crs == p.1.origin_crs,
        subs[k].destination_filter.len() == 0 || subs[k].destination_filter.contains(
            p.1.destination_crs,
        ),
    ensures
        wanted_services(map, subs).contains(p),
{
    assert(subs[k].wants(p.1.origin_crs, p.1.destination_crs, p.1.calling_point_crs));
    lemma_wanted(map, subs, p);
}

/// Nothing else is on the view: each service there was fetched, leaves from the
/// origin of a subscription, and goes where that subscription's filter says.
pub proof fn nothing_else_is_on_the_view(
    map: Snapshots,
    subs: Seq<SubscriptionView>,
    p: (Seq<char>, ServiceView),
)
    requires
        wanted_services(map, subs).contains(p),
    ensures
        map.contains(p),
        exists|k: int|
            {
                &&& 0 <= k < subs.len()
                &&& (#[trigger] subs[k]).origin_crs == p.1.origin_crs
                &&& subs[k].destination_filter.len() == 0 || exists|i: int|
                    0 <= i < subs[k].destination_filter.len() && (
                    #[trigger] subs[k].destination_filter[i] == p.1.destination_crs
                        || p.1.calling_point_crs.contains(subs[k].destination_filter[i]))
            },
{
    lemma_wanted(map, subs, p);
    let k = choose|k: int|
        0 <= k < subs.len() && (#[trigger] subs[k]).wants(
            p.1.origin_crs,
            p.1.destination_crs,
            p.1.calling_point_crs,
        );
    nothing_else_is_wanted(
        subs[k],
        p.1.origin_crs,
        p.1.destination_crs,
        p.1.calling_point_crs,
    );
}

/// One more subscription, or one more destination in a filter, never takes a
/// service off the view.
pub proof fn wider_interest_keeps_services(
    map: Snapshots,
    subs: Seq<SubscriptionView>,
    k: int,
    wider: SubscriptionView,
    p: (Seq<char>, ServiceView),
)
    requires
        0 <= k < subs.len(),
        wider.origin_crs == subs[k].origin_crs,
        subs[k].destination_filter.len() > 0,
        forall|d: Seq<char>| #[trigger]
            subs[k].destination_filter.contains(d) ==> wider.destination_filter.contains(d),
        wanted_services(map, subs).contains(p),
    ensures
        wanted_services(map, subs.update(k, wider)).contains(p),
        wanted_services(map, subs.push(wider)).contains(p),
{
    lemma_wanted(map, subs, p);
    let m = choose|m: int|
        0 <= m < subs.len() && (#[trigger] subs[m]).wants(
            p.1.origin_crs,
            p.1.destination_crs,
            p.1.calling_point_crs,
        );
    let more = subs.push(wider);
    assert(more[m] == subs[m]);
    assert(is_wanted(more, p.1));
    lemma_wanted(map, more, p);
    let changed = subs.update(k, wider);
    if m == k {
        wider_filter_wants_more(
            subs[k],
            wider,
            p.1.origin_crs,
            p.1.destination_crs,
            p.1.calling_point_crs,
        );
        assert(changed[k] == wider);
    } else {
        assert(changed[m] == subs[m]);
    }
    assert(is_wanted(changed, p.1));
    lemma_wanted(map, changed, p);
}

// ---------------------------------------------------------------------------
// What counts as a change
// ---------------------------------------------------------------------------

/// A service that was not there before is new, and that is all there is to say of
/// it. Of one that was there each thing that differs is named, and nothing else:
/// the scheduled time, the estimate, the platform, and the reason, for which that
/// of a cancellation comes first. A new estimate is a cancellation where the train
/// has come to be cancelled.
pub proof fn differences_are_named(old: ServiceView, new: ServiceView)
    ensures
        change_kinds(None, new).len() == 1,
        change_kinds(None, new)[0] == ChangeKind::NewService,
        ({
            let kinds = change_kinds(Some(old), new);
            let same_reason = if old.cancel_reason is Some || new.cancel_reason is Some {
                if old.cancel_reason is Some && new.cancel_reason is Some {
                    old.cancel_reason == new.cancel_reason
                } else if old.cancel_reason is Some {
                    old.cancel_reason == new.delay_reason
                } else {
                    old.delay_reason == new.cancel_reason
                }
            } else {
                old.delay_reason == new.delay_reason
            };
            &&& !kinds.contains(ChangeKind::NewService)
            &&& kinds.contains(ChangeKind::StdChanged) <==> old.std != new.std
            &&& kinds.contains(ChangeKind::PlatformChanged) <==> old.platform != new.platform
            &&& kinds.contains(ChangeKind::Cancelled) <==> old.etd != new.etd && new.is_cancelled
                && !old.is_cancelled
            &&& kinds.contains(ChangeKind::DelayChanged) <==> old.etd != new.etd && (
            !new.is_cancelled || old.is_cancelled)
            &&& kinds.contains(ChangeKind::ReasonChanged) <==> !same_reason
        }),
{
    let kinds = change_kinds(Some(old), new);
    let called_off = new.is_cancelled && !old.is_cancelled;
    let a = crate::poller::diff::when(old.std != new.std, ChangeKind::StdChanged);
    let b = crate::poller::diff::when(old.etd != new.etd && called_off, ChangeKind::Cancelled);
    let c = crate::poller::diff::when(old.etd != new.etd && !called_off, ChangeKind::DelayChanged);
    let d = crate::poller::diff::when(old.platform != new.platform, ChangeKind::PlatformChanged);
    let e = crate::poller::diff::when(
        reason(old) != reason(new),
        ChangeKind::ReasonChanged,
    );
    assert(kinds == a + b + c + d + e);
    let n = a.len() as int;
    if old.std != new.std {
        assert(kinds[0] == ChangeKind::StdChanged);
    }
    if b.len() > 0 {
        assert(kinds[n] == ChangeKind::Cancelled);
    }
    if c.len() > 0 {
        assert(kinds[n] == ChangeKind::DelayChanged);
    }
    if d.len() > 0 {
        assert(kinds[n + b.len() + c.len()] == ChangeKind::PlatformChanged);
    }
    if e.len() > 0 {
        assert(kinds[kinds.len() - 1] == ChangeKind::ReasonChanged);
    }
}

/// Every difference on a service of the new board is among the changes, with the
/// service as it is now; and every change is such a difference.
pub proof fn changes_are_the_differences(
    old: Option<Snapshots>,
    new: Snapshots,
    c: ServiceChangeView,
)
    ensures
        changes(old, new).contains(c) <==> exists|k: int|
            {
                &&& 0 <= k < new.len()
                &&& (#[trigger] new[k]).1 == c.snapshot
                &&& change_kinds(
                    match old {
                        Some(m) => value_of(m, new[k].0),
                        None => None,
                    },
                    new[k].1,
                ).contains(c.kind)
            },
    decreases new.len(),
{
    let all = changes(old, new);
    if new.len() > 0 {
        let t = new.drop_last();
        let front = changes(old, t);
        let was = before(old, new.last().0);
        let kinds = change_kinds(was, new.last().1);
        let mine = changes_of(was, new.last().1);
        assert(all == front + mine);
        changes_are_the_differences(old, t, c);
        if all.contains(c) {
            let i = choose|i: int| 0 <= i < all.len() && all[i] == c;
            if i < front.len() {
                assert(front[i] == c);
                let k = choose|k: int|
                    {
                        &&& 0 <= k < t.len()
                        &&& (#[trigger] t[k]).1 == c.snapshot
                        &&& change_kinds(
                            match old {
                                Some(m) => value_of(m, t[k].0),
                                None => None,
                            },
                            t[k].1,
                        ).contains(c.kind)
                    };
                assert(new[k] == t[k]);
            } else {
                assert(mine[i - front.len()] == c);
                assert(kinds[i - front.len()] == c.kind);
                assert(new[new.len() - 1].1 == c.snapshot);
            }
        }
        if exists|k: int|
            {
                &&& 0 <= k < new.len()
                &&& (#[trigger] new[k]).1 == c.snapshot
                &&& change_kinds(
                    match old {
                        Some(m) => value_of(m, new[k].0),
                        None => None,
                    },
                    new[k].1,
                ).contains(c.kind)
            } {
            let k = choose|k: int|
                {
                    &&& 0 <= k < new.len()
                    &&& (#[trigger] new[k]).1 == c.snapshot
                    &&& change_kinds(
                        match old {
                            Some(m) => value_of(m, new[k].0),
                            None => None,
                        },
                        new[k].1,
                    ).contains(c.kind)
                };
            if k < t.len() {
                assert(t[k] == new[k]);
                assert(front.contains(c));
                let i = choose|i: int| 0 <= i < front.len() && front[i] == c;
                assert(all[i] == c);
            } else {
                let i = choose|i: int| 0 <= i < kinds.len() && kinds[i] == c.kind;
                assert(mine[i] == c);
                assert(all[front.len() + i] == c);
            }
        }
    }
}

// ---------------------------------------------------------------------------
// What the digest says
// ---------------------------------------------------------------------------

/// The row of a service gives its scheduled time, its destination by name, its
/// platform or that it is to be confirmed, and a star exactly where it changed.
pub proof fn digest_row_is_of_the_service(
    subs: Seq<SubscriptionView>,
    changed: Seq<Seq<char>>,
    s: ServiceView,
)
    ensures
        ({
            let row = digest_row(subs, changed, s);
            &&& row.time == s.std
            &&& starts_with(row.dest, s.destination_name)
            &&& s.platform is Some ==> row.plat == s.platform->0
            &&& s.platform is None ==> row.plat == "TBC"@
            &&& row.prefix == "* "@ <==> changed.contains(s.service_id)
            &&& row.prefix == "* "@ || row.prefix == "  "@
            &&& row.status == status(s.is_cancelled, s.cancel_reason, s.std, s.etd, s.delay_reason)
        }),
{
    reveal_strlit("* ");
    reveal_strlit("  ");
    assert("* "@[0] == '*' && "  "@[0] == ' ');
    let row = digest_row(subs, changed, s);
    assert(row.dest.take(s.destination_name.len() as int) =~= s.destination_name);
}

proof fn lemma_text_position(v: Seq<Seq<char>>, t: Seq<char>)
    ensures
        0 <= text_position(v, t) <= v.len(),
        text_position(v, t) < v.len() ==> v[text_position(v, t)] == t,
        forall|i: int| 0 <= i < text_position(v, t) ==> #[trigger] v[i] != t,
    decreases v.len(),
{
    if v.len() > 0 && v[0] != t {
        let r = v.drop_first();
        lemma_text_position(r, t);
        assert forall|i: int| 0 <= i < text_position(v, t) implies #[trigger] v[i] != t by {
            if i > 0 {
                assert(r[i - 1] == v[i]);
            }
        }
        if text_position(r, t) < r.len() {
            assert(r[text_position(r, t)] == v[text_position(v, t)]);
        }
    }
}

/// The number of stops counts the calls up to a wanted station, that one included:
/// the station is one of those wanted, and the train did not call there before. It
/// is left out exactly where the train calls at none of them.
pub proof fn stops_are_counted(wanted: Seq<Seq<char>>, calls: Seq<Seq<char>>)
    ensures
        match stops_to(wanted, calls) {
            Some(n) => {
                &&& 1 <= n <= calls.len()
                &&& wanted.contains(calls[n - 1])
                &&& forall|i: int| 0 <= i < n - 1 ==> #[trigger] calls[i] != calls[n - 1]
            },
            None => forall|i: int, j: int|
                0 <= i < wanted.len() && 0 <= j < calls.len() ==> #[trigger] wanted[i]
                    != #[trigger] calls[j],
        },
    decreases wanted.len(),
{
    if wanted.len() > 0 {
        lemma_text_position(calls, wanted[0]);
        let rest = wanted.drop_first();
        stops_are_counted(rest, calls);
        if text_position(calls, wanted[0]) < calls.len() {
            assert(wanted.contains(wanted[0]));
        } else {
            match stops_to(rest, calls) {
                Some(n) => {
                    let k = choose|k: int| 0 <= k < rest.len() && rest[k] == calls[n - 1];
                    assert(wanted[k + 1] == calls[n - 1]);
                },
                None => {
                    assert forall|i: int, j: int|
                        0 <= i < wanted.len() && 0 <= j < calls.len() implies #[trigger] wanted[i]
                        != #[trigger] calls[j] by {
                        if i > 0 {
                            assert(rest[i - 1] == wanted[i]);
                        }
                    }
                },
            }
        }
    }
}

/// The stops are those to a station that a subscription from this origin wants.
pub proof fn stops_are_for_a_subscription(subs: Seq<SubscriptionView>, s: ServiceView)
    ensures
        match stops_for(subs, s) {
            Some(n) => {
                &&& 1 <= n <= s.calling_point_crs.len()
                &&& exists|k: int|
                    0 <= k < subs.len() && (#[trigger] subs[k]).origin_crs == s.origin_crs
                        && subs[k].destination_filter.contains(s.calling_point_crs[n - 1])
            },
            None => forall|k: int, j: int|
                0 <= k < subs.len() && 0 <= j < s.calling_point_crs.len() && (
                #[trigger] subs[k]).origin_crs == s.origin_crs
                    ==> !subs[k].destination_filter.contains(#[trigger] s.calling_point_crs[j]),
        },
    decreases subs.len(),
{
    if subs.len() > 0 {
        let rest = subs.drop_first();
        stops_are_counted(subs[0].destination_filter, s.calling_point_crs);
        stops_are_for_a_subscription(rest, s);
        match stops_for(subs, s) {
            Some(n) => {
                if !(subs[0].origin_crs == s.origin_crs && stops_to(
                    subs[0].destination_filter,
                    s.calling_point_crs,
                ) is Some) {
                    let k = choose|k: int|
                        0 <= k < rest.len() && (#[trigger] rest[k]).origin_crs == s.origin_crs
                            && rest[k].destination_filter.contains(s.calling_point_crs[n - 1]);
                    assert(subs[k + 1] == rest[k]);
                }
            },
            None => {
                assert forall|k: int, j: int|
                    0 <= k < subs.len() && 0 <= j < s.calling_point_crs.len() && (
                    #[trigger] subs[k]).origin_crs == s.origin_crs implies
                    !subs[k].destination_filter.contains(#[trigger] s.calling_point_crs[j]) by {
                    if k > 0 {
                        assert(rest[k - 1] == subs[k]);
                    } else if subs[0].destination_filter.contains(s.calling_point_crs[j]) {
                        let f = subs[0].destination_filter;
                        let i = choose|i: int| 0 <= i < f.len() && f[i] == s.calling_point_crs[j];
                        assert(f[i] == s.calling_point_crs[j]);
                    }
                }
            },
        }
    }
}

/// A digest shows services from the station, those that leave first, by time.
pub proof fn digest_shows_the_next_trains(snapshots: Snapshots, crs: Seq<char>, i: int, j: int)
    requires
        0 <= i < j < shown(snapshots, crs).len(),
    ensures
        lex_le(shown(snapshots, crs)[i].std, shown(snapshots, crs)[j].std),
        shown(snapshots, crs).len() <= 10,
{
    let all = of_origin(snapshots, crs);
    sorting_puts_in_order::<ServiceSnapshot>(all);
    let r = sorted::<ServiceSnapshot>(all);
    assert(shown(snapshots, crs)[i] == r[i]);
    assert(shown(snapshots, crs)[j] == r[j]);
}

/// The services from a station are exactly those on the map with that origin.
pub proof fn services_are_told_apart_by_origin(
    snapshots: Snapshots,
    crs: Seq<char>,
    s: ServiceView,
)
    ensures
        of_origin(snapshots, crs).contains(s) <==> s.origin_crs == crs && exists|k: int|
            0 <= k < snapshots.len() && (#[trigger] snapshots[k]).1 == s,
    decreases snapshots.len(),
{
    let r = of_origin(snapshots, crs);
    if snapshots.len() > 0 {
        let t = snapshots.drop_last();
        let rest = of_origin(t, crs);
        services_are_told_apart_by_origin(t, crs, s);
        if r.contains(s) {
            let k = choose|k: int| 0 <= k < r.len() && r[k] == s;
            if k < rest.len() {
                assert(rest[k] == s);
                let m = choose|m: int| 0 <= m < t.len() && (#[trigger] t[m]).1 == s;
                assert(snapshots[m] == t[m]);
            } else {
                assert(snapshots[snapshots.len() - 1].1 == s);
            }
        }
        if s.origin_crs == crs && exists|k: int|
            0 <= k < snapshots.len() && (#[trigger] snapshots[k]).1 == s {
            let k = choose|k: int| 0 <= k < snapshots.len() && (#[trigger] snapshots[k]).1 == s;
            if k < t.len() {
                assert(t[k].1 == s);
                let m = choose|m: int| 0 <= m < rest.len() && rest[m] == s;
                assert(r[m] == s);
            } else {
                assert(r[r.len() - 1] == s);
            }
        }
    }
}

proof fn lemma_section_is_there(
    subs: Seq<SubscriptionView>,
    board: Snapshots,
    changed: Seq<Seq<char>>,
    names: Seq<(Seq<char>, Seq<char>)>,
    channel: Channel,
    stations: Seq<Seq<char>>,
    crs: Seq<char>,
) -> (k: int)
    requires
        stations.contains(crs),
        of_origin(board, crs).len() > 0,
    ensures
        0 <= k < sections(subs, board, changed, names, channel, stations).len(),
        sections(subs, board, changed, names, channel, stations)[k] == section(
            subs,
            board,
            changed,
            names,
            channel,
            crs,
        ),
    decreases stations.len(),
{
    let t = stations.drop_last();
    let rest = sections(subs, board, changed, names, channel, t);
    if stations.last() == crs {
        rest.len() as int
    } else {
        let m = choose|m: int| 0 <= m < stations.len() && stations[m] == crs;
        assert(t[m] == crs);
        lemma_section_is_there(subs, board, changed, names, channel, t, crs)
    }
}

proof fn lemma_section_is_shown(all: Seq<SectionView>, now: Seq<char>, channel: Channel, k: int, i: int)
    requires
        0 <= k < all.len(),
        0 <= i < all[k].rows.len(),
    ensures
        holds(digest_text(all, now, channel), all[k].rows[i]),
{
    let piece = all[k].rows[i];
    let table = join(all[k].rows, "\n"@);
    let text = digest_text(all, now, channel);
    let parts = section_texts(all, channel);
    let empty = Seq::<char>::empty();
    lemma_join_holds(all[k].rows, "\n"@, i);
    match channel {
        Channel::Telegram => {
            if all.len() == 1 {
                let head = "<b>"@ + escaped(all[0].name) + " ("@ + escaped(all[0].crs) + ") "@
                    + escaped(now) + "</b>\n<pre>"@;
                lemma_holds(head, table, "</pre>"@, piece);
                assert(text =~= head + table + "</pre>"@);
            } else {
                let head = "<b>"@ + escaped(all[k].name) + " ("@ + escaped(all[k].crs)
                    + ")</b>\n<pre>"@;
                lemma_holds(head, table, "</pre>"@, piece);
                assert(parts[k] =~= head + table + "</pre>"@);
                lemma_in_parts(parts, "\n\n"@, k, piece);
                let top = "<b>Departures "@ + escaped(now) + "</b>\n\n"@;
                lemma_holds(top, join(parts, "\n\n"@), empty, piece);
                assert(text =~= top + join(parts, "\n\n"@) + empty);
            }
        },
        Channel::Twilio => {
            if all.len() == 1 {
                let head = all[0].name + " ("@ + all[0].crs + ") "@ + now + "\n"@;
                lemma_holds(head, table, empty, piece);
                assert(text =~= head + table + empty);
            } else {
                let head = all[k].name + " ("@ + all[k].crs + "):\n"@;
                lemma_holds(head, table, empty, piece);
                assert(parts[k] =~= head + table + empty);
                lemma_in_parts(parts, "\n"@, k, piece);
                let top = "Departures "@ + now + "\n"@;
                lemma_holds(top, join(parts, "\n"@), empty, piece);
                assert(text =~= top + join(parts, "\n"@) + empty);
            }
        },
    }
}

/// A digest holds the row of every service that it shows for a station, in the
/// layout of the channel.
pub proof fn digest_holds_every_row(
    subs: Seq<SubscriptionView>,
    board: Snapshots,
    changed: Seq<Seq<char>>,
    now: Seq<char>,
    names: Seq<(Seq<char>, Seq<char>)>,
    channel: Channel,
    crs: Seq<char>,
    i: int,
)
    requires
        origins(subs).contains(crs),
        0 <= i < shown(board, crs).len(),
    ensures
        digest(subs, board, changed, now, names, channel) is Some,
        ({
            let text = digest(subs, board, changed, now, names, channel)->0;
            let rows = digest_rows(subs, changed, shown(board, crs));
            &&& rows.len() == shown(board, crs).len()
            &&& rows[i] == digest_row(subs, changed, shown(board, crs)[i])
            &&& channel == Channel::Telegram ==> holds(text, html_lines(rows)[i])
            &&& channel == Channel::Twilio ==> holds(text, plain_row(rows[i]))
        }),
{
    let all = sections(subs, board, changed, names, channel, origins(subs));
    sorting_keeps_the_values::<ServiceSnapshot>(of_origin(board, crs));
    let k = lemma_section_is_there(subs, board, changed, names, channel, origins(subs), crs);
    lemma_section_is_shown(all, now, channel, k, i);
}

/// A message to a user shows their whole board: each service on it has its row.
pub proof fn message_shows_the_whole_board(
    seen: Seen,
    watcher: WatcherView,
    map: Snapshots,
    now: Seq<char>,
    index: StationIndexView,
    p: (Seq<char>, ServiceView),
)
    requires
        notification(seen, watcher, map, now, index) is Some,
        user_view(map, watcher.subscriptions).contains(p),
    ensures
        ({
            let n = notification(seen, watcher, map, now, index)->0;
            let board = user_view(map, watcher.subscriptions);
            let rows = shown(board, p.1.origin_crs);
            let changed = changed_ids(changes(value_of(seen, watcher.key), board));
            &&& n.board == board
            &&& exists|i: int|
                {
                    &&& 0 <= i < rows.len()
                    &&& #[trigger] rows[i] == p.1
                    &&& watcher.key.channel == Channel::Twilio ==> holds(
                        n.text,
                        plain_row(digest_row(watcher.subscriptions, changed, p.1)),
                    )
                    &&& watcher.key.channel == Channel::Telegram ==> holds(
                        n.text,
                        html_lines(digest_rows(watcher.subscriptions, changed, rows))[i],
                    )
                }
        }),
{
    broadcast use vstd::seq_lib::group_to_multiset_ensures;

    let subs = watcher.subscriptions;
    let wanted = wanted_services(map, subs);
    let board = user_view(map, subs);
    let crs = p.1.origin_crs;
    let changed = changed_ids(changes(value_of(seen, watcher.key), board));
    let at = choose|at: int| 0 <= at < board.len() && board[at] == p;
    window_is_part_of_the_view(wanted, 10, at);
    lemma_wanted(map, subs, p);
    let k = choose|k: int|
        0 <= k < subs.len() && (#[trigger] subs[k]).wants(
            p.1.origin_crs,
            p.1.destination_crs,
            p.1.calling_point_crs,
        );
    nothing_else_is_wanted(subs[k], crs, p.1.destination_crs, p.1.calling_point_crs);
    lemma_origins(subs, k);
    services_are_told_apart_by_origin(board, crs, p.1);
    window_is_no_larger(wanted, 10, crs);
    let mine = of_origin(board, crs);
    sorting_keeps_the_values::<ServiceSnapshot>(mine);
    let rows = shown(board, crs);
    assert(rows == sorted::<ServiceSnapshot>(mine));
    assert(mine.to_multiset().contains(p.1));
    assert(rows.to_multiset().contains(p.1));
    let i = choose|i: int| 0 <= i < rows.len() && rows[i] == p.1;
    digest_holds_every_row(
        subs,
        board,
        changed,
        now,
        station_names(subs, index),
        watcher.key.channel,
        crs,
        i,
    );
    assert(rows[i] == p.1);
}

/// A service that a user wants and was not shown before, or is not shown as it was,
/// leads to a message, if it is on the board.
pub proof fn news_on_the_board_is_told(
    seen: Seen,
    watcher: WatcherView,
    map: Snapshots,
    now: Seq<char>,
    index: StationIndexView,
    p: (Seq<char>, ServiceView),
)
    requires
        user_view(map, watcher.subscriptions).contains(p),
        match value_of(seen, watcher.key) {
            None => true,
            Some(last) => match value_of(last, p.0) {
                None => true,
                Some(was) => was.std != p.1.std || was.etd != p.1.etd || was.platform
                    != p.1.platform || (was.cancel_reason is Some && p.1.cancel_reason is Some
                    && was.cancel_reason != p.1.cancel_reason) || (was.cancel_reason is None
                    && p.1.cancel_reason is None && was.delay_reason != p.1.delay_reason),
            },
        },
    ensures
        notification(seen, watcher, map, now, index) is Some,
        exists|k: int|
            0 <= k < changed_ids(
                changes(value_of(seen, watcher.key), user_view(map, watcher.subscriptions)),
            ).len() && #[trigger] changed_ids(
                changes(value_of(seen, watcher.key), user_view(map, watcher.subscriptions)),
            )[k] == p.1.service_id,
{
    let board = user_view(map, watcher.subscriptions);
    let last = value_of(seen, watcher.key);
    let was = before(last, p.0);
    let at = choose|at: int| 0 <= at < board.len() && board[at] == p;
    let kinds = change_kinds(was, p.1);
    if was is Some {
        differences_are_named(was->0, p.1);
    }
    let kind = if was is None {
        ChangeKind::NewService
    } else if was->0.std != p.1.std {
        ChangeKind::StdChanged
    } else if was->0.etd != p.1.etd {
        if p.1.is_cancelled && !was->0.is_cancelled {
            ChangeKind::Cancelled
        } else {
            ChangeKind::DelayChanged
        }
    } else if was->0.platform != p.1.platform {
        ChangeKind::PlatformChanged
    } else {
        ChangeKind::ReasonChanged
    };
    if was is None {
        assert(kinds[0] == ChangeKind::NewService);
    }
    assert(kinds.contains(kind));
    let c = ServiceChangeView { snapshot: p.1, kind };
    assert(board[at].1 == c.snapshot);
    changes_are_the_differences(last, board, c);
    let all = changes(last, board);
    let k = choose|k: int| 0 <= k < all.len() && all[k] == c;
    assert(changed_ids(all)[k] == p.1.service_id);
    every_change_is_told(seen, watcher, map, now, index);
}

// ---------------------------------------------------------------------------
// Expiry
// ---------------------------------------------------------------------------

/// Expiry takes away subscriptions and nothing else, keeps the order of those that
/// stay, and takes none where none has reached its deadline.
pub proof fn expiry_touches_subscriptions_only(user: UserView, now: Timestamp)
    ensures
        after_expiry(user, now).key == user.key,
        after_expiry(user, now).version == user.version,
        after_expiry(user, now).created_at == user.created_at,
        after_expiry(user, now).notifications_paused == user.notifications_paused,
        after_expiry(user, now).paused_until == user.paused_until,
        after_expiry(user, now).telegram_name == user.telegram_name,
        after_expiry(user, now).telegram_username == user.telegram_username,
        (forall|i: int|
            0 <= i < user.subscriptions.len() ==> !(#[trigger] user.subscriptions[i]).expired_at(
                now,
            )) ==> after_expiry(user, now).subscriptions == user.subscriptions,
{
    let subs = user.subscriptions;
    if forall|i: int| 0 <= i < subs.len() ==> !(#[trigger] subs[i]).expired_at(now) {
        lemma_none_expired(subs, now);
        lemma_without_none(subs);
        assert(ids(expired(subs, now)) =~= Seq::<Seq<char>>::empty());
    }
}

proof fn lemma_none_expired(subs: Seq<SubscriptionView>, now: Timestamp)
    requires
        forall|i: int| 0 <= i < subs.len() ==> !(#[trigger] subs[i]).expired_at(now),
    ensures
        expired(subs, now).len() == 0,
    decreases subs.len(),
{
    if subs.len() > 0 {
        assert(!subs[subs.len() - 1].expired_at(now));
        lemma_none_expired(subs.drop_last(), now);
    }
}

proof fn lemma_without_none(subs: Seq<SubscriptionView>)
    ensures
        without_ids(subs, Seq::<Seq<char>>::empty()) == subs,
    decreases subs.len(),
{
    if subs.len() > 0 {
        lemma_without_none(subs.drop_last());
        assert(subs.drop_last().push(subs.last()) =~= subs);
    } else {
        assert(without_ids(subs, Seq::<Seq<char>>::empty()) =~= subs);
    }
}

/// The expired subscriptions are those among the user's own whose deadline has
/// been reached.
pub proof fn expired_ones_are_selected(
    subs: Seq<SubscriptionView>,
    now: Timestamp,
    sub: SubscriptionView,
)
    ensures
        expired(subs, now).contains(sub) <==> subs.contains(sub) && sub.expired_at(now),
{
    lemma_expired(subs, now, sub);
}

} // verus!
