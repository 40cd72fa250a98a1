//! The polling cycle.
//!
//! Each cycle collects the active subscriptions and the boards they need,
//! removes the subscriptions that have expired, fetches the boards, and tells
//! each user what changed since the last message that reached them. The
//! functions here take what was read and say what is to be sent.

pub mod diff;
pub mod laws;
pub mod machine;
pub mod machine_laws;
pub mod text_laws;
pub mod window;

use crate::clock::Timestamp;
use crate::darwin::{Service, ServiceView};
use crate::domain::{Channel, Subscription, SubscriptionView, User, UserKey, UserKeyView, UserView};
use crate::markup::{esc, escaped};
use crate::stations::{StationIndex, StationIndexView};
use crate::table::{
    distinct_keys, lemma_key_position, lemma_with_pair_distinct, lookup_after_insertion, lookup_after_removal, pairs,
    value_of, with_pair, without_key, TextMap, UserMap,
};
use crate::text::{join, join_all, lists, opt_text, same, texts, views};
use crate::unicode::uppercase;
use diff::{
    changes, changes_are_on_the_new_map, diff, digest, format_digest, is_old_news,
    no_change_without_change, nothing_to_tell, of_origin, origins, sections, ServiceChangeView,
    ServiceSnapshot, Snapshots, DISPLAY_ROWS,
};
use vstd::prelude::*;
use vstd::string::*;
use window::{
    truncate_to_display_window, window_is_not_empty, window_is_part_of_the_view,
    window_keeps_keys_distinct, windowed,
};

verus! {

// ---------------------------------------------------------------------------
// Collecting
// ---------------------------------------------------------------------------

/// One Darwin API call: an origin CRS plus an optional destination filter.
#[derive(Debug)]
pub struct CallKey {
    pub origin_crs: String,
    pub destination: Option<String>,
}

#[verifier::ext_equal]
pub struct CallKeyView {
    pub origin_crs: Seq<char>,
    pub destination: Option<Seq<char>>,
}

impl View for CallKey {
    type V = CallKeyView;

    open spec fn view(&self) -> CallKeyView {
        CallKeyView { origin_crs: self.origin_crs@, destination: opt_text(self.destination) }
    }
}

/// A user who is to be told of changes, with the subscriptions that are active.
#[derive(Debug)]
pub struct Watcher {
    pub key: UserKey,
    pub subscriptions: Vec<Subscription>,
}

#[verifier::ext_equal]
pub struct WatcherView {
    pub key: UserKeyView,
    pub subscriptions: Seq<SubscriptionView>,
}

impl View for Watcher {
    type V = WatcherView;

    open spec fn view(&self) -> WatcherView {
        WatcherView { key: self.key@, subscriptions: views(self.subscriptions@) }
    }
}

/// The subscriptions that are active at the time, in order.
pub open spec fn active(subs: Seq<SubscriptionView>, now: Timestamp) -> Seq<SubscriptionView>
    decreases subs.len(),
{
    if subs.len() == 0 {
        Seq::empty()
    } else {
        let rest = active(subs.drop_last(), now);
        if subs.last().active_at(now) {
            rest.push(subs.last())
        } else {
            rest
        }
    }
}

/// The users who are not paused and have an active subscription, in order.
pub open spec fn watchers(users: Seq<UserView>, now: Timestamp) -> Seq<WatcherView>
    decreases users.len(),
{
    if users.len() == 0 {
        Seq::empty()
    } else {
        let rest = watchers(users.drop_last(), now);
        let user = users.last();
        let subs = active(user.subscriptions, now);
        if user.paused_at(now) || subs.len() == 0 {
            rest
        } else {
            rest.push(WatcherView { key: user.key, subscriptions: subs })
        }
    }
}

/// The boards that one subscription needs: that of the origin, or one for each
/// destination where the filter is left to Darwin.
pub open spec fn boards_of(sub: SubscriptionView, filter_at_api: bool) -> Seq<CallKeyView> {
    if !filter_at_api || sub.destination_filter.len() == 0 {
        seq![CallKeyView { origin_crs: sub.origin_crs, destination: None }]
    } else {
        Seq::new(
            sub.destination_filter.len(),
            |i: int|
                CallKeyView {
                    origin_crs: sub.origin_crs,
                    destination: Some(sub.destination_filter[i]),
                },
        )
    }
}

/// The call joins the list unless it is there already.
pub open spec fn with_call(calls: Seq<CallKeyView>, call: CallKeyView) -> Seq<CallKeyView> {
    if calls.contains(call) {
        calls
    } else {
        calls.push(call)
    }
}

pub open spec fn with_calls(calls: Seq<CallKeyView>, more: Seq<CallKeyView>) -> Seq<CallKeyView>
    decreases more.len(),
{
    if more.len() == 0 {
        calls
    } else {
        with_call(with_calls(calls, more.drop_last()), more.last())
    }
}

/// The list with the boards that the subscriptions need, each board once.
pub open spec fn with_boards(
    calls: Seq<CallKeyView>,
    subs: Seq<SubscriptionView>,
    filter_at_api: bool,
) -> Seq<CallKeyView>
    decreases subs.len(),
{
    if subs.len() == 0 {
        calls
    } else {
        with_calls(
            with_boards(calls, subs.drop_last(), filter_at_api),
            boards_of(subs.last(), filter_at_api),
        )
    }
}

/// The boards that all the watchers need, each board once.
pub open spec fn boards(all: Seq<WatcherView>, filter_at_api: bool) -> Seq<CallKeyView>
    decreases all.len(),
{
    if all.len() == 0 {
        Seq::empty()
    } else {
        with_boards(boards(all.drop_last(), filter_at_api), all.last().subscriptions, filter_at_api)
    }
}

impl CallKey {
    fn is(&self, other: &CallKey) -> (r: bool)
        ensures
            r == (self@ == other@),
    {
        same(self.origin_crs.as_str(), other.origin_crs.as_str()) && match (
            &self.destination,
            &other.destination,
        ) {
            (Some(a), Some(b)) => same(a.as_str(), b.as_str()),
            (None, None) => true,
            _ => false,
        }
    }
}

fn add_call(calls: &mut Vec<CallKey>, call: CallKey)
    ensures
        views(final(calls)@) == with_call(views(old(calls)@), call@),
{
    let ghost before = views(calls@);
    let n = calls.len();
    let mut i: usize = 0;
    while i < n
        invariant
            0 <= i <= n,
            n == calls@.len(),
            before == views(calls@),
            calls@ == old(calls)@,
            forall|j: int| 0 <= j < i ==> #[trigger] before[j] != call@,
        decreases n - i,
    {
        if calls[i].is(&call) {
            assert(before[i as int] == call@);
            return;
        }
        i += 1;
    }
    calls.push(call);
    assert(views(calls@) =~= before.push(call@));
}

fn add_boards(calls: &mut Vec<CallKey>, sub: &Subscription, filter_at_api: bool)
    ensures
        views(final(calls)@) == with_calls(views(old(calls)@), boards_of(sub@, filter_at_api)),
{
    let ghost before = views(calls@);
    let ghost more = boards_of(sub@, filter_at_api);
    if !filter_at_api || sub.destination_filter.len() == 0 {
        // Fetch the full origin board and filter here: one call per unique
        // origin, however many destination filters there are.
        add_call(calls, CallKey { origin_crs: sub.origin_crs.clone(), destination: None });
        assert(more.drop_last() =~= Seq::<CallKeyView>::empty());
        assert(with_calls(before, more.drop_last()) == before);
    } else {
        let mut i: usize = 0;
        assert(more.take(0) =~= Seq::<CallKeyView>::empty());
        while i < sub.destination_filter.len()
            invariant
                0 <= i <= sub.destination_filter@.len(),
                more == boards_of(sub@, filter_at_api),
                more.len() == sub.destination_filter@.len(),
                filter_at_api,
                sub.destination_filter@.len() > 0,
                views(calls@) == with_calls(before, more.take(i as int)),
            decreases sub.destination_filter.len() - i,
        {
            assert(more.take(i + 1).drop_last() =~= more.take(i as int));
            assert(more.take(i + 1).last() == more[i as int]);
            let call = CallKey {
                origin_crs: sub.origin_crs.clone(),
                destination: Some(sub.destination_filter[i].clone()),
            };
            assert(call@ == more[i as int]);
            add_call(calls, call);
            i += 1;
        }
        assert(more.take(i as int) =~= more);
    }
}

/// The subscriptions of a user that are active at the time.
pub fn active_subscriptions(subs: &Vec<Subscription>, now: Timestamp) -> (r: Vec<Subscription>)
    requires
        now.wf(),
    ensures
        views(r@) == active(views(subs@), now),
{
    let ghost all = views(subs@);
    let mut out: Vec<Subscription> = Vec::new();
    let mut i: usize = 0;
    assert(all.take(0) =~= Seq::<SubscriptionView>::empty());
    assert(views(out@) =~= Seq::<SubscriptionView>::empty());
    while i < subs.len()
        invariant
            0 <= i <= subs@.len(),
            now.wf(),
            all == views(subs@),
            views(out@) == active(all.take(i as int), now),
        decreases subs.len() - i,
    {
        assert(all.take(i + 1).drop_last() =~= all.take(i as int));
        let ghost prior = views(out@);
        if subs[i].is_active_at(now) {
            out.push(subs[i].clone());
            assert(views(out@) =~= prior.push(all[i as int]));
        }
        i += 1;
    }
    assert(all.take(i as int) =~= all);
    out
}

/// What a cycle sets out with: who is to be told, and which boards that takes.
#[derive(Debug)]
pub struct Cycle {
    pub watchers: Vec<Watcher>,
    pub calls: Vec<CallKey>,
}

impl Cycle {
    /// Single pass over all users: collect each user's active subscriptions and
    /// the deduplicated list of boards.
    ///
    /// Subscriptions with no destination filter need the board of the origin.
    /// Subscriptions with N destinations need N boards, one per destination, so
    /// each gets its own row budget, if the filter is left to Darwin.
    pub fn collect(users: &Vec<User>, now: Timestamp, filter_at_api: bool) -> (r: Cycle)
        requires
            now.wf(),
        ensures
            views(r.watchers@) == watchers(views(users@), now),
            views(r.calls@) == boards(watchers(views(users@), now), filter_at_api),
    {
        let ghost all = views(users@);
        let mut list: Vec<Watcher> = Vec::new();
        let mut calls: Vec<CallKey> = Vec::new();
        let mut i: usize = 0;
        assert(all.take(0) =~= Seq::<UserView>::empty());
        assert(views(list@) =~= Seq::<WatcherView>::empty());
        assert(views(calls@) =~= Seq::<CallKeyView>::empty());
        while i < users.len()
            invariant
                0 <= i <= users@.len(),
                now.wf(),
                all == views(users@),
                views(list@) == watchers(all.take(i as int), now),
                views(calls@) == boards(watchers(all.take(i as int), now), filter_at_api),
            decreases users.len() - i,
        {
            assert(all.take(i + 1).drop_last() =~= all.take(i as int));
            let user = &users[i];
            if !user.is_paused_at(now) {
                let subs = active_subscriptions(&user.subscriptions, now);
                let n = subs.len();
                if n > 0 {
                    let ghost base = views(calls@);
                    let ghost mine = views(subs@);
                    let ghost prior = views(list@);
                    let mut k: usize = 0;
                    assert(mine.take(0) =~= Seq::<SubscriptionView>::empty());
                    while k < n
                        invariant
                            0 <= k <= n,
                            n == subs@.len(),
                            mine == views(subs@),
                            views(calls@) == with_boards(base, mine.take(k as int), filter_at_api),
                        decreases n - k,
                    {
                        assert(mine.take(k + 1).drop_last() =~= mine.take(k as int));
                        add_boards(&mut calls, &subs[k], filter_at_api);
                        k += 1;
                    }
                    assert(mine.take(k as int) =~= mine);
                    let ghost added = WatcherView { key: user@.key, subscriptions: mine };
                    list.push(Watcher { key: user.key.clone(), subscriptions: subs });
                    assert(views(list@) =~= prior.push(added));
                    assert(prior.push(added).drop_last() =~= prior);
                }
            }
            i += 1;
        }
        assert(all.take(i as int) =~= all);
        Cycle { watchers: list, calls }
    }
}

// ---------------------------------------------------------------------------
// Expiry
// ---------------------------------------------------------------------------

/// The subscriptions whose deadline has been reached, in order.
pub open spec fn expired(subs: Seq<SubscriptionView>, now: Timestamp) -> Seq<SubscriptionView>
    decreases subs.len(),
{
    if subs.len() == 0 {
        Seq::empty()
    } else {
        let rest = expired(subs.drop_last(), now);
        if subs.last().expired_at(now) {
            rest.push(subs.last())
        } else {
            rest
        }
    }
}

pub open spec fn ids(subs: Seq<SubscriptionView>) -> Seq<Seq<char>> {
    Seq::new(subs.len(), |i: int| subs[i].id)
}

/// The subscriptions whose ID is not in the list, in order.
pub open spec fn without_ids(subs: Seq<SubscriptionView>, gone: Seq<Seq<char>>) -> Seq<
    SubscriptionView,
>
    decreases subs.len(),
{
    if subs.len() == 0 {
        Seq::empty()
    } else {
        let rest = without_ids(subs.drop_last(), gone);
        if gone.contains(subs.last().id) {
            rest
        } else {
            rest.push(subs.last())
        }
    }
}

/// The line of the notice for one subscription.
pub open spec fn notice_line(sub: SubscriptionView) -> Seq<char> {
    if sub.destination_filter.len() == 0 {
        "\u{2022} <code>"@ + escaped(sub.origin_crs) + "</code> \u{2192} all destinations"@
    } else {
        "\u{2022} <code>"@ + escaped(sub.origin_crs) + "</code> \u{2192} <code>"@ + escaped(
            join(sub.destination_filter, ", "@),
        ) + "</code>"@
    }
}

pub open spec fn notice_lines(subs: Seq<SubscriptionView>) -> Seq<Seq<char>> {
    Seq::new(subs.len(), |i: int| notice_line(subs[i]))
}

/// The message that tells a user which subscriptions have gone.
pub open spec fn expiry_notice(gone: Seq<SubscriptionView>) -> Seq<char> {
    (if gone.len() == 1 {
        "Subscription has"@
    } else {
        "Subscriptions have"@
    }) + " expired and been automatically removed:\n"@ + join(notice_lines(gone), "\n"@)
        + "\n\nUse <code>/sub</code> to subscribe again."@
}

/// The user without the subscriptions that have expired.
pub open spec fn after_expiry(user: UserView, now: Timestamp) -> UserView {
    UserView {
        subscriptions: without_ids(
            user.subscriptions,
            ids(expired(user.subscriptions, now)),
        ),
        ..user
    }
}

fn notice_of(gone: &Vec<Subscription>) -> (r: String)
    ensures
        r@ == expiry_notice(views(gone@)),
{
    let ghost lines = notice_lines(views(gone@));
    let mut out: Vec<String> = Vec::new();
    let mut i: usize = 0;
    while i < gone.len()
        invariant
            0 <= i <= gone@.len(),
            lines == notice_lines(views(gone@)),
            texts(out@) == lines.take(i as int),
        decreases gone.len() - i,
    {
        let ghost prior = texts(out@);
        let sub = &gone[i];
        let mut line = "\u{2022} <code>".to_string();
        line.append(esc(sub.origin_crs.as_str()).as_str());
        if sub.destination_filter.len() == 0 {
            line.append("</code> \u{2192} all destinations");
        } else {
            line.append("</code> \u{2192} <code>");
            line.append(esc(join_all(&sub.destination_filter, ", ").as_str()).as_str());
            line.append("</code>");
        }
        assert(views(gone@)[i as int] == sub@);
        assert(line@ == lines[i as int]);
        out.push(line);
        assert(texts(out@) =~= prior.push(lines[i as int]));
        assert(lines.take(i + 1) =~= lines.take(i as int).push(lines[i as int]));
        i += 1;
    }
    assert(lines.take(i as int) =~= lines);
    let mut text = if gone.len() == 1 {
        "Subscription has".to_string()
    } else {
        "Subscriptions have".to_string()
    };
    text.append(" expired and been automatically removed:\n");
    text.append(join_all(&out, "\n").as_str());
    text.append("\n\nUse <code>/sub</code> to subscribe again.");
    text
}

/// Remove the expired subscriptions of a user. Returns the notice for the user
/// where there was one to remove; the user is left alone otherwise.
pub fn remove_expired(user: &mut User, now: Timestamp) -> (r: Option<String>)
    ensures
        expired(old(user)@.subscriptions, now).len() == 0 ==> r is None && *final(user) == *old(
            user,
        ),
        expired(old(user)@.subscriptions, now).len() > 0 ==> {
            &&& opt_text(r) == Some(expiry_notice(expired(old(user)@.subscriptions, now)))
            &&& final(user)@ == after_expiry(old(user)@, now)
        },
{
    let ghost all = user@.subscriptions;
    let mut gone: Vec<Subscription> = Vec::new();
    let mut gone_ids: Vec<String> = Vec::new();
    let n = user.subscriptions.len();
    let mut i: usize = 0;
    assert(all.take(0) =~= Seq::<SubscriptionView>::empty());
    assert(views(gone@) =~= Seq::<SubscriptionView>::empty());
    assert(texts(gone_ids@) =~= ids(views(gone@)));
    while i < n
        invariant
            0 <= i <= n,
            n == user.subscriptions@.len(),
            all == user@.subscriptions,
            *user == *old(user),
            views(gone@) == expired(all.take(i as int), now),
            texts(gone_ids@) == ids(views(gone@)),
        decreases n - i,
    {
        assert(all.take(i + 1).drop_last() =~= all.take(i as int));
        let ghost prior = views(gone@);
        let ghost prior_ids = texts(gone_ids@);
        let sub = &user.subscriptions[i];
        if sub.is_expired_at(now) {
            gone.push(sub.clone());
            gone_ids.push(sub.id.clone());
            assert(views(gone@) =~= prior.push(all[i as int]));
            assert(texts(gone_ids@) =~= prior_ids.push(all[i as int].id));
            assert(ids(views(gone@)) =~= prior_ids.push(all[i as int].id));
        }
        i += 1;
    }
    assert(all.take(i as int) =~= all);
    if gone.len() == 0 {
        return None;
    }
    let mut rest: Vec<Subscription> = Vec::new();
    let mut k: usize = 0;
    assert(views(rest@) =~= Seq::<SubscriptionView>::empty());
    while k < n
        invariant
            0 <= k <= n,
            n == user.subscriptions@.len(),
            all == user@.subscriptions,
            *user == *old(user),
            views(rest@) == without_ids(all.take(k as int), texts(gone_ids@)),
        decreases n - k,
    {
        assert(all.take(k + 1).drop_last() =~= all.take(k as int));
        let ghost prior = views(rest@);
        let sub = &user.subscriptions[k];
        if !lists(&gone_ids, sub.id.as_str()) {
            rest.push(sub.clone());
            assert(views(rest@) =~= prior.push(all[k as int]));
        }
        k += 1;
    }
    assert(all.take(k as int) =~= all);
    user.subscriptions = rest;
    Some(notice_of(&gone))
}

/// No two subscriptions share an ID.
pub open spec fn distinct_ids(subs: Seq<SubscriptionView>) -> bool {
    forall|i: int, j: int| 0 <= i < j < subs.len() ==> (#[trigger] subs[i]).id != (
    #[trigger] subs[j]).id
}

/// Of subscriptions with IDs of their own, exactly the expired ones are removed.
pub proof fn only_expired_ones_go(user: UserView, now: Timestamp, sub: SubscriptionView)
    requires
        distinct_ids(user.subscriptions),
    ensures
        after_expiry(user, now).subscriptions.contains(sub) <==> user.subscriptions.contains(sub)
            && !sub.expired_at(now),
{
    let all = user.subscriptions;
    let gone = ids(expired(all, now));
    lemma_without_ids(all, gone, sub);
    if all.contains(sub) {
        let k = choose|k: int| 0 <= k < all.len() && all[k] == sub;
        if sub.expired_at(now) {
            lemma_expired(all, now, sub);
            let e = expired(all, now);
            let m = choose|m: int| 0 <= m < e.len() && e[m] == sub;
            assert(gone[m] == sub.id);
        } else if gone.contains(sub.id) {
            let m = choose|m: int| 0 <= m < gone.len() && gone[m] == sub.id;
            let other = expired(all, now)[m];
            lemma_expired(all, now, other);
            assert(expired(all, now).contains(other));
            let j = choose|j: int| 0 <= j < all.len() && all[j] == other;
            assert(j != k);
            assert(all[j].id == all[k].id);
        }
    }
}

proof fn lemma_expired(subs: Seq<SubscriptionView>, now: Timestamp, sub: SubscriptionView)
    ensures
        expired(subs, now).contains(sub) <==> subs.contains(sub) && sub.expired_at(now),
    decreases subs.len(),
{
    if subs.len() > 0 {
        let t = subs.drop_last();
        let rest = expired(t, now);
        let r = expired(subs, now);
        lemma_expired(t, now, sub);
        if subs.contains(sub) && sub.expired_at(now) {
            let k = choose|k: int| 0 <= k < subs.len() && subs[k] == sub;
            if k < t.len() {
                assert(t[k] == sub);
                let j = choose|j: int| 0 <= j < rest.len() && rest[j] == sub;
                assert(r[j] == sub);
            } else {
                assert(r[r.len() - 1] == sub);
            }
        }
        if r.contains(sub) {
            let k = choose|k: int| 0 <= k < r.len() && r[k] == sub;
            if k < rest.len() {
                assert(rest[k] == sub);
                let j = choose|j: int| 0 <= j < t.len() && t[j] == sub;
                assert(subs[j] == sub);
            } else {
                assert(subs[subs.len() - 1] == sub);
            }
        }
    }
}

proof fn lemma_without_ids(subs: Seq<SubscriptionView>, gone: Seq<Seq<char>>, sub: SubscriptionView)
    ensures
        without_ids(subs, gone).contains(sub) <==> subs.contains(sub) && !gone.contains(sub.id),
    decreases subs.len(),
{
    if subs.len() > 0 {
        let t = subs.drop_last();
        let rest = without_ids(t, gone);
        let r = without_ids(subs, gone);
        lemma_without_ids(t, gone, sub);
        if subs.contains(sub) && !gone.contains(sub.id) {
            let k = choose|k: int| 0 <= k < subs.len() && subs[k] == sub;
            if k < t.len() {
                assert(t[k] == sub);
                let j = choose|j: int| 0 <= j < rest.len() && rest[j] == sub;
                assert(r[j] == sub);
            } else {
                assert(r[r.len() - 1] == sub);
            }
        }
        if r.contains(sub) {
            let k = choose|k: int| 0 <= k < r.len() && r[k] == sub;
            if k < rest.len() {
                assert(rest[k] == sub);
                let j = choose|j: int| 0 <= j < t.len() && t[j] == sub;
                assert(subs[j] == sub);
            } else {
                assert(subs[subs.len() - 1] == sub);
            }
        }
    }
}

// ---------------------------------------------------------------------------
// Boards
// ---------------------------------------------------------------------------

/// The map with the services of one more board, keyed by service ID. A service
/// that comes again replaces what stood there.
pub open spec fn with_services(map: Snapshots, services: Seq<ServiceView>) -> Snapshots
    decreases services.len(),
{
    if services.len() == 0 {
        map
    } else {
        with_pair(
            with_services(map, services.drop_last()),
            services.last().service_id,
            services.last(),
        )
    }
}

/// Put the services of one more board into the map.
pub fn add_services(map: &mut TextMap<ServiceSnapshot>, services: &Vec<Service>)
    ensures
        final(map)@ == with_services(old(map)@, views(services@)),
        old(map).wf() ==> final(map).wf(),
{
    let ghost start = map@;
    let ghost all = views(services@);
    let mut i: usize = 0;
    assert(all.take(0) =~= Seq::<ServiceView>::empty());
    while i < services.len()
        invariant
            0 <= i <= services@.len(),
            all == views(services@),
            start == old(map)@,
            map@ == with_services(start, all.take(i as int)),
            old(map).wf() ==> map.wf(),
        decreases services.len() - i,
    {
        assert(all.take(i + 1).drop_last() =~= all.take(i as int));
        let s = &services[i];
        map.insert(s.service_id.clone(), ServiceSnapshot::from(s));
        i += 1;
    }
    assert(all.take(i as int) =~= all);
}

/// Every service on the map stands under its own ID.
pub open spec fn keyed_by_id(map: Snapshots) -> bool {
    forall|i: int| 0 <= i < map.len() ==> (#[trigger] map[i]).0 == map[i].1.service_id
}

/// Services that come on several boards stand on the map once, under their ID.
pub proof fn services_stand_once(map: Snapshots, services: Seq<ServiceView>)
    requires
        keyed_by_id(map),
        distinct_keys(map),
    ensures
        keyed_by_id(with_services(map, services)),
        distinct_keys(with_services(map, services)),
    decreases services.len(),
{
    if services.len() > 0 {
        let prior = with_services(map, services.drop_last());
        let s = services.last();
        services_stand_once(map, services.drop_last());
        lemma_with_pair_distinct(prior, s.service_id, s);
        lemma_key_position(prior, s.service_id);
        let r = with_pair(prior, s.service_id, s);
        assert forall|i: int| 0 <= i < r.len() implies (#[trigger] r[i]).0 == r[i].1.service_id by {
            if i < prior.len() {
                assert(prior[i].0 == prior[i].1.service_id);
            }
        }
    }
}

/// One of the subscriptions is for the service.
pub open spec fn is_wanted(subs: Seq<SubscriptionView>, s: ServiceView) -> bool {
    exists|i: int|
        0 <= i < subs.len() && (#[trigger] subs[i]).wants(
            s.origin_crs,
            s.destination_crs,
            s.calling_point_crs,
        )
}

/// The services that one of the subscriptions is for.
pub open spec fn wanted_services(map: Snapshots, subs: Seq<SubscriptionView>) -> Snapshots
    decreases map.len(),
{
    if map.len() == 0 {
        Seq::empty()
    } else {
        let rest = wanted_services(map.drop_last(), subs);
        if is_wanted(subs, map.last().1) {
            rest.push(map.last())
        } else {
            rest
        }
    }
}

fn wants_service(subs: &Vec<Subscription>, s: &ServiceSnapshot) -> (r: bool)
    ensures
        r == is_wanted(views(subs@), s@),
{
    let ghost all = views(subs@);
    let mut i: usize = 0;
    while i < subs.len()
        invariant
            0 <= i <= subs@.len(),
            all == views(subs@),
            forall|j: int|
                0 <= j < i ==> !(#[trigger] all[j]).wants(
                    s@.origin_crs,
                    s@.destination_crs,
                    s@.calling_point_crs,
                ),
        decreases subs.len() - i,
    {
        if subs[i].is_for(s.origin_crs.as_str(), s.destination_crs.as_str(), &s.calling_point_crs) {
            assert(all[i as int].wants(s@.origin_crs, s@.destination_crs, s@.calling_point_crs));
            return true;
        }
        i += 1;
    }
    false
}

fn select_wanted(map: &TextMap<ServiceSnapshot>, subs: &Vec<Subscription>) -> (r: TextMap<
    ServiceSnapshot,
>)
    ensures
        r@ == wanted_services(map@, views(subs@)),
        map.wf() ==> r.wf(),
{
    let ghost all = map@;
    let mut out: Vec<(String, ServiceSnapshot)> = Vec::new();
    let mut i: usize = 0;
    assert(all.take(0) =~= Seq::<(Seq<char>, ServiceView)>::empty());
    assert(pairs(out@) =~= Seq::<(Seq<char>, ServiceView)>::empty());
    while i < map.entries.len()
        invariant
            0 <= i <= map.entries@.len(),
            all == map@,
            pairs(out@) == wanted_services(all.take(i as int), views(subs@)),
        decreases map.entries.len() - i,
    {
        assert(all.take(i + 1).drop_last() =~= all.take(i as int));
        let ghost prior = pairs(out@);
        let entry = &map.entries[i];
        if wants_service(subs, &entry.1) {
            out.push((entry.0.clone(), entry.1.clone()));
            assert(pairs(out@) =~= prior.push((entry.0@, entry.1@)));
        }
        i += 1;
    }
    assert(all.take(i as int) =~= all);
    proof {
        if map.wf() {
            lemma_wanted_distinct(map@, views(subs@));
        }
    }
    TextMap { entries: out }
}

proof fn lemma_wanted(map: Snapshots, subs: Seq<SubscriptionView>, p: (Seq<char>, ServiceView))
    ensures
        wanted_services(map, subs).contains(p) <==> map.contains(p) && is_wanted(subs, p.1),
    decreases map.len(),
{
    if map.len() > 0 {
        let t = map.drop_last();
        let rest = wanted_services(t, subs);
        let r = wanted_services(map, subs);
        lemma_wanted(t, subs, p);
        if map.contains(p) && is_wanted(subs, p.1) {
            let k = choose|k: int| 0 <= k < map.len() && map[k] == p;
            if k < t.len() {
                assert(t[k] == p);
                let j = choose|j: int| 0 <= j < rest.len() && rest[j] == p;
                assert(r[j] == p);
            } else {
                assert(r[r.len() - 1] == p);
            }
        }
        if r.contains(p) {
            let k = choose|k: int| 0 <= k < r.len() && r[k] == p;
            if k < rest.len() {
                assert(rest[k] == p);
                let j = choose|j: int| 0 <= j < t.len() && t[j] == p;
                assert(map[j] == p);
            } else {
                assert(map[map.len() - 1] == p);
            }
        }
    }
}

proof fn lemma_wanted_distinct(map: Snapshots, subs: Seq<SubscriptionView>)
    requires
        distinct_keys(map),
    ensures
        distinct_keys(wanted_services(map, subs)),
    decreases map.len(),
{
    if map.len() > 0 {
        let t = map.drop_last();
        let rest = wanted_services(t, subs);
        let r = wanted_services(map, subs);
        lemma_wanted_distinct(t, subs);
        assert forall|i: int, j: int| 0 <= i < j < r.len() implies (#[trigger] r[i]).0 != (
        #[trigger] r[j]).0 by {
            if j == rest.len() {
                lemma_wanted(t, subs, rest[i]);
                assert(rest.contains(rest[i]));
                let k = choose|k: int| 0 <= k < t.len() && t[k] == rest[i];
                assert(map[k].0 != map[map.len() - 1].0);
            }
        }
    }
}

/// The board of a user: the services that they want, as far as they are shown.
pub open spec fn user_view(map: Snapshots, subs: Seq<SubscriptionView>) -> Snapshots {
    windowed(wanted_services(map, subs), DISPLAY_ROWS as nat)
}

/// The services that this user cares about, cut to the per-origin window shown
/// in the digest so that services outside it don't trigger notifications.
pub fn view_for(map: &TextMap<ServiceSnapshot>, subs: &Vec<Subscription>) -> (r: TextMap<
    ServiceSnapshot,
>)
    ensures
        r@ == user_view(map@, views(subs@)),
        map.wf() ==> r.wf(),
{
    truncate_to_display_window(select_wanted(map, subs), DISPLAY_ROWS)
}

// ---------------------------------------------------------------------------
// Messages
// ---------------------------------------------------------------------------

/// The names of the origin stations that are on the list.
pub open spec fn station_names(subs: Seq<SubscriptionView>, index: StationIndexView) -> Seq<
    (Seq<char>, Seq<char>),
>
    decreases subs.len(),
{
    if subs.len() == 0 {
        Seq::empty()
    } else {
        let rest = station_names(subs.drop_last(), index);
        let crs = subs.last().origin_crs;
        match value_of(index.by_crs, uppercase(crs)) {
            Some(station) => with_pair(rest, crs, station.name),
            None => rest,
        }
    }
}

fn names_for(subs: &Vec<Subscription>, stations: &StationIndex) -> (r: TextMap<String>)
    ensures
        r@ == station_names(views(subs@), stations@),
{
    let ghost all = views(subs@);
    let mut out: TextMap<String> = TextMap::new();
    let mut i: usize = 0;
    assert(all.take(0) =~= Seq::<SubscriptionView>::empty());
    while i < subs.len()
        invariant
            0 <= i <= subs@.len(),
            all == views(subs@),
            out@ == station_names(all.take(i as int), stations@),
        decreases subs.len() - i,
    {
        assert(all.take(i + 1).drop_last() =~= all.take(i as int));
        let crs = &subs[i].origin_crs;
        if let Some(station) = stations.by_crs(crs.as_str()) {
            out.insert(crs.clone(), station.name.clone());
        }
        i += 1;
    }
    assert(all.take(i as int) =~= all);
    out
}

/// The IDs of the services that changed.
pub open spec fn changed_ids(all: Seq<ServiceChangeView>) -> Seq<Seq<char>> {
    Seq::new(all.len(), |i: int| all[i].snapshot.service_id)
}

/// A message for one user, and the board that it shows.
pub struct Notification {
    pub text: String,
    pub board: TextMap<ServiceSnapshot>,
}

#[verifier::ext_equal]
pub struct NotificationView {
    pub text: Seq<char>,
    pub board: Snapshots,
}

impl View for Notification {
    type V = NotificationView;

    open spec fn view(&self) -> NotificationView {
        NotificationView { text: self.text@, board: self.board@ }
    }
}

/// The boards that the users were last shown.
pub type Seen = Seq<(UserKeyView, Snapshots)>;

/// The message for a watcher: none while their board shows what they were
/// last shown.
pub open spec fn notification(
    seen: Seen,
    watcher: WatcherView,
    map: Snapshots,
    now: Seq<char>,
    index: StationIndexView,
) -> Option<NotificationView> {
    let board = user_view(map, watcher.subscriptions);
    let all = changes(value_of(seen, watcher.key), board);
    if all.len() == 0 {
        None
    } else {
        match digest(
            watcher.subscriptions,
            board,
            changed_ids(all),
            now,
            station_names(watcher.subscriptions, index),
            watcher.key.channel,
        ) {
            Some(text) => Some(NotificationView { text, board }),
            None => None,
        }
    }
}

/// What the poller remembers from one cycle to the next: for each user the
/// board of the last message that was delivered, so the diff always reflects
/// what the user last saw.
pub struct Poller {
    pub seen: UserMap<TextMap<ServiceSnapshot>>,
}

impl View for Poller {
    type V = Seen;

    open spec fn view(&self) -> Seen {
        self.seen@
    }
}

impl Poller {
    /// Each user is remembered once.
    pub open spec fn wf(&self) -> bool {
        self.seen.wf()
    }

    /// A poller that has told nobody anything yet.
    pub fn new() -> (r: Self)
        ensures
            r@ == Seq::<(UserKeyView, Snapshots)>::empty(),
            r.wf(),
    {
        Poller { seen: UserMap::new() }
    }

    /// The message for a watcher, if their board changed. `now_str` is the time
    /// that the message gives.
    pub fn notify(
        &self,
        watcher: &Watcher,
        map: &TextMap<ServiceSnapshot>,
        now_str: &str,
        stations: &StationIndex,
    ) -> (r: Option<Notification>)
        ensures
            match r {
                Some(n) => {
                    &&& notification(self@, watcher@, map@, now_str@, stations@) == Some(n@)
                    &&& map.wf() ==> n.board.wf()
                },
                None => notification(self@, watcher@, map@, now_str@, stations@) is None,
            },
    {
        let board = view_for(map, &watcher.subscriptions);
        let last = self.seen.get(&watcher.key);
        let all = diff(last, &board);
        if all.len() == 0 {
            return None;
        }
        let ghost views_all = views(all@);
        let mut changed: Vec<String> = Vec::new();
        let mut i: usize = 0;
        while i < all.len()
            invariant
                0 <= i <= all@.len(),
                views_all == views(all@),
                texts(changed@) == changed_ids(views_all).take(i as int),
            decreases all.len() - i,
        {
            let ghost prior = texts(changed@);
            changed.push(all[i].snapshot.service_id.clone());
            assert(texts(changed@) =~= prior.push(views_all[i as int].snapshot.service_id));
            assert(changed_ids(views_all).take(i + 1) =~= changed_ids(views_all).take(
                i as int,
            ).push(views_all[i as int].snapshot.service_id));
            i += 1;
        }
        assert(changed_ids(views_all).take(i as int) =~= changed_ids(views_all));
        let names = names_for(&watcher.subscriptions, stations);
        match format_digest(
            &watcher.subscriptions,
            &board,
            &changed,
            now_str,
            &names,
            &watcher.key.channel,
        ) {
            Some(text) => Some(Notification { text, board }),
            None => None,
        }
    }

    /// Only a message that was delivered counts as seen.
    pub fn sent(&mut self, key: UserKey, board: TextMap<ServiceSnapshot>, delivered: bool)
        ensures
            final(self)@ == (if delivered {
                with_pair(old(self)@, key@, board@)
            } else {
                old(self)@
            }),
            old(self).wf() ==> final(self).wf(),
    {
        if delivered {
            self.seen.insert(key, board);
        }
    }

    /// Forget what a user was shown, so that a fresh board is sent if they
    /// subscribe again.
    pub fn forget(&mut self, key: &UserKey)
        ensures
            final(self)@ == without_key(old(self)@, key@),
            old(self).wf() ==> final(self).wf(),
    {
        self.seen.remove(key);
    }
}

// ---------------------------------------------------------------------------
// Laws
// ---------------------------------------------------------------------------

/// No call stands in the list twice.
pub open spec fn distinct_calls(calls: Seq<CallKeyView>) -> bool {
    forall|i: int, j: int| 0 <= i < j < calls.len() ==> #[trigger] calls[i] != #[trigger] calls[j]
}

proof fn lemma_with_calls(calls: Seq<CallKeyView>, more: Seq<CallKeyView>)
    requires
        distinct_calls(calls),
    ensures
        distinct_calls(with_calls(calls, more)),
        forall|k: CallKeyView| #[trigger]
            with_calls(calls, more).contains(k) <==> calls.contains(k) || more.contains(k),
    decreases more.len(),
{
    if more.len() > 0 {
        let t = more.drop_last();
        lemma_with_calls(calls, t);
        let prior = with_calls(calls, t);
        let r = with_calls(calls, more);
        assert forall|i: int, j: int| 0 <= i < j < r.len() implies #[trigger] r[i]
            != #[trigger] r[j] by {
            if j == prior.len() {
                assert(prior.contains(prior[i]));
            }
        }
        assert forall|k: CallKeyView| #[trigger]
            r.contains(k) <==> calls.contains(k) || more.contains(k) by {
            if r.contains(k) {
                let i = choose|i: int| 0 <= i < r.len() && r[i] == k;
                if i < prior.len() {
                    assert(prior[i] == k);
                    assert(prior.contains(k));
                    if t.contains(k) {
                        let m = choose|m: int| 0 <= m < t.len() && t[m] == k;
                        assert(more[m] == k);
                    }
                } else {
                    assert(more[more.len() - 1] == k);
                }
            }
            if calls.contains(k) || more.contains(k) {
                if !calls.contains(k) {
                    let m = choose|m: int| 0 <= m < more.len() && more[m] == k;
                    if m < t.len() {
                        assert(t[m] == k);
                    }
                }
                if prior.contains(k) {
                    let i = choose|i: int| 0 <= i < prior.len() && prior[i] == k;
                    assert(r[i] == k);
                } else {
                    assert(k == more.last());
                    assert(r[r.len() - 1] == k);
                }
            }
        }
    } else {
        assert(forall|k: CallKeyView| !more.contains(k));
    }
}

proof fn lemma_with_boards(
    calls: Seq<CallKeyView>,
    subs: Seq<SubscriptionView>,
    filter_at_api: bool,
)
    requires
        distinct_calls(calls),
    ensures
        distinct_calls(with_boards(calls, subs, filter_at_api)),
        forall|k: CallKeyView| #[trigger]
            calls.contains(k) ==> with_boards(calls, subs, filter_at_api).contains(k),
        forall|i: int, k: CallKeyView|
            0 <= i < subs.len() && #[trigger] boards_of(subs[i], filter_at_api).contains(k)
                ==> with_boards(calls, subs, filter_at_api).contains(k),
    decreases subs.len(),
{
    if subs.len() > 0 {
        let t = subs.drop_last();
        lemma_with_boards(calls, t, filter_at_api);
        lemma_with_calls(
            with_boards(calls, t, filter_at_api),
            boards_of(subs.last(), filter_at_api),
        );
        assert forall|i: int, k: CallKeyView|
            0 <= i < subs.len() && #[trigger] boards_of(subs[i], filter_at_api).contains(
                k,
            ) implies with_boards(calls, subs, filter_at_api).contains(k) by {
            if i < t.len() {
                assert(t[i] == subs[i]);
                assert(boards_of(t[i], filter_at_api).contains(k));
            }
        }
    }
}

/// Each board is fetched once per cycle, whoever needs it.
pub proof fn boards_are_fetched_once(all: Seq<WatcherView>, filter_at_api: bool)
    ensures
        distinct_calls(boards(all, filter_at_api)),
    decreases all.len(),
{
    if all.len() > 0 {
        boards_are_fetched_once(all.drop_last(), filter_at_api);
        lemma_with_boards(
            boards(all.drop_last(), filter_at_api),
            all.last().subscriptions,
            filter_at_api,
        );
    }
}

/// Every board that an active subscription needs is fetched.
pub proof fn every_board_is_fetched(
    all: Seq<WatcherView>,
    filter_at_api: bool,
    i: int,
    j: int,
    call: CallKeyView,
)
    requires
        0 <= i < all.len(),
        0 <= j < all[i].subscriptions.len(),
        boards_of(all[i].subscriptions[j], filter_at_api).contains(call),
    ensures
        boards(all, filter_at_api).contains(call),
    decreases all.len(),
{
    let t = all.drop_last();
    boards_are_fetched_once(t, filter_at_api);
    lemma_with_boards(boards(t, filter_at_api), all.last().subscriptions, filter_at_api);
    if i < t.len() {
        every_board_is_fetched(t, filter_at_api, i, j, call);
    }
}

/// A message that was delivered is not sent again while the boards stay as they are.
pub proof fn no_message_twice(
    seen: Seen,
    watcher: WatcherView,
    map: Snapshots,
    now: Seq<char>,
    later: Seq<char>,
    index: StationIndexView,
)
    requires
        distinct_keys(map),
        notification(seen, watcher, map, now, index) is Some,
    ensures
        notification(
            with_pair(
                seen,
                watcher.key,
                notification(seen, watcher, map, now, index)->0.board,
            ),
            watcher,
            map,
            later,
            index,
        ) is None,
{
    let board = user_view(map, watcher.subscriptions);
    lookup_after_insertion(seen, watcher.key, board, watcher.key);
    lemma_wanted_distinct(map, watcher.subscriptions);
    window_keeps_keys_distinct(
        wanted_services(map, watcher.subscriptions),
        DISPLAY_ROWS as nat,
    );
    no_change_without_change(board);
}

/// What one user was shown has no bearing on the messages of another.
pub proof fn users_are_told_apart(
    seen: Seen,
    key: UserKeyView,
    board: Snapshots,
    watcher: WatcherView,
    map: Snapshots,
    now: Seq<char>,
    index: StationIndexView,
)
    requires
        watcher.key != key,
    ensures
        notification(with_pair(seen, key, board), watcher, map, now, index) == notification(
            seen,
            watcher,
            map,
            now,
            index,
        ),
{
    lookup_after_insertion(seen, key, board, watcher.key);
}

proof fn lemma_origins(subs: Seq<SubscriptionView>, i: int)
    requires
        0 <= i < subs.len(),
    ensures
        origins(subs).contains(subs[i].origin_crs),
    decreases subs.len(),
{
    let t = subs.drop_last();
    let front = origins(t);
    let c = subs[i].origin_crs;
    if i < t.len() {
        lemma_origins(t, i);
        let k = choose|k: int| 0 <= k < front.len() && front[k] == c;
        assert(origins(subs)[k] == c);
    } else if !front.contains(c) {
        assert(origins(subs)[front.len() as int] == c);
    }
}

proof fn lemma_sections(
    subs: Seq<SubscriptionView>,
    board: Snapshots,
    changed: Seq<Seq<char>>,
    names: Seq<(Seq<char>, Seq<char>)>,
    channel: Channel,
    stations: Seq<Seq<char>>,
    crs: Seq<char>,
)
    requires
        stations.contains(crs),
        of_origin(board, crs).len() > 0,
    ensures
        sections(subs, board, changed, names, channel, stations).len() > 0,
    decreases stations.len(),
{
    let t = stations.drop_last();
    if stations.last() != crs {
        let k = choose|k: int| 0 <= k < stations.len() && stations[k] == crs;
        assert(t[k] == crs);
        lemma_sections(subs, board, changed, names, channel, t, crs);
    }
}

proof fn lemma_of_origin_holds(board: Snapshots, i: int)
    requires
        0 <= i < board.len(),
    ensures
        of_origin(board, board[i].1.origin_crs).len() > 0,
    decreases board.len(),
{
    let t = board.drop_last();
    if i < t.len() {
        lemma_of_origin_holds(t, i);
    }
}

/// A watcher gets a message if and only if their board changed.
pub proof fn every_change_is_told(
    seen: Seen,
    watcher: WatcherView,
    map: Snapshots,
    now: Seq<char>,
    index: StationIndexView,
)
    ensures
        notification(seen, watcher, map, now, index) is Some <==> changes(
            value_of(seen, watcher.key),
            user_view(map, watcher.subscriptions),
        ).len() > 0,
{
    let subs = watcher.subscriptions;
    let board = user_view(map, subs);
    let last = value_of(seen, watcher.key);
    if changes(last, board).len() > 0 {
        changes_are_on_the_new_map(last, board, 0);
        window_is_part_of_the_view(wanted_services(map, subs), DISPLAY_ROWS as nat, 0);
        let p = board[0];
        lemma_wanted(map, subs, p);
        let i = choose|i: int|
            0 <= i < subs.len() && (#[trigger] subs[i]).wants(
                p.1.origin_crs,
                p.1.destination_crs,
                p.1.calling_point_crs,
            );
        lemma_origins(subs, i);
        lemma_of_origin_holds(board, 0);
        lemma_sections(
            subs,
            board,
            changed_ids(changes(last, board)),
            station_names(subs, index),
            watcher.key.channel,
            origins(subs),
            p.1.origin_crs,
        );
    }
}

/// A user who was forgotten is sent a fresh board as soon as there is a
/// service that they want.
pub proof fn forgotten_user_gets_a_fresh_board(
    seen: Seen,
    watcher: WatcherView,
    map: Snapshots,
    now: Seq<char>,
    index: StationIndexView,
)
    requires
        distinct_keys(seen),
        wanted_services(map, watcher.subscriptions).len() > 0,
    ensures
        notification(without_key(seen, watcher.key), watcher, map, now, index) is Some,
{
    let after = without_key(seen, watcher.key);
    lookup_after_removal(seen, watcher.key, watcher.key);
    let board = user_view(map, watcher.subscriptions);
    window_is_not_empty(wanted_services(map, watcher.subscriptions), DISPLAY_ROWS as nat);
    nothing_to_tell(None, board);
    if changes(None, board).len() == 0 {
        assert(is_old_news(None, board[0]));
    }
    every_change_is_told(after, watcher, map, now, index);
}

} // verus!
