//! Who is told what in a cycle, and in which order.

use crate::clock::{london_text, Timestamp};
use crate::darwin::ServiceView;
use crate::domain::{UserKeyView, UserView};
use crate::poller::diff::Snapshots;
use crate::poller::machine::{
    keys_of, next, report_from, ActionView, EventView, MachineView, StageView,
};
use crate::poller::{boards, notification, watchers, with_services, Seen, WatcherView};
use crate::stations::StationIndexView;
use crate::table::{
    distinct_keys, lemma_key_position, lookup_after_insertion, lookup_after_removal, value_of,
    with_pair,
};
use vstd::prelude::*;

verus! {

/// A cycle begins with the first user. Without users there is nothing to fetch
/// either, and it is over.
pub proof fn first_user_comes_first(
    m: MachineView,
    now: Timestamp,
    users: Seq<UserView>,
    index: StationIndexView,
    filter_at_api: bool,
)
    requires
        m.stage is Asleep,
    ensures
        ({
            let r = next(m, EventView::Woken { now, users }, index, filter_at_api);
            &&& users.len() > 0 ==> r.action == ActionView::Expire { key: users[0].key, now }
            &&& r.to.seen == m.seen
            &&& users.len() > 0 ==> r.to.stage == StageView::Expiring {
                now,
                watchers: watchers(users, now),
                calls: boards(watchers(users, now), filter_at_api),
                keys: keys_of(users),
                position: 0,
                noticed: false,
            }
        }),
        keys_of(users).len() == users.len(),
        forall|i: int| 0 <= i < users.len() ==> #[trigger] keys_of(users)[i] == users[i].key,
{
}

/// A user whose subscriptions expired is told so, in the words of the notice, and
/// is then taken for one who has seen no board.
pub proof fn expired_users_get_their_notice(
    m: MachineView,
    text: Seq<char>,
    index: StationIndexView,
    filter_at_api: bool,
)
    requires
        m.stage is Expiring,
        m.stage.wf(),
        !m.stage->noticed,
        distinct_keys(m.seen),
    ensures
        ({
            let r = next(m, EventView::Expired { notice: Some(text) }, index, filter_at_api);
            let key = m.stage->keys[m.stage->Expiring_position];
            &&& r.action == ActionView::SaveAndSend { key, text }
            &&& value_of(r.to.seen, key) is None
            &&& forall|other: UserKeyView|
                other != key ==> #[trigger] value_of(r.to.seen, other) == value_of(m.seen, other)
            &&& r.to.stage->Expiring_position == m.stage->Expiring_position
        }),
{
    let key = m.stage->keys[m.stage->Expiring_position];
    lookup_after_removal(m.seen, key, key);
    assert forall|other: UserKeyView| other != key implies #[trigger] value_of(
        next(m, EventView::Expired { notice: Some(text) }, index, filter_at_api).to.seen,
        other,
    ) == value_of(m.seen, other) by {
        lookup_after_removal(m.seen, key, other);
    }
}

/// Behind a user comes the next one, whether or not there was a notice and whether
/// or not it got through; behind the last one the boards are fetched, all of
/// them, or the cycle is over where there are none.
pub proof fn every_user_has_a_turn(
    m: MachineView,
    event: EventView,
    index: StationIndexView,
    filter_at_api: bool,
)
    requires
        m.stage is Expiring,
        m.stage.wf(),
        event is Sent || event == (EventView::Expired { notice: None }),
    ensures
        ({
            let r = next(m, event, index, filter_at_api);
            let at = m.stage->Expiring_position + 1;
            let keys = m.stage->keys;
            let calls = m.stage->calls;
            &&& r.to.seen == m.seen
            &&& at < keys.len() ==> r.action == ActionView::Expire {
                key: keys[at],
                now: m.stage->Expiring_now,
            }
            &&& at == keys.len() && calls.len() > 0 ==> r.action == ActionView::Fetch { calls }
            &&& at == keys.len() && calls.len() == 0 ==> r.action == ActionView::Sleep {
                flush: true,
            }
        }),
{
}

/// The next message goes to the first watcher from a position on who has news,
/// and shows that news; if nobody has any, the cycle is over.
pub proof fn next_one_with_news_is_told(
    seen: Seen,
    now_str: Seq<char>,
    all: Seq<WatcherView>,
    map: Snapshots,
    index: StationIndexView,
    position: int,
    at: int,
)
    requires
        0 <= position <= at <= all.len(),
        forall|i: int|
            position <= i < at ==> notification(seen, #[trigger] all[i], map, now_str, index) is None,
        at < all.len() ==> notification(seen, all[at], map, now_str, index) is Some,
    ensures
        ({
            let r = report_from(seen, now_str, all, map, index, position);
            &&& at < all.len() ==> r.action == ActionView::Send {
                key: all[at].key,
                text: notification(seen, all[at], map, now_str, index)->0.text,
            }
            &&& at < all.len() ==> r.to.stage is Reporting && r.to.stage->Reporting_position == at
                && r.to.stage->board == notification(seen, all[at], map, now_str, index)->0.board
            &&& at == all.len() ==> r.action == (ActionView::Sleep { flush: true })
            &&& r.to.seen == seen
        }),
    decreases at - position,
{
    if position < at {
        assert(notification(seen, all[position], map, now_str, index) is None);
        next_one_with_news_is_told(seen, now_str, all, map, index, position + 1, at);
    }
}

/// Boards that came in are reported from the first watcher on; where nothing came
/// in, nobody is told anything and nothing is written.
pub proof fn reports_start_with_the_first_watcher(
    m: MachineView,
    services: Seq<ServiceView>,
    index: StationIndexView,
    filter_at_api: bool,
)
    requires
        m.stage is Fetching,
    ensures
        ({
            let r = next(m, EventView::Fetched { services }, index, filter_at_api);
            &&& services.len() == 0 ==> r.action == (ActionView::Sleep { flush: false })
            &&& services.len() > 0 ==> r == report_from(
                m.seen,
                london_text(m.stage->Fetching_now),
                m.stage->Fetching_watchers,
                with_services(Seq::empty(), services),
                index,
                0,
            )
        }),
{
    lemma_services_stay(services);
}

proof fn lemma_services_stay(services: Seq<ServiceView>)
    ensures
        with_services(Seq::empty(), services).len() == 0 <==> services.len() == 0,
{
    if services.len() > 0 {
        let rest = with_services(Seq::empty(), services.drop_last());
        lemma_key_position(rest, services.last().service_id);
    }
}

/// A board that was delivered is what its user has seen; one that was not
/// delivered counts as not seen. Either way the next watcher has a turn.
pub proof fn delivered_boards_are_seen(
    m: MachineView,
    delivered: bool,
    index: StationIndexView,
    filter_at_api: bool,
    other: UserKeyView,
)
    requires
        m.stage is Reporting,
        m.stage.wf(),
    ensures
        ({
            let r = next(m, EventView::Sent { delivered }, index, filter_at_api);
            let key = m.stage->Reporting_watchers[m.stage->Reporting_position].key;
            &&& delivered ==> value_of(r.to.seen, key) == Some(m.stage->board)
            &&& !delivered || other != key ==> value_of(r.to.seen, other) == value_of(
                m.seen,
                other,
            )
            &&& r == report_from(
                r.to.seen,
                m.stage->now_str,
                m.stage->Reporting_watchers,
                m.stage->map,
                index,
                m.stage->Reporting_position + 1,
            )
        }),
{
    let all = m.stage->Reporting_watchers;
    let key = all[m.stage->Reporting_position].key;
    let board = m.stage->board;
    lookup_after_insertion(m.seen, key, board, other);
    let seen = if delivered {
        with_pair(m.seen, key, board)
    } else {
        m.seen
    };
    lemma_report_keeps_seen(
        seen,
        m.stage->now_str,
        all,
        m.stage->map,
        index,
        m.stage->Reporting_position + 1,
    );
}

proof fn lemma_report_keeps_seen(
    seen: Seen,
    now_str: Seq<char>,
    all: Seq<WatcherView>,
    map: Snapshots,
    index: StationIndexView,
    position: int,
)
    ensures
        report_from(seen, now_str, all, map, index, position).to.seen == seen,
    decreases all.len() - position,
{
    if position < all.len() && notification(seen, all[position], map, now_str, index) is None {
        lemma_report_keeps_seen(seen, now_str, all, map, index, position + 1);
    }
}

} // verus!
