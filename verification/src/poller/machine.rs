//! The polling cycle as a machine.
//!
//! The caller performs an action and hands back what came of it as an event,
//! on which the machine goes on with the next action.

use crate::clock::{london_hour_minute, london_text, Timestamp};
use crate::darwin::{Service, ServiceView};
use crate::domain::{User, UserKey, UserKeyView, UserView};
use crate::poller::diff::{ServiceSnapshot, Snapshots};
use crate::poller::{
    add_services, boards, notification, watchers, with_services, CallKey, CallKeyView, Cycle,
    Poller, Seen, Watcher, WatcherView,
};
use crate::stations::{StationIndex, StationIndexView};
use crate::table::{with_pair, without_key, TextMap};
use crate::text::{opt_text, views};
use vstd::prelude::*;
use vstd::string::*;

verus! {

// ---------------------------------------------------------------------------
// Events and actions
// ---------------------------------------------------------------------------

/// What came of the last action.
pub enum Event {
    /// A cycle begins, with the time and the users as they are.
    Woken { now: Timestamp, users: Vec<User> },
    /// The expired subscriptions of the user are removed; `notice` tells the
    /// user so, where there were any.
    Expired { notice: Option<String> },
    /// A message went out, or it did not.
    Sent { delivered: bool },
    /// The boards came in: the services of all those that could be fetched.
    Fetched { services: Vec<Service> },
}

pub enum EventView {
    Woken { now: Timestamp, users: Seq<UserView> },
    Expired { notice: Option<Seq<char>> },
    Sent { delivered: bool },
    Fetched { services: Seq<ServiceView> },
}

impl View for Event {
    type V = EventView;

    open spec fn view(&self) -> EventView {
        match self {
            Event::Woken { now, users } => EventView::Woken { now: *now, users: views(users@) },
            Event::Expired { notice } => EventView::Expired { notice: opt_text(*notice) },
            Event::Sent { delivered } => EventView::Sent { delivered: *delivered },
            Event::Fetched { services } => EventView::Fetched { services: views(services@) },
        }
    }
}

/// What is to be done next.
pub enum Action {
    /// Remove the expired subscriptions of the user.
    Expire { key: UserKey, now: Timestamp },
    /// Save the user, whose subscriptions have changed, and send the message.
    SaveAndSend { key: UserKey, text: String },
    /// Send the message.
    Send { key: UserKey, text: String },
    /// Fetch the boards.
    Fetch { calls: Vec<CallKey> },
    /// Write the metrics if `flush` says so, then sleep until the next cycle.
    Sleep { flush: bool },
}

pub enum ActionView {
    Expire { key: UserKeyView, now: Timestamp },
    SaveAndSend { key: UserKeyView, text: Seq<char> },
    Send { key: UserKeyView, text: Seq<char> },
    Fetch { calls: Seq<CallKeyView> },
    Sleep { flush: bool },
}

impl View for Action {
    type V = ActionView;

    open spec fn view(&self) -> ActionView {
        match self {
            Action::Expire { key, now } => ActionView::Expire { key: key@, now: *now },
            Action::SaveAndSend { key, text } => ActionView::SaveAndSend {
                key: key@,
                text: text@,
            },
            Action::Send { key, text } => ActionView::Send { key: key@, text: text@ },
            Action::Fetch { calls } => ActionView::Fetch { calls: views(calls@) },
            Action::Sleep { flush } => ActionView::Sleep { flush: *flush },
        }
    }
}

// ---------------------------------------------------------------------------
// States
// ---------------------------------------------------------------------------

/// Where a cycle stands.
pub enum Stage {
    /// Between two cycles.
    Asleep,
    /// The users are gone through for expired subscriptions; the one at
    /// `position` is due. `noticed` says that their notice is on its way.
    Expiring {
        now: Timestamp,
        cycle: Cycle,
        keys: Vec<UserKey>,
        position: usize,
        noticed: bool,
    },
    /// The boards are on their way.
    Fetching { now: Timestamp, watchers: Vec<Watcher> },
    /// The watchers are told; the message to the one at `position`, which shows
    /// `board`, is on its way.
    Reporting {
        now_str: String,
        watchers: Vec<Watcher>,
        map: TextMap<ServiceSnapshot>,
        position: usize,
        board: TextMap<ServiceSnapshot>,
    },
}

pub enum StageView {
    Asleep,
    Expiring {
        now: Timestamp,
        watchers: Seq<WatcherView>,
        calls: Seq<CallKeyView>,
        keys: Seq<UserKeyView>,
        position: int,
        noticed: bool,
    },
    Fetching { now: Timestamp, watchers: Seq<WatcherView> },
    Reporting {
        now_str: Seq<char>,
        watchers: Seq<WatcherView>,
        map: Snapshots,
        position: int,
        board: Snapshots,
    },
}

impl View for Stage {
    type V = StageView;

    open spec fn view(&self) -> StageView {
        match self {
            Stage::Asleep => StageView::Asleep,
            Stage::Expiring { now, cycle, keys, position, noticed } => StageView::Expiring {
                now: *now,
                watchers: views(cycle.watchers@),
                calls: views(cycle.calls@),
                keys: views(keys@),
                position: *position as int,
                noticed: *noticed,
            },
            Stage::Fetching { now, watchers } => StageView::Fetching {
                now: *now,
                watchers: views(watchers@),
            },
            Stage::Reporting { now_str, watchers, map, position, board } => StageView::Reporting {
                now_str: now_str@,
                watchers: views(watchers@),
                map: map@,
                position: *position as int,
                board: board@,
            },
        }
    }
}

impl StageView {
    /// The position is one in the list, and the time is one the calendar covers.
    pub open spec fn wf(self) -> bool {
        match self {
            StageView::Asleep => true,
            StageView::Expiring { now, keys, position, .. } => now.wf() && 0 <= position
                < keys.len(),
            StageView::Fetching { now, .. } => now.wf(),
            StageView::Reporting { watchers, position, .. } => 0 <= position < watchers.len(),
        }
    }

    /// The event is one that can come in this state.
    pub open spec fn awaits(self, event: EventView) -> bool {
        match self {
            StageView::Asleep => event matches EventView::Woken { now, .. } && now.wf(),
            StageView::Expiring { noticed, .. } => if noticed {
                event is Sent
            } else {
                event is Expired
            },
            StageView::Fetching { .. } => event is Fetched,
            StageView::Reporting { .. } => event is Sent,
        }
    }
}

/// The machine: what users were last shown, and where the cycle stands.
#[verifier::ext_equal]
pub struct MachineView {
    pub seen: Seen,
    pub stage: StageView,
}

/// A state and the action that leads on from it.
#[verifier::ext_equal]
pub struct Move {
    pub to: MachineView,
    pub action: ActionView,
}

/// The next user is due for expiry; behind the last one the boards are fetched,
/// or the cycle is over where there is none to fetch.
pub open spec fn expire_at(
    seen: Seen,
    now: Timestamp,
    all: Seq<WatcherView>,
    calls: Seq<CallKeyView>,
    keys: Seq<UserKeyView>,
    position: int,
) -> Move {
    if position < keys.len() {
        Move {
            to: MachineView {
                seen,
                stage: StageView::Expiring {
                    now,
                    watchers: all,
                    calls,
                    keys,
                    position,
                    noticed: false,
                },
            },
            action: ActionView::Expire { key: keys[position], now },
        }
    } else if calls.len() == 0 {
        Move {
            to: MachineView { seen, stage: StageView::Asleep },
            action: ActionView::Sleep { flush: true },
        }
    } else {
        Move {
            to: MachineView { seen, stage: StageView::Fetching { now, watchers: all } },
            action: ActionView::Fetch { calls },
        }
    }
}

/// The next watcher from a position on whose board changed is told; behind the
/// last one the cycle is over.
pub open spec fn report_from(
    seen: Seen,
    now_str: Seq<char>,
    all: Seq<WatcherView>,
    map: Snapshots,
    index: StationIndexView,
    position: int,
) -> Move
    decreases all.len() - position,
{
    if position >= all.len() {
        Move {
            to: MachineView { seen, stage: StageView::Asleep },
            action: ActionView::Sleep { flush: true },
        }
    } else {
        match notification(seen, all[position], map, now_str, index) {
            Some(n) => Move {
                to: MachineView {
                    seen,
                    stage: StageView::Reporting {
                        now_str,
                        watchers: all,
                        map,
                        position,
                        board: n.board,
                    },
                },
                action: ActionView::Send { key: all[position].key, text: n.text },
            },
            None => report_from(seen, now_str, all, map, index, position + 1),
        }
    }
}

pub open spec fn keys_of(users: Seq<UserView>) -> Seq<UserKeyView> {
    Seq::new(users.len(), |i: int| users[i].key)
}

/// What an event leads to.
pub open spec fn next(
    m: MachineView,
    event: EventView,
    index: StationIndexView,
    filter_at_api: bool,
) -> Move {
    match (m.stage, event) {
        (StageView::Asleep, EventView::Woken { now, users }) => {
            let all = watchers(users, now);
            expire_at(m.seen, now, all, boards(all, filter_at_api), keys_of(users), 0)
        },
        (
            StageView::Expiring { now, watchers, calls, keys, position, .. },
            EventView::Expired { notice },
        ) => match notice {
            Some(text) => Move {
                to: MachineView {
                    seen: without_key(m.seen, keys[position]),
                    stage: StageView::Expiring {
                        now,
                        watchers,
                        calls,
                        keys,
                        position,
                        noticed: true,
                    },
                },
                action: ActionView::SaveAndSend { key: keys[position], text },
            },
            None => expire_at(m.seen, now, watchers, calls, keys, position + 1),
        },
        (
            StageView::Expiring { now, watchers, calls, keys, position, .. },
            EventView::Sent { .. },
        ) => expire_at(m.seen, now, watchers, calls, keys, position + 1),
        (StageView::Fetching { now, watchers }, EventView::Fetched { services }) => {
            let map = with_services(Seq::empty(), services);
            if map.len() == 0 {
                Move {
                    to: MachineView { seen: m.seen, stage: StageView::Asleep },
                    action: ActionView::Sleep { flush: false },
                }
            } else {
                report_from(m.seen, london_text(now), watchers, map, index, 0)
            }
        },
        (
            StageView::Reporting { now_str, watchers, map, position, board },
            EventView::Sent { delivered },
        ) => report_from(
            if delivered {
                with_pair(m.seen, watchers[position].key, board)
            } else {
                m.seen
            },
            now_str,
            watchers,
            map,
            index,
            position + 1,
        ),
        _ => Move { to: m, action: ActionView::Sleep { flush: false } },
    }
}

// ---------------------------------------------------------------------------
// The machine
// ---------------------------------------------------------------------------

pub struct Machine {
    pub poller: Poller,
    pub stage: Stage,
}

impl View for Machine {
    type V = MachineView;

    open spec fn view(&self) -> MachineView {
        MachineView { seen: self.poller@, stage: self.stage@ }
    }
}

fn expire_next(
    poller: Poller,
    now: Timestamp,
    cycle: Cycle,
    keys: Vec<UserKey>,
    position: usize,
) -> (r: (Machine, Action))
    requires
        poller.wf(),
        now.wf(),
    ensures
        (Move { to: r.0@, action: r.1@ }) == expire_at(
            poller@,
            now,
            views(cycle.watchers@),
            views(cycle.calls@),
            views(keys@),
            position as int,
        ),
        r.0.wf(),
{
    if position < keys.len() {
        let key = keys[position].clone();
        let stage = Stage::Expiring { now, cycle, keys, position, noticed: false };
        (Machine { poller, stage }, Action::Expire { key, now })
    } else if cycle.calls.len() == 0 {
        (Machine { poller, stage: Stage::Asleep }, Action::Sleep { flush: true })
    } else {
        let stage = Stage::Fetching { now, watchers: cycle.watchers };
        (Machine { poller, stage }, Action::Fetch { calls: cycle.calls })
    }
}

fn report_next(
    poller: Poller,
    now_str: String,
    all: Vec<Watcher>,
    map: TextMap<ServiceSnapshot>,
    stations: &StationIndex,
    position: usize,
) -> (r: (Machine, Action))
    requires
        poller.wf(),
    ensures
        (Move { to: r.0@, action: r.1@ }) == report_from(
            poller@,
            now_str@,
            views(all@),
            map@,
            stations@,
            position as int,
        ),
        r.0.wf(),
{
    let mut i: usize = position;
    while i < all.len()
        invariant
            poller.wf(),
            report_from(
                poller@,
                now_str@,
                views(all@),
                map@,
                stations@,
                position as int,
            ) == report_from(poller@, now_str@, views(all@), map@, stations@, i as int),
        decreases all.len() - i,
    {
        assert(views(all@)[i as int] == all@[i as int]@);
        if let Some(n) = poller.notify(&all[i], &map, now_str.as_str(), stations) {
            let key = all[i].key.clone();
            let stage = Stage::Reporting {
                now_str,
                watchers: all,
                map,
                position: i,
                board: n.board,
            };
            return (Machine { poller, stage }, Action::Send { key, text: n.text });
        }
        i += 1;
    }
    (Machine { poller, stage: Stage::Asleep }, Action::Sleep { flush: true })
}

fn user_keys(users: &Vec<User>) -> (r: Vec<UserKey>)
    ensures
        views(r@) == keys_of(views(users@)),
{
    let ghost all = keys_of(views(users@));
    let mut out: Vec<UserKey> = Vec::new();
    let mut i: usize = 0;
    while i < users.len()
        invariant
            0 <= i <= users@.len(),
            all == keys_of(views(users@)),
            views(out@) == all.take(i as int),
        decreases users.len() - i,
    {
        let ghost before = views(out@);
        out.push(users[i].key.clone());
        assert(views(out@) =~= before.push(all[i as int]));
        assert(all.take(i + 1) =~= all.take(i as int).push(all[i as int]));
        i += 1;
    }
    assert(all.take(i as int) =~= all);
    out
}

impl Machine {
    /// Each user is remembered once, and the stage is in order.
    pub open spec fn wf(&self) -> bool {
        self.poller.wf() && self@.stage.wf()
    }

    /// A machine between two cycles that has told nobody anything yet.
    pub fn new() -> (r: Self)
        ensures
            r@ == (MachineView { seen: Seq::empty(), stage: StageView::Asleep }),
            r.wf(),
    {
        Machine { poller: Poller::new(), stage: Stage::Asleep }
    }

    /// Go on from an event to the next action. `filter_at_api` says whether
    /// destination filters are left to Darwin.
    pub fn step(self, event: Event, stations: &StationIndex, filter_at_api: bool) -> (r: (
        Machine,
        Action,
    ))
        requires
            self.wf(),
            self@.stage.awaits(event@),
        ensures
            (Move { to: r.0@, action: r.1@ }) == next(self@, event@, stations@, filter_at_api),
            r.0.wf(),
    {
        let mut poller = self.poller;
        match (self.stage, event) {
            (Stage::Asleep, Event::Woken { now, users }) => {
                let cycle = Cycle::collect(&users, now, filter_at_api);
                let keys = user_keys(&users);
                expire_next(poller, now, cycle, keys, 0)
            },
            (Stage::Expiring { now, cycle, keys, position, .. }, Event::Expired { notice }) => {
                match notice {
                    Some(text) => {
                        poller.forget(&keys[position]);
                        let key = keys[position].clone();
                        let stage = Stage::Expiring { now, cycle, keys, position, noticed: true };
                        (Machine { poller, stage }, Action::SaveAndSend { key, text })
                    },
                    None => {
                        let count = keys.len();
                        assert(position < count);
                        expire_next(poller, now, cycle, keys, position + 1)
                    },
                }
            },
            (Stage::Expiring { now, cycle, keys, position, .. }, Event::Sent { .. }) => {
                let count = keys.len();
                assert(position < count);
                expire_next(poller, now, cycle, keys, position + 1)
            },
            (Stage::Fetching { now, watchers }, Event::Fetched { services }) => {
                let mut map: TextMap<ServiceSnapshot> = TextMap::new();
                add_services(&mut map, &services);
                if map.is_empty() {
                    (Machine { poller, stage: Stage::Asleep }, Action::Sleep { flush: false })
                } else {
                    report_next(poller, london_hour_minute(&now), watchers, map, stations, 0)
                }
            },
            (
                Stage::Reporting { now_str, watchers, map, position, board },
                Event::Sent { delivered },
            ) => {
                let count = watchers.len();
                assert(position < count);
                poller.sent(watchers[position].key.clone(), board, delivered);
                report_next(poller, now_str, watchers, map, stations, position + 1)
            },
            (stage, _) => (Machine { poller, stage }, Action::Sleep { flush: false }),
        }
    }
}

// ---------------------------------------------------------------------------
// Laws
// ---------------------------------------------------------------------------

impl StageView {
    /// How many steps a cycle can still take.
    pub open spec fn steps_left(self) -> int {
        match self {
            StageView::Asleep => 0,
            StageView::Expiring { watchers, keys, position, noticed, .. } => watchers.len() + 2 + 2
                * (keys.len() - position) + if noticed {
                0int
            } else {
                1int
            },
            StageView::Fetching { watchers, .. } => watchers.len() as int + 1,
            StageView::Reporting { watchers, position, .. } => watchers.len() - position,
        }
    }
}

proof fn lemma_report_from(
    seen: Seen,
    now_str: Seq<char>,
    all: Seq<WatcherView>,
    map: Snapshots,
    index: StationIndexView,
    position: int,
)
    requires
        0 <= position,
    ensures
        ({
            let r = report_from(seen, now_str, all, map, index, position);
            &&& r.to.seen == seen
            &&& r.action is Sleep <==> r.to.stage is Asleep
            &&& r.to.stage !is Asleep ==> 0 < r.to.stage.steps_left() <= all.len() - position
        }),
    decreases all.len() - position,
{
    if position < all.len() && notification(seen, all[position], map, now_str, index) is None {
        lemma_report_from(seen, now_str, all, map, index, position + 1);
    }
}

/// Every cycle comes to its end: each step leaves fewer to take, and the
/// machine sleeps if and only if none is left.
pub proof fn cycle_comes_to_its_end(
    m: MachineView,
    event: EventView,
    index: StationIndexView,
    filter_at_api: bool,
)
    requires
        m.stage.wf(),
        m.stage.awaits(event),
    ensures
        ({
            let r = next(m, event, index, filter_at_api);
            &&& r.action is Sleep <==> r.to.stage is Asleep
            &&& m.stage !is Asleep ==> 0 <= r.to.stage.steps_left() < m.stage.steps_left()
        }),
{
    match (m.stage, event) {
        (StageView::Fetching { now, watchers }, EventView::Fetched { services }) => {
            let map = with_services(Seq::empty(), services);
            lemma_report_from(m.seen, london_text(now), watchers, map, index, 0);
        },
        (
            StageView::Reporting { now_str, watchers, map, position, board },
            EventView::Sent { delivered },
        ) => {
            let seen = if delivered {
                with_pair(m.seen, watchers[position].key, board)
            } else {
                m.seen
            };
            lemma_report_from(seen, now_str, watchers, map, index, position + 1);
        },
        _ => {},
    }
}

/// What users were last shown changes only when a board is delivered, for the
/// user who got it, and when subscriptions of a user expire.
pub proof fn seen_changes_with_delivery(
    m: MachineView,
    event: EventView,
    index: StationIndexView,
    filter_at_api: bool,
)
    requires
        m.stage.wf(),
        m.stage.awaits(event),
    ensures
        ({
            let after = next(m, event, index, filter_at_api).to.seen;
            match (m.stage, event) {
                (
                    StageView::Reporting { watchers, position, board, .. },
                    EventView::Sent { delivered: true },
                ) => after == with_pair(m.seen, watchers[position].key, board),
                (
                    StageView::Expiring { keys, position, .. },
                    EventView::Expired { notice: Some(_) },
                ) => after == without_key(m.seen, keys[position]),
                _ => after == m.seen,
            }
        }),
{
    match (m.stage, event) {
        (StageView::Fetching { now, watchers }, EventView::Fetched { services }) => {
            let map = with_services(Seq::empty(), services);
            lemma_report_from(m.seen, london_text(now), watchers, map, index, 0);
        },
        (
            StageView::Reporting { now_str, watchers, map, position, board },
            EventView::Sent { delivered },
        ) => {
            let seen = if delivered {
                with_pair(m.seen, watchers[position].key, board)
            } else {
                m.seen
            };
            lemma_report_from(seen, now_str, watchers, map, index, position + 1);
        },
        _ => {},
    }
}

} // verus!
