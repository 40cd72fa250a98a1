//! Channel-agnostic command execution helpers.
//!
//! Each function takes the user whom a command is for and says what comes
//! next: a reply (HTML-formatted for Telegram; channel adapters strip the tags
//! before sending via other channels), or a step that has to be taken first.

use crate::clock::{
    in_calendar, london_hour_minute, london_text, minutes_left, utc_now, Timestamp,
};
use crate::darwin::{DarwinError, Service};
use crate::domain::subscription::{
    distinct_display_ids, is_ulid_text, new_display_id_is_unique, new_ulid, next_id,
};
use crate::domain::{Schedule, ScheduleView, Subscription, SubscriptionView, User, UserView};
use crate::handlers::departures::{
    board_result, code_problem, code_texts, departures_text, require_all, show_departures,
    tagged_codes, BoardQuery, BoardQueryView, Format,
};
use crate::handlers::parsing::{
    days_read, days_text, format_days, format_windows, parse_days, parse_windows, windows_read,
    windows_text,
};
use crate::sorting::{sort, sorted_texts_agree};
use crate::stations::normalise::normalised;
use crate::stations::{
    found, skim_scores, FindResult, FindResultView, StationIndex, StationIndexView,
};
use crate::table::value_of;
use crate::text::{
    all_ascii, clone_texts, decimal, join, join_all, matches_ignoring_case, number_text, opt_text,
    parse_unsigned, same, same_ignoring_case, split, split_at_each, split_words, texts, trim,
    trimmed, unsigned_value, views, words,
};
use crate::unicode::{to_upper, uppercase};
use vstd::prelude::*;
use vstd::string::*;

pub use crate::handlers::departures::require_crs;
pub use crate::markup::{esc, escaped};

verus! {

// ---------------------------------------------------------------------------
// Steps
// ---------------------------------------------------------------------------

/// What is to be done once the user has been saved.
#[derive(Debug)]
pub enum Then {
    /// Reply with this.
    Reply(String),
    /// Confirm, and show this board behind the confirmation.
    Board { confirmed: String, query: BoardQuery },
}

pub enum ThenView {
    Reply(Seq<char>),
    Board { confirmed: Seq<char>, query: BoardQueryView },
}

impl View for Then {
    type V = ThenView;

    open spec fn view(&self) -> ThenView {
        match self {
            Then::Reply(text) => ThenView::Reply(text@),
            Then::Board { confirmed, query } => ThenView::Board {
                confirmed: confirmed@,
                query: query@,
            },
        }
    }
}

/// What a command comes to.
#[derive(Debug)]
pub enum Step {
    /// Reply with this.
    Reply(String),
    /// Save the user, then go on with `after_saving`. `failed` begins the reply
    /// where the user could not be saved.
    Save { then: Then, failed: String },
    /// Fetch the board, then go on with `after_fetching`.
    Fetch { intro: Option<String>, query: BoardQuery },
    /// Reply with this, then shut the service down.
    Shutdown(String),
}

pub enum StepView {
    Reply(Seq<char>),
    Save { then: ThenView, failed: Seq<char> },
    Fetch { intro: Option<Seq<char>>, query: BoardQueryView },
    Shutdown(Seq<char>),
}

impl View for Step {
    type V = StepView;

    open spec fn view(&self) -> StepView {
        match self {
            Step::Reply(text) => StepView::Reply(text@),
            Step::Save { then, failed } => StepView::Save { then: then@, failed: failed@ },
            Step::Fetch { intro, query } => StepView::Fetch {
                intro: opt_text(*intro),
                query: query@,
            },
            Step::Shutdown(text) => StepView::Shutdown(text@),
        }
    }
}

/// What a command makes of a user, and what comes next.
#[verifier::ext_equal]
pub struct Reaction {
    pub user: UserView,
    pub step: StepView,
}

/// The user stays as they are and gets a reply.
pub open spec fn reply(user: UserView, text: Seq<char>) -> Reaction {
    Reaction { user, step: StepView::Reply(text) }
}

/// The user is saved as given; if that succeeds they get the reply.
pub open spec fn saved(user: UserView, text: Seq<char>) -> Reaction {
    Reaction { user, step: StepView::Save { then: ThenView::Reply(text), failed: "Error: "@ } }
}

pub open spec fn with_intro(intro: Option<Seq<char>>, text: Seq<char>) -> Seq<char> {
    match intro {
        Some(i) => i + "\n\n"@ + text,
        None => text,
    }
}

/// A board is fetched only for codes of stations.
pub open spec fn board_step(
    intro: Option<Seq<char>>,
    query: BoardQueryView,
    index: StationIndexView,
) -> StepView {
    match code_problem(index, query.origin_crs, query.destinations) {
        Some(msg) => StepView::Reply(with_intro(intro, msg)),
        None => StepView::Fetch { intro, query },
    }
}

/// What comes next once it is known whether the user could be saved.
pub open spec fn step_after_saving(
    then: ThenView,
    failed: Seq<char>,
    result: Result<(), Seq<char>>,
    index: StationIndexView,
) -> StepView {
    match result {
        Err(e) => StepView::Reply(failed + escaped(e)),
        Ok(_) => match then {
            ThenView::Reply(text) => StepView::Reply(text),
            ThenView::Board { confirmed, query } => board_step(Some(confirmed), query, index),
        },
    }
}

fn introduced(intro: &Option<String>, text: String) -> (r: String)
    ensures
        r@ == with_intro(opt_text(*intro), text@),
{
    match intro {
        Some(i) => {
            let mut all = i.clone();
            all.append("\n\n");
            all.append(text.as_str());
            all
        },
        None => text,
    }
}

/// Live departures from a station, optionally to some destinations.
pub fn exec_now(intro: Option<String>, query: BoardQuery, stations: &StationIndex) -> (r: Step)
    ensures
        r@ == board_step(opt_text(intro), query@, stations@),
{
    match require_all(query.origin_crs.as_str(), &query.destinations, stations) {
        Err(msg) => Step::Reply(introduced(&intro, msg)),
        Ok(_) => Step::Fetch { intro, query },
    }
}

/// Go on once it is known whether the user could be saved. The error is given in words.
pub fn after_saving(
    then: Then,
    failed: &str,
    result: Result<(), String>,
    stations: &StationIndex,
) -> (r: Step)
    ensures
        r@ == step_after_saving(
            then@,
            failed@,
            match result {
                Ok(_) => Ok(()),
                Err(e) => Err(e@),
            },
            stations@,
        ),
{
    match result {
        Err(e) => {
            let mut text = failed.to_string();
            text.append(esc(e.as_str()).as_str());
            Step::Reply(text)
        },
        Ok(_) => match then {
            Then::Reply(text) => Step::Reply(text),
            Then::Board { confirmed, query } => exec_now(Some(confirmed), query, stations),
        },
    }
}

/// The reply once a board came back or could not be fetched.
pub fn after_fetching(
    intro: Option<String>,
    query: BoardQuery,
    result: Result<Vec<Service>, DarwinError>,
) -> (r: String)
    ensures
        r@ == with_intro(opt_text(intro), departures_text(query@, board_result(result))),
{
    introduced(&intro, show_departures(&query, result))
}

// ---------------------------------------------------------------------------
// Help
// ---------------------------------------------------------------------------

/// SMS help text: mirrors the Telegram command descriptions.
/// Plain ASCII only: SMS (GSM-7) is a 7-bit encoding with no Unicode support.
pub fn exec_help() -> (r: String)
    ensures
        r@ == help_text(),
        all_ascii(r@),
{
    proof {
        reveal_strlit("Available commands:\n/help - Show all commands.\n/find - Search for a CRS station code by name.\n/now - Live departures. Args: CRS [to CRS]\n/sub - Create a subscription. Args: CRS [to CRS] [DAYS HH:MM-HH:MM]\n/unsub - Remove subscription(s). Args: ID or all\n/subs - List your subscriptions.\n/pause - Pause notifications. Args: [MINUTES]\n/resume - Resume notifications.");
    }
    "Available commands:\n/help - Show all commands.\n/find - Search for a CRS station code by name.\n/now - Live departures. Args: CRS [to CRS]\n/sub - Create a subscription. Args: CRS [to CRS] [DAYS HH:MM-HH:MM]\n/unsub - Remove subscription(s). Args: ID or all\n/subs - List your subscriptions.\n/pause - Pause notifications. Args: [MINUTES]\n/resume - Resume notifications.".to_string()
}

pub open spec fn help_text() -> Seq<char> {
    "Available commands:\n/help - Show all commands.\n/find - Search for a CRS station code by name.\n/now - Live departures. Args: CRS [to CRS]\n/sub - Create a subscription. Args: CRS [to CRS] [DAYS HH:MM-HH:MM]\n/unsub - Remove subscription(s). Args: ID or all\n/subs - List your subscriptions.\n/pause - Pause notifications. Args: [MINUTES]\n/resume - Resume notifications."@
}

// ---------------------------------------------------------------------------
// Station search
// ---------------------------------------------------------------------------

/// One candidate of a search.
pub open spec fn candidate_line(c: (Seq<char>, Seq<char>)) -> Seq<char> {
    "\u{2022} "@ + escaped(c.0) + " \u{2014} <code>"@ + escaped(c.1) + "</code>"@
}

pub open spec fn candidate_lines(all: Seq<(Seq<char>, Seq<char>)>) -> Seq<Seq<char>> {
    Seq::new(all.len(), |i: int| candidate_line(all[i]))
}

/// The reply to a search for a station, given what the search came to.
pub open spec fn find_text(
    index: StationIndexView,
    query: Seq<char>,
    result: FindResultView,
) -> Seq<char> {
    match result {
        FindResultView::Exact(crs) => "Found: <b>"@ + escaped(
            match value_of(index.by_crs, uppercase(crs)) {
                Some(s) => s.name,
                None => "Unknown"@,
            },
        ) + "</b> \u{2014} <code>"@ + escaped(crs) + "</code>"@,
        FindResultView::Ambiguous(list) => "Multiple matches:\n"@ + join(
            candidate_lines(list),
            "\n"@,
        ),
        FindResultView::NotFound => "No station found matching \""@ + escaped(query) + "\"."@,
    }
}

/// The reply to a search, given what the search came to.
pub fn show_found(query: &str, result: &FindResult, stations: &StationIndex) -> (r: String)
    ensures
        r@ == find_text(stations@, query@, result@),
{
    match result {
        FindResult::Exact(crs) => {
            let mut text = "Found: <b>".to_string();
            match stations.by_crs(crs.as_str()) {
                Some(s) => text.append(esc(s.name.as_str()).as_str()),
                None => text.append(esc("Unknown").as_str()),
            }
            text.append("</b> \u{2014} <code>");
            text.append(esc(crs.as_str()).as_str());
            text.append("</code>");
            text
        },
        FindResult::Ambiguous(list) => {
            let ghost lines = candidate_lines(views(list@));
            let mut out: Vec<String> = Vec::new();
            let mut i: usize = 0;
            while i < list.len()
                invariant
                    0 <= i <= list@.len(),
                    lines == candidate_lines(views(list@)),
                    texts(out@) == lines.take(i as int),
                decreases list.len() - i,
            {
                let ghost before = texts(out@);
                let c = &list[i];
                let mut line = "\u{2022} ".to_string();
                line.append(esc(c.0.as_str()).as_str());
                line.append(" \u{2014} <code>");
                line.append(esc(c.1.as_str()).as_str());
                line.append("</code>");
                assert(views(list@)[i as int] == (c.0@, c.1@));
                out.push(line);
                assert(texts(out@) =~= before.push(lines[i as int]));
                assert(lines.take(i + 1) =~= lines.take(i as int).push(lines[i as int]));
                i += 1;
            }
            assert(lines.take(i as int) =~= lines);
            let mut text = "Multiple matches:\n".to_string();
            text.append(join_all(&out, "\n").as_str());
            text
        },
        FindResult::NotFound => {
            let mut text = "No station found matching \"".to_string();
            text.append(esc(query).as_str());
            text.append("\".");
            text
        },
    }
}

/// What a search says that goes by the scores of the fuzzy matcher.
pub open spec fn find_reply(index: StationIndexView, query: Seq<char>) -> Seq<char> {
    find_text(index, query, found(index, query, skim_scores(index.all, normalised(query))))
}

/// Search for a station by name.
pub fn exec_find(query: &str, stations: &StationIndex) -> (r: String)
    ensures
        r@ == find_reply(stations@, query@),
{
    let result = stations.find(query);
    show_found(query, &result, stations)
}

// ---------------------------------------------------------------------------
// Subscriptions
// ---------------------------------------------------------------------------

/// The destinations as text.
pub open spec fn destinations_text(filter: Seq<Seq<char>>) -> Seq<char> {
    if filter.len() == 0 {
        "all destinations"@
    } else {
        join(filter, ", "@)
    }
}

fn show_destinations(filter: &Vec<String>) -> (r: String)
    ensures
        r@ == destinations_text(texts(filter@)),
{
    if filter.len() == 0 {
        "all destinations".to_string()
    } else {
        join_all(filter, ", ")
    }
}

pub open spec fn schedule_text(s: Option<ScheduleView>) -> Seq<char> {
    match s {
        None => Seq::empty(),
        Some(s) => " | "@ + days_text(s.days) + " "@ + windows_text(s.windows),
    }
}

pub open spec fn deadline_text(expires_at: Option<Timestamp>, now: Timestamp) -> Seq<char> {
    match expires_at {
        None => Seq::empty(),
        Some(t) => " | expires "@ + london_text(t) + " ("@ + decimal(minutes_left(t, now)) + "m)"@,
    }
}

/// The line of one subscription.
pub open spec fn sub_line(s: SubscriptionView, now: Timestamp) -> Seq<char> {
    "\u{2022} <code>"@ + escaped(s.origin_crs) + "</code> \u{2192} "@ + escaped(
        destinations_text(s.destination_filter),
    ) + "<code>["@ + escaped(s.display_id) + "]</code>"@ + escaped(schedule_text(s.schedule))
        + escaped(deadline_text(s.expires_at, now))
}

pub open spec fn sub_lines(subs: Seq<SubscriptionView>, now: Timestamp) -> Seq<Seq<char>> {
    Seq::new(subs.len(), |i: int| sub_line(subs[i], now))
}

/// The list of a user's subscriptions.
pub open spec fn subs_text(subs: Seq<SubscriptionView>, now: Timestamp) -> Seq<char> {
    if subs.len() == 0 {
        "You have no active subscriptions. Use <code>/sub CRS</code> to subscribe."@
    } else {
        "Your subscriptions:\n"@ + join(sub_lines(subs, now), "\n"@)
            + "\n\nUse <code>/unsub ID</code> to remove one, or <code>/unsub all</code> to remove all."@
    }
}

/// List the subscriptions of a user.
pub fn exec_subs(user: &User, now: Timestamp) -> (r: String)
    requires
        user@.wf(),
        now.wf(),
    ensures
        r@ == subs_text(user@.subscriptions, now),
{
    if user.subscriptions.len() == 0 {
        return "You have no active subscriptions. Use <code>/sub CRS</code> to subscribe.".to_string();
    }
    let ghost subs = user@.subscriptions;
    let ghost lines = sub_lines(subs, now);
    let mut out: Vec<String> = Vec::new();
    let mut i: usize = 0;
    while i < user.subscriptions.len()
        invariant
            0 <= i <= user.subscriptions@.len(),
            user@.wf(),
            now.wf(),
            subs == user@.subscriptions,
            lines == sub_lines(subs, now),
            texts(out@) == lines.take(i as int),
        decreases user.subscriptions.len() - i,
    {
        let ghost before = texts(out@);
        let s = &user.subscriptions[i];
        assert(subs[i as int].wf());
        let sched = match &s.schedule {
            None => String::new(),
            Some(sc) => {
                let mut t = " | ".to_string();
                t.append(format_days(&sc.days).as_str());
                t.append(" ");
                t.append(format_windows(&sc.windows).as_str());
                t
            },
        };
        let expiry = match &s.expires_at {
            None => String::new(),
            Some(exp) => {
                let mut t = " | expires ".to_string();
                t.append(london_hour_minute(exp).as_str());
                t.append(" (");
                t.append(number_text(exp.minutes_after(&now)).as_str());
                t.append("m)");
                t
            },
        };
        assert(sched@ == schedule_text(subs[i as int].schedule));
        assert(expiry@ == deadline_text(subs[i as int].expires_at, now));
        let mut line = "\u{2022} <code>".to_string();
        line.append(esc(s.origin_crs.as_str()).as_str());
        line.append("</code> \u{2192} ");
        line.append(esc(show_destinations(&s.destination_filter).as_str()).as_str());
        line.append("<code>[");
        line.append(esc(s.display_id.as_str()).as_str());
        line.append("]</code>");
        line.append(esc(sched.as_str()).as_str());
        line.append(esc(expiry.as_str()).as_str());
        out.push(line);
        assert(texts(out@) =~= before.push(lines[i as int]));
        assert(lines.take(i + 1) =~= lines.take(i as int).push(lines[i as int]));
        i += 1;
    }
    assert(lines.take(i as int) =~= lines);
    let mut text = "Your subscriptions:\n".to_string();
    text.append(join_all(&out, "\n").as_str());
    text.append(
        "\n\nUse <code>/unsub ID</code> to remove one, or <code>/unsub all</code> to remove all.",
    );
    text
}

/// The position of the first subscription with the display ID, or the length.
pub open spec fn shown_as(subs: Seq<SubscriptionView>, display_id: Seq<char>) -> int
    decreases subs.len(),
{
    if subs.len() == 0 || subs[0].display_id == display_id {
        0
    } else {
        1 + shown_as(subs.drop_first(), display_id)
    }
}

/// The subscriptions without those of an ID, in order.
pub open spec fn without_id(subs: Seq<SubscriptionView>, id: Seq<char>) -> Seq<SubscriptionView>
    decreases subs.len(),
{
    if subs.len() == 0 {
        Seq::empty()
    } else {
        let rest = without_id(subs.drop_last(), id);
        if subs.last().id == id {
            rest
        } else {
            rest.push(subs.last())
        }
    }
}

/// What `/unsub all` comes to.
pub open spec fn cleared(user: UserView) -> Reaction {
    let n = user.subscriptions.len();
    let after = UserView { subscriptions: Seq::empty(), ..user };
    if n == 0 {
        reply(after, "You have no subscriptions to remove."@)
    } else {
        saved(
            after,
            "Removed "@ + decimal(n) + " subscription"@ + (if n == 1 {
                ""@
            } else {
                "s"@
            }) + "."@,
        )
    }
}

/// What `/unsub` comes to.
pub open spec fn unsubscribed(user: UserView, arg: Seq<char>) -> Reaction {
    let id = trim(arg);
    let k = shown_as(user.subscriptions, id);
    if id.len() == 0 {
        reply(
            user,
            "Usage: <code>/unsub ID</code> or <code>/unsub all</code> \u{2014} use <code>/subs</code> to see IDs."@,
        )
    } else if same_ignoring_case(id, "all"@) {
        cleared(user)
    } else if k >= user.subscriptions.len() {
        reply(
            user,
            "No subscription found with ID <code>"@ + escaped(id)
                + "</code>. Use <code>/subs</code> to see your subscriptions."@,
        )
    } else {
        let sub = user.subscriptions[k];
        saved(
            UserView { subscriptions: without_id(user.subscriptions, sub.id), ..user },
            "Removed subscription: "@ + ("<code>"@ + escaped(sub.origin_crs) + "</code> \u{2192} "@
                + escaped(destinations_text(sub.destination_filter))),
        )
    }
}

proof fn lemma_shown_as_is(subs: Seq<SubscriptionView>, display_id: Seq<char>, n: int)
    requires
        0 <= n <= subs.len(),
        n < subs.len() ==> subs[n].display_id == display_id,
        forall|i: int| 0 <= i < n ==> (#[trigger] subs[i]).display_id != display_id,
    ensures
        shown_as(subs, display_id) == n,
    decreases subs.len(),
{
    if n > 0 {
        let t = subs.drop_first();
        assert(subs[0].display_id != display_id);
        assert forall|i: int| 0 <= i < n - 1 implies (#[trigger] t[i]).display_id != display_id by {
            assert(t[i] == subs[i + 1]);
        }
        lemma_shown_as_is(t, display_id, n - 1);
    }
}

/// What is left once an ID is gone was there before.
proof fn lemma_without_id(subs: Seq<SubscriptionView>, id: Seq<char>)
    ensures
        forall|i: int|
            0 <= i < without_id(subs, id).len() ==> subs.contains(
                #[trigger] without_id(subs, id)[i],
            ),
    decreases subs.len(),
{
    if subs.len() > 0 {
        let t = subs.drop_last();
        lemma_without_id(t, id);
        let rest = without_id(t, id);
        let r = without_id(subs, id);
        assert forall|i: int| 0 <= i < r.len() implies subs.contains(#[trigger] r[i]) by {
            if i < rest.len() {
                assert(t.contains(rest[i]));
                let k = choose|k: int| 0 <= k < t.len() && t[k] == rest[i];
                assert(subs[k] == rest[i]);
            } else {
                assert(subs[subs.len() - 1] == r[i]);
            }
        }
    }
}

/// Remove all subscriptions of a user.
pub fn exec_clear(user: &mut User) -> (r: Step)
    ensures
        (Reaction { user: final(user)@, step: r@ }) == cleared(old(user)@),
        old(user)@.wf() ==> final(user)@.wf(),
{
    let count = user.subscriptions.len();
    user.subscriptions = Vec::new();
    assert(user@.subscriptions =~= Seq::<SubscriptionView>::empty());
    if count == 0 {
        return Step::Reply("You have no subscriptions to remove.".to_string());
    }
    let mut text = "Removed ".to_string();
    text.append(number_text(count as u64).as_str());
    text.append(" subscription");
    text.append(
        if count == 1 {
            ""
        } else {
            "s"
        },
    );
    text.append(".");
    Step::Save { then: Then::Reply(text), failed: "Error: ".to_string() }
}

/// Remove the subscription with a display ID, or all of them.
pub fn exec_unsub(id: &str, user: &mut User) -> (r: Step)
    ensures
        (Reaction { user: final(user)@, step: r@ }) == unsubscribed(old(user)@, id@),
        old(user)@.wf() ==> final(user)@.wf(),
{
    let id = trimmed(id);
    if id.as_str().is_empty() {
        return Step::Reply(
            "Usage: <code>/unsub ID</code> or <code>/unsub all</code> \u{2014} use <code>/subs</code> to see IDs.".to_string(),
        );
    }
    if matches_ignoring_case(id.as_str(), "all") {
        return exec_clear(user);
    }
    let ghost subs = user@.subscriptions;
    let n = user.subscriptions.len();
    let mut k: usize = 0;
    while k < n && !same(user.subscriptions[k].display_id.as_str(), id.as_str())
        invariant
            0 <= k <= n,
            n == user.subscriptions@.len(),
            subs == user@.subscriptions,
            forall|j: int| 0 <= j < k ==> (#[trigger] subs[j]).display_id != id@,
        decreases n - k,
    {
        k += 1;
    }
    proof {
        if k < n {
            assert(subs[k as int] == user.subscriptions@[k as int]@);
        }
        lemma_shown_as_is(subs, id@, k as int);
    }
    if k >= n {
        let mut text = "No subscription found with ID <code>".to_string();
        text.append(esc(id.as_str()).as_str());
        text.append("</code>. Use <code>/subs</code> to see your subscriptions.");
        return Step::Reply(text);
    }
    let target = user.subscriptions[k].id.clone();
    let mut description = "<code>".to_string();
    description.append(esc(user.subscriptions[k].origin_crs.as_str()).as_str());
    description.append("</code> \u{2192} ");
    description.append(
        esc(show_destinations(&user.subscriptions[k].destination_filter).as_str()).as_str(),
    );
    let mut rest: Vec<Subscription> = Vec::new();
    let mut i: usize = 0;
    assert(subs.take(0) =~= Seq::<SubscriptionView>::empty());
    assert(views(rest@) =~= Seq::<SubscriptionView>::empty());
    while i < n
        invariant
            0 <= i <= n,
            n == user.subscriptions@.len(),
            subs == user@.subscriptions,
            *user == *old(user),
            views(rest@) == without_id(subs.take(i as int), target@),
        decreases n - i,
    {
        assert(subs.take(i + 1).drop_last() =~= subs.take(i as int));
        let ghost before = views(rest@);
        if !same(user.subscriptions[i].id.as_str(), target.as_str()) {
            rest.push(user.subscriptions[i].clone());
            assert(views(rest@) =~= before.push(subs[i as int]));
        }
        i += 1;
    }
    assert(subs.take(i as int) =~= subs);
    user.subscriptions = rest;
    proof {
        lemma_without_id(subs, target@);
        if old(user)@.wf() {
            assert forall|j: int| 0 <= j < user@.subscriptions.len() implies (
            #[trigger] user@.subscriptions[j]).wf() by {
                let m = choose|m: int| 0 <= m < subs.len() && subs[m] == user@.subscriptions[j];
                assert(old(user)@.subscriptions[m].wf());
            }
        }
    }
    let mut text = "Removed subscription: ".to_string();
    text.append(description.as_str());
    Step::Save { then: Then::Reply(text), failed: "Error: ".to_string() }
}

// ---------------------------------------------------------------------------
// New subscriptions
// ---------------------------------------------------------------------------

/// A reading of the clock and an ID that nothing has yet.
#[derive(Debug)]
pub struct Fresh {
    pub now: Timestamp,
    pub id: String,
}

impl Fresh {
    pub fn read() -> (r: Self)
        ensures
            r.now.wf(),
            is_ulid_text(r.id@),
    {
        Fresh { now: utc_now(), id: new_ulid() }
    }
}

/// Why a temporary subscription would add nothing to the one that exists.
pub open spec fn covered_by(
    existing: SubscriptionView,
    origin: Seq<char>,
    destinations: Seq<Seq<char>>,
) -> Option<Seq<char>> {
    if existing.origin_crs != origin || existing.schedule is Some {
        // Scheduled subscriptions only fire during their window.
        None
    } else if existing.destination_filter.len() == 0 {
        if destinations.len() == 0 {
            Some("Already watching all departures from <code>"@ + escaped(origin) + "</code>."@)
        } else {
            Some(
                "Already watching all departures from <code>"@ + escaped(origin)
                    + "</code> (that already covers those destinations)."@,
            )
        }
    } else if destinations.len() > 0 && existing.destination_filter.to_multiset()
        == destinations.to_multiset() {
        Some(
            "Already watching departures from <code>"@ + escaped(origin)
                + "</code> to those destinations."@,
        )
    } else {
        None
    }
}

/// Why a temporary subscription would add nothing to those that exist.
pub open spec fn covered(
    subs: Seq<SubscriptionView>,
    origin: Seq<char>,
    destinations: Seq<Seq<char>>,
) -> Option<Seq<char>>
    decreases subs.len(),
{
    if subs.len() == 0 {
        None
    } else if covered_by(subs[0], origin, destinations) is Some {
        covered_by(subs[0], origin, destinations)
    } else {
        covered(subs.drop_first(), origin, destinations)
    }
}

/// The instant at which a temporary subscription made now expires.
pub open spec fn default_deadline(now: Timestamp) -> Timestamp {
    Timestamp {
        secs: (now.secs + 60 * Subscription::DEFAULT_EXPIRY_MINUTES) as i64,
        nanos: now.nanos,
    }
}

/// The calendar has room for the deadline of a temporary subscription.
pub open spec fn can_watch(now: Timestamp) -> bool {
    now.wf() && in_calendar(now.secs + 60 * Subscription::DEFAULT_EXPIRY_MINUTES)
}

/// The temporary subscription that a user gets.
pub open spec fn temporary(
    display_id: Seq<char>,
    origin: Seq<char>,
    destinations: Seq<Seq<char>>,
    now: Timestamp,
    id: Seq<char>,
) -> SubscriptionView {
    SubscriptionView {
        id,
        display_id,
        origin_crs: origin,
        destination_filter: destinations,
        schedule: None,
        created_at: now,
        expires_at: Some(default_deadline(now)),
    }
}

pub open spec fn watch_text(
    origin: Seq<char>,
    destinations: Seq<Seq<char>>,
    now: Timestamp,
) -> Seq<char> {
    (if destinations.len() == 0 {
        "Watching all departures from <code>"@ + escaped(origin) + "</code>."@
    } else {
        "Watching departures from <code>"@ + escaped(origin) + "</code> to <code>"@ + escaped(
            join(destinations, ", "@),
        ) + "</code>."@
    }) + " Expires at "@ + london_text(default_deadline(now)) + " (30m)."@
}

/// The answer where every display ID is taken.
pub open spec fn full_text() -> Seq<char> {
    "You have reached the maximum number of subscriptions (99)."@
}

fn full_message() -> (r: String)
    ensures
        r@ == full_text(),
{
    "You have reached the maximum number of subscriptions (99).".to_string()
}

/// What a temporary subscription comes to.
pub open spec fn watched(
    user: UserView,
    index: StationIndexView,
    origin: Seq<char>,
    destinations: Seq<Seq<char>>,
    format: Format,
    now: Timestamp,
    id: Seq<char>,
) -> Reaction {
    let subs = user.subscriptions;
    match code_problem(index, origin, destinations) {
        Some(msg) => reply(user, msg),
        None => match covered(subs, origin, destinations) {
            Some(msg) => reply(user, msg),
            None => match next_id(subs) {
                None => reply(user, full_text()),
                Some(display_id) => Reaction {
                    user: UserView {
                        subscriptions: subs.push(
                            temporary(display_id, origin, destinations, now, id),
                        ),
                        ..user
                    },
                    step: StepView::Save {
                        then: ThenView::Board {
                            confirmed: watch_text(origin, destinations, now),
                            query: BoardQueryView { origin_crs: origin, destinations, format },
                        },
                        failed: "Error saving subscription: "@,
                    },
                },
            },
        },
    }
}

fn same_texts_in_any_order(a: &Vec<String>, b: &Vec<String>) -> (r: bool)
    ensures
        r == (texts(a@).to_multiset() == texts(b@).to_multiset()),
{
    let x = sort(clone_texts(a));
    let y = sort(clone_texts(b));
    proof {
        assert(views(a@) =~= texts(a@));
        assert(views(b@) =~= texts(b@));
        sorted_texts_agree(texts(a@), texts(b@));
    }
    if x.len() != y.len() {
        assert(views(x@).len() != views(y@).len());
        return false;
    }
    let mut i: usize = 0;
    while i < x.len()
        invariant
            0 <= i <= x@.len(),
            x@.len() == y@.len(),
            (views(x@) == views(y@)) == (texts(a@).to_multiset() == texts(b@).to_multiset()),
            forall|j: int| 0 <= j < i ==> #[trigger] views(x@)[j] == views(y@)[j],
        decreases x.len() - i,
    {
        if !same(x[i].as_str(), y[i].as_str()) {
            assert(views(x@)[i as int] != views(y@)[i as int]);
            return false;
        }
        i += 1;
    }
    assert(views(x@) =~= views(y@));
    true
}

fn coverage(existing: &Subscription, origin: &str, destinations: &Vec<String>) -> (r: Option<String>)
    ensures
        opt_text(r) == covered_by(existing@, origin@, texts(destinations@)),
{
    if !same(existing.origin_crs.as_str(), origin) || existing.schedule.is_some() {
        return None;
    }
    if existing.destination_filter.len() == 0 {
        let mut text = "Already watching all departures from <code>".to_string();
        text.append(esc(origin).as_str());
        if destinations.len() == 0 {
            text.append("</code>.");
        } else {
            text.append("</code> (that already covers those destinations).");
        }
        return Some(text);
    }
    if destinations.len() > 0 && same_texts_in_any_order(
        &existing.destination_filter,
        destinations,
    ) {
        let mut text = "Already watching departures from <code>".to_string();
        text.append(esc(origin).as_str());
        text.append("</code> to those destinations.");
        return Some(text);
    }
    None
}

/// Watch departures for a while.
pub fn exec_watch(
    origin: &str,
    destinations: &Vec<String>,
    user: &mut User,
    stations: &StationIndex,
    format: Format,
    fresh: Fresh,
) -> (r: Step)
    requires
        can_watch(fresh.now),
    ensures
        (Reaction { user: final(user)@, step: r@ }) == watched(
            old(user)@,
            stations@,
            origin@,
            texts(destinations@),
            format,
            fresh.now,
            fresh.id@,
        ),
        old(user)@.wf() ==> final(user)@.wf(),
        distinct_display_ids(old(user)@.subscriptions) ==> distinct_display_ids(
            final(user)@.subscriptions,
        ),
{
    if let Err(msg) = require_all(origin, destinations, stations) {
        return Step::Reply(msg);
    }
    let ghost subs = user@.subscriptions;
    let ghost dests = texts(destinations@);
    let n = user.subscriptions.len();
    let mut i: usize = 0;
    assert(subs.skip(0) =~= subs);
    while i < n
        invariant
            0 <= i <= n,
            n == user.subscriptions@.len(),
            *user == *old(user),
            subs == user@.subscriptions,
            dests == texts(destinations@),
            code_problem(stations@, origin@, dests) is None,
            covered(subs, origin@, dests) == covered(subs.skip(i as int), origin@, dests),
        decreases n - i,
    {
        assert(subs.skip(i as int)[0] == user.subscriptions@[i as int]@);
        if let Some(msg) = coverage(&user.subscriptions[i], origin, destinations) {
            return Step::Reply(msg);
        }
        assert(subs.skip(i as int).drop_first() =~= subs.skip(i + 1));
        i += 1;
    }
    let display_id = match Subscription::next_display_id(&user.subscriptions) {
        Some(id) => id,
        None => {
            return Step::Reply(full_message());
        },
    };
    let ghost shown = display_id@;
    let expires_at = fresh.now.plus_minutes(Subscription::DEFAULT_EXPIRY_MINUTES);
    let mut sub = Subscription::with_identity(
        fresh.id,
        fresh.now,
        origin.to_string(),
        clone_texts(destinations),
        None,
    );
    sub.expires_at = Some(expires_at);
    sub.display_id = display_id;
    let ghost added = sub@;
    assert(added == temporary(shown, origin@, dests, fresh.now, fresh.id@));
    user.subscriptions.push(sub);
    proof {
        assert(user@.subscriptions =~= subs.push(added));
        if distinct_display_ids(subs) {
            new_display_id_is_unique(subs, added.display_id, added);
        }
        if old(user)@.wf() {
            assert forall|j: int| 0 <= j < user@.subscriptions.len() implies (
            #[trigger] user@.subscriptions[j]).wf() by {
                if j < subs.len() {
                    assert(old(user)@.subscriptions[j].wf());
                }
            }
        }
    }
    let mut confirmed = if destinations.len() == 0 {
        let mut text = "Watching all departures from <code>".to_string();
        text.append(esc(origin).as_str());
        text.append("</code>.");
        text
    } else {
        let mut text = "Watching departures from <code>".to_string();
        text.append(esc(origin).as_str());
        text.append("</code> to <code>");
        text.append(esc(join_all(destinations, ", ").as_str()).as_str());
        text.append("</code>.");
        text
    };
    confirmed.append(" Expires at ");
    confirmed.append(london_hour_minute(&expires_at).as_str());
    confirmed.append(" (30m).");
    Step::Save {
        then: Then::Board {
            confirmed,
            query: BoardQuery {
                origin_crs: origin.to_string(),
                destinations: clone_texts(destinations),
                format,
            },
        },
        failed: "Error saving subscription: ".to_string(),
    }
}

/// The scheduled subscription that a user gets.
pub open spec fn scheduled(
    display_id: Seq<char>,
    origin: Seq<char>,
    destinations: Seq<Seq<char>>,
    schedule: ScheduleView,
    now: Timestamp,
    id: Seq<char>,
) -> SubscriptionView {
    SubscriptionView {
        id,
        display_id,
        origin_crs: origin,
        destination_filter: destinations,
        schedule: Some(schedule),
        created_at: now,
        expires_at: None,
    }
}

pub open spec fn scheduled_text(
    display_id: Seq<char>,
    origin: Seq<char>,
    destinations: Seq<Seq<char>>,
    schedule: ScheduleView,
) -> Seq<char> {
    "Scheduled subscription added <code>["@ + escaped(display_id) + "]</code>:\n<code>"@ + escaped(
        origin,
    ) + "</code> \u{2192} "@ + (if destinations.len() == 0 {
        "all destinations"@
    } else {
        join(code_texts(destinations), ", "@)
    }) + " | "@ + escaped(days_text(schedule.days)) + " "@ + escaped(
        windows_text(schedule.windows),
    )
}

/// What a scheduled subscription comes to.
pub open spec fn scheduled_sub(
    user: UserView,
    index: StationIndexView,
    origin: Seq<char>,
    destinations: Seq<Seq<char>>,
    schedule: ScheduleView,
    now: Timestamp,
    id: Seq<char>,
) -> Reaction {
    let subs = user.subscriptions;
    match code_problem(index, origin, destinations) {
        Some(msg) => reply(user, msg),
        None => match next_id(subs) {
            None => reply(user, full_text()),
            Some(display_id) => Reaction {
                user: UserView {
                    subscriptions: subs.push(
                        scheduled(display_id, origin, destinations, schedule, now, id),
                    ),
                    ..user
                },
                step: StepView::Save {
                    then: ThenView::Reply(
                        scheduled_text(display_id, origin, destinations, schedule),
                    ),
                    failed: "Error saving subscription: "@,
                },
            },
        },
    }
}

/// Subscribe on certain days at certain times.
pub fn create_scheduled_sub(
    origin: &str,
    destinations: &Vec<String>,
    schedule: Schedule,
    user: &mut User,
    stations: &StationIndex,
    fresh: Fresh,
) -> (r: Step)
    requires
        fresh.now.wf(),
        schedule@.wf(),
    ensures
        (Reaction { user: final(user)@, step: r@ }) == scheduled_sub(
            old(user)@,
            stations@,
            origin@,
            texts(destinations@),
            schedule@,
            fresh.now,
            fresh.id@,
        ),
        old(user)@.wf() ==> final(user)@.wf(),
        distinct_display_ids(old(user)@.subscriptions) ==> distinct_display_ids(
            final(user)@.subscriptions,
        ),
{
    if let Err(msg) = require_all(origin, destinations, stations) {
        return Step::Reply(msg);
    }
    let ghost subs = user@.subscriptions;
    let ghost dests = texts(destinations@);
    let display_id = match Subscription::next_display_id(&user.subscriptions) {
        Some(id) => id,
        None => {
            return Step::Reply(full_message());
        },
    };
    let days = format_days(&schedule.days);
    let windows = format_windows(&schedule.windows);
    let ghost sched = schedule@;
    let mut sub = Subscription::with_identity(
        fresh.id,
        fresh.now,
        origin.to_string(),
        clone_texts(destinations),
        Some(schedule),
    );
    sub.display_id = display_id.clone();
    let ghost added = sub@;
    assert(added == scheduled(display_id@, origin@, dests, sched, fresh.now, fresh.id@));
    user.subscriptions.push(sub);
    proof {
        assert(user@.subscriptions =~= subs.push(added));
        if distinct_display_ids(subs) {
            new_display_id_is_unique(subs, added.display_id, added);
        }
        if old(user)@.wf() {
            assert forall|j: int| 0 <= j < user@.subscriptions.len() implies (
            #[trigger] user@.subscriptions[j]).wf() by {
                if j < subs.len() {
                    assert(old(user)@.subscriptions[j].wf());
                }
            }
        }
    }
    let mut text = "Scheduled subscription added <code>[".to_string();
    text.append(esc(display_id.as_str()).as_str());
    text.append("]</code>:\n<code>");
    text.append(esc(origin).as_str());
    text.append("</code> \u{2192} ");
    if destinations.len() == 0 {
        text.append("all destinations");
    } else {
        text.append(join_all(&tagged_codes(destinations), ", ").as_str());
    }
    text.append(" | ");
    text.append(esc(days.as_str()).as_str());
    text.append(" ");
    text.append(esc(windows.as_str()).as_str());
    Step::Save {
        then: Then::Reply(text),
        failed: "Error saving subscription: ".to_string(),
    }
}

// ---------------------------------------------------------------------------
// Pause / resume
// ---------------------------------------------------------------------------

/// What `/resume` comes to.
pub open spec fn resumed(user: UserView) -> Reaction {
    saved(
        UserView { notifications_paused: false, paused_until: None, ..user },
        "Notifications resumed."@,
    )
}

/// Send notifications again.
pub fn exec_resume(user: &mut User) -> (r: Step)
    ensures
        (Reaction { user: final(user)@, step: r@ }) == resumed(old(user)@),
        old(user)@.wf() ==> final(user)@.wf(),
{
    user.notifications_paused = false;
    user.paused_until = None;
    Step::Save {
        then: Then::Reply("Notifications resumed.".to_string()),
        failed: "Error: ".to_string(),
    }
}

/// The number of minutes as the clock counts them: a number of 64 bits, signed.
pub open spec fn signed_minutes(mins: u64) -> int {
    if mins <= i64::MAX {
        mins as int
    } else {
        mins - 0x1_0000_0000_0000_0000
    }
}

/// The minutes that the argument of `/pause` asks for.
pub open spec fn pause_minutes(arg: Seq<char>) -> Option<u64> {
    match unsigned_value(trim(arg)) {
        Some(mins) if mins > 0 => Some(mins),
        _ => None,
    }
}

/// The instant at which a pause that begins now ends.
pub open spec fn pause_end(now: Timestamp, mins: u64) -> Timestamp {
    Timestamp { secs: (now.secs + 60 * signed_minutes(mins)) as i64, nanos: now.nanos }
}

/// The calendar has room for the end of the pause, where one is asked for.
pub open spec fn can_pause(arg: Seq<char>, now: Timestamp) -> bool {
    &&& now.wf()
    &&& match pause_minutes(arg) {
        Some(mins) => in_calendar(now.secs + 60 * signed_minutes(mins)),
        None => true,
    }
}

/// What `/pause` comes to.
pub open spec fn paused(user: UserView, arg: Seq<char>, now: Timestamp) -> Reaction {
    if trim(arg).len() == 0 {
        saved(
            UserView { notifications_paused: true, paused_until: None, ..user },
            "Notifications paused. Use <code>/resume</code> to restart them."@,
        )
    } else {
        match pause_minutes(arg) {
            Some(mins) => saved(
                UserView {
                    notifications_paused: false,
                    paused_until: Some(pause_end(now, mins)),
                    ..user
                },
                "Notifications paused for "@ + decimal(mins as nat) + "m (until "@ + london_text(
                    pause_end(now, mins),
                ) + "). Use <code>/resume</code> to restart early."@,
            ),
            None => reply(
                user,
                "Usage: <code>/pause</code> or <code>/pause MINUTES</code>"@,
            ),
        }
    }
}

fn to_signed(mins: u64) -> (r: i64)
    ensures
        r == signed_minutes(mins),
{
    if mins <= 0x7fff_ffff_ffff_ffff {
        mins as i64
    } else {
        let rest: u64 = mins - 0x8000_0000_0000_0000;
        rest as i64 + i64::MIN
    }
}

/// Whether the calendar has room for the pause that the argument asks for.
pub fn pause_fits(args: &str, now: &Timestamp) -> (r: bool)
    ensures
        r == can_pause(args@, *now),
{
    if !now.is_valid() {
        return false;
    }
    match parse_unsigned(trimmed(args).as_str()) {
        Some(mins) => mins == 0 || now.reaches(to_signed(mins)),
        None => true,
    }
}

/// Pause notifications, for a number of minutes or until `/resume`.
pub fn exec_pause(args: &str, user: &mut User, now: Timestamp) -> (r: Step)
    requires
        can_pause(args@, now),
    ensures
        (Reaction { user: final(user)@, step: r@ }) == paused(old(user)@, args@, now),
        old(user)@.wf() ==> final(user)@.wf(),
{
    let arg = trimmed(args);
    if arg.as_str().is_empty() {
        user.notifications_paused = true;
        user.paused_until = None;
        return Step::Save {
            then: Then::Reply(
                "Notifications paused. Use <code>/resume</code> to restart them.".to_string(),
            ),
            failed: "Error: ".to_string(),
        };
    }
    let mins: u64 = match parse_unsigned(arg.as_str()) {
        Some(mins) => mins,
        None => 0,
    };
    if mins == 0 {
        return Step::Reply("Usage: <code>/pause</code> or <code>/pause MINUTES</code>".to_string());
    }
    let until = now.plus_minutes(to_signed(mins));
    user.notifications_paused = false;
    user.paused_until = Some(until);
    let mut text = "Notifications paused for ".to_string();
    text.append(number_text(mins).as_str());
    text.append("m (until ");
    text.append(london_hour_minute(&until).as_str());
    text.append("). Use <code>/resume</code> to restart early.");
    Step::Save { then: Then::Reply(text), failed: "Error: ".to_string() }
}

// ---------------------------------------------------------------------------
// Kill switch
// ---------------------------------------------------------------------------

/// What `/kill` comes to.
pub open spec fn kill_step(enabled: bool) -> StepView {
    if enabled {
        StepView::Shutdown("Shutting down."@)
    } else {
        StepView::Reply("Command not available."@)
    }
}

/// Triggers a graceful service shutdown. The reply comes before the signal so
/// that it is delivered.
pub fn exec_kill(enabled: bool) -> (r: Step)
    ensures
        r@ == kill_step(enabled),
{
    if !enabled {
        return Step::Reply("Command not available.".to_string());
    }
    Step::Shutdown("Shutting down.".to_string())
}

// ---------------------------------------------------------------------------
// Unified subscription command
// ---------------------------------------------------------------------------

pub open spec fn sub_usage_text() -> Seq<char> {
    "Usage:\n<code>/sub CRS</code> \u{2014} temporary subscription\n<code>/sub CRS to CRS</code> \u{2014} filter to destination\n<code>/sub CRS DAYS HH:MM-HH:MM</code> \u{2014} recurring schedule\n<code>/sub CRS to CRS DAYS HH:MM-HH:MM</code> \u{2014} scheduled + filtered\nDays: <code>weekdays</code>, <code>weekends</code>, <code>daily</code>, <code>Mon-Fri</code>, <code>Mon,Wed,Fri</code>"@
}

pub fn sub_usage() -> (r: String)
    ensures
        r@ == sub_usage_text(),
{
    "Usage:\n<code>/sub CRS</code> \u{2014} temporary subscription\n<code>/sub CRS to CRS</code> \u{2014} filter to destination\n<code>/sub CRS DAYS HH:MM-HH:MM</code> \u{2014} recurring schedule\n<code>/sub CRS to CRS DAYS HH:MM-HH:MM</code> \u{2014} scheduled + filtered\nDays: <code>weekdays</code>, <code>weekends</code>, <code>daily</code>, <code>Mon-Fri</code>, <code>Mon,Wed,Fri</code>".to_string()
}

/// The codes of a comma list in upper case; empty entries are left out.
pub open spec fn codes_listed(parts: Seq<Seq<char>>) -> Seq<Seq<char>>
    decreases parts.len(),
{
    if parts.len() == 0 {
        Seq::empty()
    } else {
        let rest = codes_listed(parts.drop_last());
        let code = uppercase(trim(parts.last()));
        if code.len() == 0 {
            rest
        } else {
            rest.push(code)
        }
    }
}

/// What the arguments of `/sub` ask for.
pub enum SubRequest {
    /// Nothing that can be done.
    Usage,
    /// What is wrong with the days or the windows.
    Invalid(Seq<char>),
    Temporary { origin: Seq<char>, destinations: Seq<Seq<char>> },
    Scheduled { origin: Seq<char>, destinations: Seq<Seq<char>>, schedule: ScheduleView },
}

/// The word `to` stands behind the origin.
pub open spec fn has_to(tokens: Seq<Seq<char>>) -> bool {
    tokens.len() > 1 && same_ignoring_case(tokens[1], "to"@)
}

/// How many words the stations take up.
pub open spec fn station_words(tokens: Seq<Seq<char>>) -> int {
    if !has_to(tokens) {
        1
    } else if tokens.len() > 2 {
        3
    } else {
        2
    }
}

/// What the words behind `/sub` ask for.
pub open spec fn sub_request(tokens: Seq<Seq<char>>) -> SubRequest {
    let origin = uppercase(tokens[0]);
    let destinations = if has_to(tokens) && tokens.len() > 2 {
        codes_listed(split(tokens[2], ','))
    } else {
        Seq::empty()
    };
    let i = station_words(tokens);
    if tokens.len() == 0 {
        SubRequest::Usage
    } else if i >= tokens.len() {
        SubRequest::Temporary { origin, destinations }
    } else {
        match days_read(tokens[i]) {
            Err(msg) => SubRequest::Invalid(msg),
            Ok(days) => if i + 1 >= tokens.len() {
                SubRequest::Usage
            } else {
                match windows_read(join(tokens.skip(i + 1), ","@)) {
                    Err(msg) => SubRequest::Invalid(msg),
                    Ok(windows) => SubRequest::Scheduled {
                        origin,
                        destinations,
                        schedule: ScheduleView { days, windows },
                    },
                }
            },
        }
    }
}

/// What `/sub` comes to.
pub open spec fn subscribed(
    user: UserView,
    index: StationIndexView,
    args: Seq<char>,
    format: Format,
    now: Timestamp,
    id: Seq<char>,
) -> Reaction {
    match sub_request(words(args)) {
        SubRequest::Usage => reply(user, sub_usage_text()),
        SubRequest::Invalid(msg) => reply(user, msg),
        SubRequest::Temporary { origin, destinations } => watched(
            user,
            index,
            origin,
            destinations,
            format,
            now,
            id,
        ),
        SubRequest::Scheduled { origin, destinations, schedule } => scheduled_sub(
            user,
            index,
            origin,
            destinations,
            schedule,
            now,
            id,
        ),
    }
}

fn read_codes(s: &str) -> (r: Vec<String>)
    ensures
        texts(r@) == codes_listed(split(s@, ',')),
{
    let parts = split_at_each(s, ',');
    let ghost all = texts(parts@);
    let mut out: Vec<String> = Vec::new();
    let mut i: usize = 0;
    assert(all.take(0) =~= Seq::<Seq<char>>::empty());
    assert(texts(out@) =~= Seq::<Seq<char>>::empty());
    while i < parts.len()
        invariant
            0 <= i <= parts@.len(),
            all == texts(parts@),
            texts(out@) == codes_listed(all.take(i as int)),
        decreases parts.len() - i,
    {
        assert(all.take(i + 1).drop_last() =~= all.take(i as int));
        let ghost before = texts(out@);
        let code = to_upper(trimmed(parts[i].as_str()).as_str());
        if !code.as_str().is_empty() {
            let ghost c = code@;
            out.push(code);
            assert(texts(out@) =~= before.push(c));
        }
        i += 1;
    }
    assert(all.take(i as int) =~= all);
    out
}

/// Create a subscription: temporary, or on certain days at certain times.
pub fn exec_sub(
    args: &str,
    user: &mut User,
    stations: &StationIndex,
    format: Format,
    fresh: Fresh,
) -> (r: Step)
    requires
        can_watch(fresh.now),
    ensures
        (Reaction { user: final(user)@, step: r@ }) == subscribed(
            old(user)@,
            stations@,
            args@,
            format,
            fresh.now,
            fresh.id@,
        ),
        old(user)@.wf() ==> final(user)@.wf(),
        distinct_display_ids(old(user)@.subscriptions) ==> distinct_display_ids(
            final(user)@.subscriptions,
        ),
{
    let tokens = split_words(args);
    let ghost all = texts(tokens@);
    let n = tokens.len();
    if n == 0 {
        return Step::Reply(sub_usage());
    }
    assert(all[0] == tokens@[0]@);
    let origin = to_upper(tokens[0].as_str());
    let mut destinations: Vec<String> = Vec::new();
    let mut i: usize = 1;
    assert(texts(destinations@) =~= Seq::<Seq<char>>::empty());
    if n > 1 && matches_ignoring_case(tokens[1].as_str(), "to") {
        assert(all[1] == tokens@[1]@);
        i = 2;
        if n > 2 {
            assert(all[2] == tokens@[2]@);
            destinations = read_codes(tokens[2].as_str());
            i = 3;
        }
    }
    if i >= n {
        return exec_watch(origin.as_str(), &destinations, user, stations, format, fresh);
    }
    // Schedule: DAYS HH:MM-HH:MM[,HH:MM-HH:MM]
    assert(all[i as int] == tokens@[i as int]@);
    let days = match parse_days(tokens[i].as_str()) {
        Ok(d) => d,
        Err(msg) => {
            return Step::Reply(msg);
        },
    };
    if i + 1 >= n {
        return Step::Reply(sub_usage());
    }
    let mut rest: Vec<String> = Vec::new();
    let mut k: usize = i + 1;
    while k < n
        invariant
            i + 1 <= k <= n,
            n == tokens@.len(),
            all == texts(tokens@),
            texts(rest@) == all.subrange(i + 1, k as int),
        decreases n - k,
    {
        let ghost before = texts(rest@);
        rest.push(tokens[k].clone());
        assert(texts(rest@) =~= before.push(all[k as int]));
        assert(all.subrange(i + 1, k + 1) =~= before.push(all[k as int]));
        k += 1;
    }
    assert(all.subrange(i + 1, k as int) =~= all.skip(i + 1));
    let windows = match parse_windows(join_all(&rest, ",").as_str()) {
        Ok(w) => w,
        Err(msg) => {
            return Step::Reply(msg);
        },
    };
    let schedule = Schedule { days, windows };
    create_scheduled_sub(origin.as_str(), &destinations, schedule, user, stations, fresh)
}

} // verus!
