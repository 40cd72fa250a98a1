//! Channel-agnostic command core.
//!
//! [`handle_input`] takes the text that a user sent on any channel and says
//! what comes next. The helpers that execute the commands live in
//! [`commands`]; the steps that they ask for (saving a user, fetching a board)
//! are taken by the caller, who goes on with `after_saving` and
//! `after_fetching`.

pub mod board_laws;
pub mod command_laws;
pub mod commands;
pub mod departures;
pub mod laws;
pub mod parsing;
pub mod parsing_laws;

use crate::clock::Timestamp;
use crate::domain::subscription::is_ulid_text;
use crate::domain::{User, UserView};
use crate::stations::{StationIndex, StationIndexView};
use crate::text::{
    chars, is_blank_char, lemma_run_is, matches_ignoring_case, non_blanks, run, same,
    same_ignoring_case, split_words, text_of, texts, trim, trimmed, words,
};
use crate::unicode::{lowercase, to_lower, to_upper, uppercase};
use commands::{
    board_step, can_pause, can_watch, exec_find, exec_help, exec_kill, exec_now, exec_pause,
    exec_resume, exec_sub, exec_subs, exec_unsub, find_reply, help_text, kill_step, pause_fits,
    paused, reply, resumed, subs_text, subscribed, unsubscribed, Fresh, Reaction, Step, StepView,
};
use departures::{BoardQuery, BoardQueryView, Format};
use vstd::prelude::*;
use vstd::string::*;

verus! {

// ---------------------------------------------------------------------------
// Shared state
// ---------------------------------------------------------------------------

/// What the commands need to know beside the user.
pub struct AppState {
    pub stations: StationIndex,
    /// Number of rows to request for a live board.
    pub polling_rows: u32,
    pub kill_switch_enabled: bool,
}

/// The response produced by [`handle_input`], once its steps are taken.
#[derive(Debug)]
pub struct DispatchOutcome {
    pub text: String,
}

// ---------------------------------------------------------------------------
// Dispatch
// ---------------------------------------------------------------------------

/// The board that the argument of `/now` asks for, or else the usage.
pub open spec fn now_step(
    index: StationIndexView,
    args: Seq<char>,
    format: Format,
    usage: Seq<char>,
) -> StepView {
    let tokens = words(args);
    if tokens.len() == 0 || uppercase(tokens[0]).len() == 0 {
        StepView::Reply(usage)
    } else {
        let destinations = if tokens.len() >= 3 && same_ignoring_case(tokens[1], "to"@) {
            seq![uppercase(tokens[2])]
        } else {
            Seq::empty()
        };
        board_step(
            None,
            BoardQueryView { origin_crs: uppercase(tokens[0]), destinations, format },
            index,
        )
    }
}

/// What a command comes to, by its name in lower case.
pub open spec fn dispatched(
    user: UserView,
    state: AppState,
    cmd: Seq<char>,
    args: Seq<char>,
    format: Format,
    now: Timestamp,
    id: Seq<char>,
) -> Reaction {
    let name = lowercase(cmd);
    let index = state.stations@;
    if name == "help"@ {
        reply(user, help_text())
    } else if name == "find"@ {
        reply(user, find_reply(index, args))
    } else if name == "now"@ {
        Reaction { user, step: now_step(index, args, format, "Usage: /now CRS [to CRS]"@) }
    } else if name == "sub"@ {
        subscribed(user, index, args, format, now, id)
    } else if name == "unsub"@ {
        unsubscribed(user, args)
    } else if name == "subs"@ {
        reply(user, subs_text(user.subscriptions, now))
    } else if name == "pause"@ {
        paused(user, args, now)
    } else if name == "resume"@ {
        resumed(user)
    } else if name == "kill"@ {
        Reaction { user, step: kill_step(state.kill_switch_enabled) }
    } else {
        reply(
            user,
            "Unknown command /"@ + cmd + " \u{2014} try /help to see available commands."@,
        )
    }
}

/// The calendar has room for what the command asks for.
pub open spec fn can_dispatch(cmd: Seq<char>, args: Seq<char>, now: Timestamp) -> bool {
    &&& now.wf()
    &&& lowercase(cmd) == "sub"@ ==> can_watch(now)
    &&& lowercase(cmd) == "pause"@ ==> can_pause(args, now)
}

/// The command and the argument that a text spells out.
pub open spec fn command_of(text: Seq<char>) -> Option<(Seq<char>, Seq<char>)> {
    let t = trim(text);
    if t.len() == 0 || t[0] != '/' {
        None
    } else {
        let rest = t.skip(1);
        let n = run(rest, non_blanks());
        if n < rest.len() {
            Some((rest.take(n), trim(rest.skip(n + 1))))
        } else {
            Some((rest, Seq::empty()))
        }
    }
}

/// What a text that a user sent comes to.
pub open spec fn handled(
    user: UserView,
    state: AppState,
    text: Seq<char>,
    now: Timestamp,
    id: Seq<char>,
) -> Reaction {
    match command_of(text) {
        Some((cmd, args)) => dispatched(
            user,
            state,
            cmd,
            args,
            Format::of(user.key.channel),
            now,
            id,
        ),
        None => reply(
            user,
            "I didn't recognise that \u{2014} try /help to see available commands."@,
        ),
    }
}

/// The calendar has room for what the text asks for.
pub open spec fn can_handle(text: Seq<char>, now: Timestamp) -> bool {
    &&& now.wf()
    &&& match command_of(text) {
        Some((cmd, args)) => can_dispatch(cmd, args, now),
        None => true,
    }
}

/// The board that the argument of `/now` asks for, or else the usage.
pub fn handle_now(args: &str, stations: &StationIndex, format: Format, usage: &str) -> (r: Step)
    ensures
        r@ == now_step(stations@, args@, format, usage@),
{
    let tokens = split_words(args);
    let ghost all = texts(tokens@);
    if tokens.len() == 0 {
        return Step::Reply(usage.to_string());
    }
    assert(all[0] == tokens@[0]@);
    let crs = to_upper(tokens[0].as_str());
    if crs.as_str().is_empty() {
        return Step::Reply(usage.to_string());
    }
    let mut destinations: Vec<String> = Vec::new();
    assert(texts(destinations@) =~= Seq::<Seq<char>>::empty());
    if tokens.len() >= 3 && matches_ignoring_case(tokens[1].as_str(), "to") {
        assert(all[1] == tokens@[1]@ && all[2] == tokens@[2]@);
        destinations.push(to_upper(tokens[2].as_str()));
        assert(texts(destinations@) =~= seq![uppercase(all[2])]);
    } else if tokens.len() >= 3 {
        assert(all[1] == tokens@[1]@);
    }
    exec_now(None, BoardQuery { origin_crs: crs, destinations, format }, stations)
}

/// Execute one command.
pub fn dispatch_command(
    cmd: &str,
    args: &str,
    user: &mut User,
    state: &AppState,
    format: Format,
    fresh: Fresh,
) -> (r: Step)
    requires
        can_dispatch(cmd@, args@, fresh.now),
        old(user)@.wf(),
    ensures
        (Reaction { user: final(user)@, step: r@ }) == dispatched(
            old(user)@,
            *state,
            cmd@,
            args@,
            format,
            fresh.now,
            fresh.id@,
        ),
        final(user)@.wf(),
{
    let lower = to_lower(cmd);
    let name = lower.as_str();
    if same(name, "help") {
        Step::Reply(exec_help())
    } else if same(name, "find") {
        Step::Reply(exec_find(args, &state.stations))
    } else if same(name, "now") {
        handle_now(args, &state.stations, format, "Usage: /now CRS [to CRS]")
    } else if same(name, "sub") {
        exec_sub(args, user, &state.stations, format, fresh)
    } else if same(name, "unsub") {
        exec_unsub(args, user)
    } else if same(name, "subs") {
        Step::Reply(exec_subs(user, fresh.now))
    } else if same(name, "pause") {
        exec_pause(args, user, fresh.now)
    } else if same(name, "resume") {
        exec_resume(user)
    } else if same(name, "kill") {
        exec_kill(state.kill_switch_enabled)
    } else {
        let mut text = "Unknown command /".to_string();
        text.append(cmd);
        text.append(" \u{2014} try /help to see available commands.");
        Step::Reply(text)
    }
}

fn read_command(text: &str) -> (r: Option<(String, String)>)
    ensures
        match r {
            Some(c) => command_of(text@) == Some((c.0@, c.1@)),
            None => command_of(text@) is None,
        },
{
    let t = trimmed(text);
    let v = chars(t.as_str());
    let len = v.len();
    if len == 0 || v[0] != '/' {
        return None;
    }
    let ghost rest = t@.skip(1);
    let mut n: usize = 1;
    while n < len && !is_blank_char(v[n])
        invariant
            1 <= n <= len,
            len == v@.len(),
            v@ == t@,
            rest == t@.skip(1),
            forall|j: int| 0 <= j < n - 1 ==> non_blanks()(#[trigger] rest[j]),
        decreases len - n,
    {
        assert(rest[n - 1] == v@[n as int]);
        n += 1;
    }
    proof {
        if n < len {
            assert(rest[n - 1] == v@[n as int]);
        }
        lemma_run_is(rest, non_blanks(), n - 1);
    }
    if n < len {
        let cmd = text_of(&v, 1, n);
        let tail = text_of(&v, n + 1, len);
        assert(cmd@ =~= rest.take(n - 1));
        assert(tail@ =~= rest.skip(n as int));
        Some((cmd, trimmed(tail.as_str())))
    } else {
        let cmd = text_of(&v, 1, len);
        assert(cmd@ =~= rest);
        Some((cmd, String::new()))
    }
}

/// Whether the calendar has room for what the command asks for.
pub fn command_fits(cmd: &str, args: &str, now: &Timestamp) -> (r: bool)
    ensures
        r == can_dispatch(cmd@, args@, *now),
{
    let lower = to_lower(cmd);
    let sub = same(lower.as_str(), "sub");
    let pause = same(lower.as_str(), "pause");
    proof {
        reveal_strlit("sub");
        reveal_strlit("pause");
    }
    now.is_valid() && (!sub || now.reaches(30)) && (!pause || pause_fits(args, now))
}

/// Whether the calendar has room for what the text asks for.
pub fn input_fits(text: &str, now: &Timestamp) -> (r: bool)
    ensures
        r == can_handle(text@, *now),
{
    match read_command(text) {
        Some(c) => command_fits(c.0.as_str(), c.1.as_str(), now),
        None => now.is_valid(),
    }
}

/// Free-text input from any channel, at the given time.
///
/// Parses slash commands and dispatches to the shared execution helpers in
/// [`commands`].  The output format (HTML vs plain text) is derived from the
/// user's channel so each channel receives natively-formatted responses.
/// Plain-text messages receive a help prompt.
pub fn handle_input_at(text: &str, user: &mut User, state: &AppState, fresh: Fresh) -> (r: Step)
    requires
        can_handle(text@, fresh.now),
        old(user)@.wf(),
    ensures
        (Reaction { user: final(user)@, step: r@ }) == handled(
            old(user)@,
            *state,
            text@,
            fresh.now,
            fresh.id@,
        ),
        final(user)@.wf(),
{
    let format = Format::from(&user.key.channel);
    match read_command(text) {
        Some(c) => dispatch_command(c.0.as_str(), c.1.as_str(), user, state, format, fresh),
        None => Step::Reply(
            "I didn't recognise that \u{2014} try /help to see available commands.".to_string(),
        ),
    }
}

/// Free-text input from any channel, now. There is no answer where the
/// calendar has no room for what the text asks for; the user is left alone then.
pub fn handle_input(text: &str, user: &mut User, state: &AppState) -> (r: Option<Step>)
    requires
        old(user)@.wf(),
    ensures
        exists|now: Timestamp, id: Seq<char>|
            #![trigger handled(old(user)@, *state, text@, now, id)]
            now.wf() && is_ulid_text(id) && match r {
                Some(step) => {
                    &&& can_handle(text@, now)
                    &&& (Reaction { user: final(user)@, step: step@ }) == handled(
                        old(user)@,
                        *state,
                        text@,
                        now,
                        id,
                    )
                },
                None => !can_handle(text@, now) && *final(user) == *old(user),
            },
        final(user)@.wf(),
{
    let fresh = Fresh::read();
    let ghost now = fresh.now;
    let ghost id = fresh.id@;
    let ghost expected = handled(old(user)@, *state, text@, now, id);
    if !input_fits(text, &fresh.now) {
        return None;
    }
    Some(handle_input_at(text, user, state, fresh))
}

} // verus!
