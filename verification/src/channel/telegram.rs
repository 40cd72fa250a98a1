//! Telegram slash commands and replies.
//!
//! The channel-agnostic execution helpers live in
//! [`crate::handlers::commands`]; this module holds what Telegram adds: its
//! commands, the welcome to new users, and the names that it knows users by.

use crate::clock::Timestamp;
use crate::domain::subscription::is_ulid_text;
use crate::domain::{User, UserView};
use crate::handlers::commands::{
    can_pause, can_watch, exec_find, exec_kill, exec_pause, exec_resume, exec_sub, exec_subs,
    exec_unsub, find_reply, kill_step, pause_fits, paused, reply, resumed, subs_text, subscribed,
    unsubscribed, Fresh, Reaction, Step,
};
use crate::handlers::departures::Format;
use crate::handlers::{handle_now, now_step, AppState};
use crate::markup::{esc, escaped};
use crate::text::{clone_opt, opt_text, same};
use vstd::prelude::*;
use vstd::string::*;

verus! {

pub open spec fn welcome_text() -> Seq<char> {
    "<b>WaitingForASignal</b>\n\nUse <code>/sub WAT</code> to subscribe to a station, <code>/find waterloo</code> to look up CRS codes, or <code>/help</code> to see all commands.\n\nUse <code>/pause</code> or <code>/pause 30</code> to pause notifications and <code>/resume</code> to restart them."@
}

pub fn welcome_message() -> (r: String)
    ensures
        r@ == welcome_text(),
{
    "<b>WaitingForASignal</b>\n\nUse <code>/sub WAT</code> to subscribe to a station, <code>/find waterloo</code> to look up CRS codes, or <code>/help</code> to see all commands.\n\nUse <code>/pause</code> or <code>/pause 30</code> to pause notifications and <code>/resume</code> to restart them.".to_string()
}

/// All slash commands the Telegram bot understands.
#[derive(Debug)]
pub enum Command {
    Help,
    Find(String),
    Now(String),
    Sub(String),
    Unsub(String),
    Subs,
    Pause(String),
    Resume,
    /// Secret kill switch, hidden from help.
    Kill,
}

pub enum CommandView {
    Help,
    Find(Seq<char>),
    Now(Seq<char>),
    Sub(Seq<char>),
    Unsub(Seq<char>),
    Subs,
    Pause(Seq<char>),
    Resume,
    Kill,
}

impl View for Command {
    type V = CommandView;

    open spec fn view(&self) -> CommandView {
        match self {
            Command::Help => CommandView::Help,
            Command::Find(q) => CommandView::Find(q@),
            Command::Now(a) => CommandView::Now(a@),
            Command::Sub(a) => CommandView::Sub(a@),
            Command::Unsub(a) => CommandView::Unsub(a@),
            Command::Subs => CommandView::Subs,
            Command::Pause(a) => CommandView::Pause(a@),
            Command::Resume => CommandView::Resume,
            Command::Kill => CommandView::Kill,
        }
    }
}

/// Telegram-formatted help text: the descriptions of the commands, with angle
/// brackets HTML-escaped.
pub fn exec_help(descriptions: &str) -> (r: String)
    ensures
        r@ == escaped(descriptions@),
{
    esc(descriptions)
}

/// What a command comes to.
pub open spec fn commanded(
    user: UserView,
    state: AppState,
    cmd: CommandView,
    descriptions: Seq<char>,
    now: Timestamp,
    id: Seq<char>,
) -> Reaction {
    let index = state.stations@;
    match cmd {
        CommandView::Help => reply(user, escaped(descriptions)),
        CommandView::Find(query) => reply(user, find_reply(index, query)),
        CommandView::Now(args) => Reaction {
            user,
            step: now_step(
                index,
                args,
                Format::Html,
                "Usage: <code>/now CRS [to CRS]</code>"@,
            ),
        },
        CommandView::Sub(args) => subscribed(user, index, args, Format::Html, now, id),
        CommandView::Unsub(arg) => unsubscribed(user, arg),
        CommandView::Subs => reply(user, subs_text(user.subscriptions, now)),
        CommandView::Pause(args) => paused(user, args, now),
        CommandView::Resume => resumed(user),
        CommandView::Kill => Reaction { user, step: kill_step(state.kill_switch_enabled) },
    }
}

/// The calendar has room for what the command asks for.
pub open spec fn can_command(cmd: CommandView, now: Timestamp) -> bool {
    &&& now.wf()
    &&& cmd is Sub ==> can_watch(now)
    &&& cmd matches CommandView::Pause(args) ==> can_pause(args, now)
}

/// Whether the calendar has room for what the command asks for.
pub fn command_fits(cmd: &Command, now: &Timestamp) -> (r: bool)
    ensures
        r == can_command(cmd@, *now),
{
    if !now.is_valid() {
        return false;
    }
    match cmd {
        Command::Sub(_) => now.reaches(30),
        Command::Pause(args) => pause_fits(args.as_str(), now),
        _ => true,
    }
}

/// Execute a command for a user, at the given time. `descriptions` lists the commands.
pub fn handle_command_at(
    cmd: Command,
    descriptions: &str,
    user: &mut User,
    state: &AppState,
    fresh: Fresh,
) -> (r: Step)
    requires
        can_command(cmd@, fresh.now),
        old(user)@.wf(),
    ensures
        (Reaction { user: final(user)@, step: r@ }) == commanded(
            old(user)@,
            *state,
            cmd@,
            descriptions@,
            fresh.now,
            fresh.id@,
        ),
        final(user)@.wf(),
{
    match cmd {
        Command::Help => Step::Reply(exec_help(descriptions)),
        Command::Find(query) => Step::Reply(exec_find(query.as_str(), &state.stations)),
        Command::Now(args) => handle_now(
            args.as_str(),
            &state.stations,
            Format::Html,
            "Usage: <code>/now CRS [to CRS]</code>",
        ),
        Command::Sub(args) => exec_sub(args.as_str(), user, &state.stations, Format::Html, fresh),
        Command::Unsub(id) => exec_unsub(id.as_str(), user),
        Command::Subs => Step::Reply(exec_subs(user, fresh.now)),
        Command::Pause(args) => exec_pause(args.as_str(), user, fresh.now),
        Command::Resume => exec_resume(user),
        Command::Kill => exec_kill(state.kill_switch_enabled),
    }
}

/// Execute a command for a user, now. There is no answer where the calendar
/// has no room for what the command asks for; the user is left alone then.
pub fn handle_command(cmd: Command, descriptions: &str, user: &mut User, state: &AppState) -> (r:
    Option<Step>)
    requires
        old(user)@.wf(),
    ensures
        exists|now: Timestamp, id: Seq<char>|
            #![trigger commanded(old(user)@, *state, cmd@, descriptions@, now, id)]
            now.wf() && is_ulid_text(id) && match r {
                Some(step) => {
                    &&& can_command(cmd@, now)
                    &&& (Reaction { user: final(user)@, step: step@ }) == commanded(
                        old(user)@,
                        *state,
                        cmd@,
                        descriptions@,
                        now,
                        id,
                    )
                },
                None => !can_command(cmd@, now) && *final(user) == *old(user),
            },
        final(user)@.wf(),
{
    let fresh = Fresh::read();
    let ghost expected = commanded(
        old(user)@,
        *state,
        cmd@,
        descriptions@,
        fresh.now,
        fresh.id@,
    );
    if !command_fits(&cmd, &fresh.now) {
        return None;
    }
    Some(handle_command_at(cmd, descriptions, user, state, fresh))
}

/// The reply to a command. A new user is welcomed first.
pub open spec fn welcomed(is_new: bool, body: Seq<char>) -> Seq<char> {
    if is_new {
        welcome_text() + "\n\n"@ + body
    } else {
        body
    }
}

/// The reply to a command. A new user is welcomed first.
pub fn command_reply(is_new: bool, body: String) -> (r: String)
    ensures
        r@ == welcomed(is_new, body@),
{
    if is_new {
        let mut text = welcome_message();
        text.append("\n\n");
        text.append(body.as_str());
        text
    } else {
        body
    }
}

// ---------------------------------------------------------------------------
// User info
// ---------------------------------------------------------------------------

/// The display name that Telegram gives a user.
pub open spec fn display_name(first: Seq<char>, last: Option<Seq<char>>) -> Seq<char> {
    match last {
        Some(l) => first + " "@ + l,
        None => first,
    }
}

/// Update the stored display name and @username of a Telegram user. Says
/// whether something changed, so that the user has to be saved.
pub fn capture_user_info(
    user: &mut User,
    first_name: &str,
    last_name: &Option<String>,
    username: &Option<String>,
) -> (r: bool)
    ensures
        final(user)@ == (UserView {
            telegram_name: Some(display_name(first_name@, opt_text(*last_name))),
            telegram_username: opt_text(*username),
            ..old(user)@
        }),
        r == (final(user)@ != old(user)@),
{
    let mut name = first_name.to_string();
    if let Some(last) = last_name {
        name.append(" ");
        name.append(last.as_str());
    }
    let same_name = match &user.telegram_name {
        Some(n) => same(n.as_str(), name.as_str()),
        None => false,
    };
    let same_username = match (&user.telegram_username, username) {
        (Some(a), Some(b)) => same(a.as_str(), b.as_str()),
        (None, None) => true,
        _ => false,
    };
    if same_name && same_username {
        return false;
    }
    user.telegram_name = Some(name);
    user.telegram_username = clone_opt(username);
    true
}

} // verus!
