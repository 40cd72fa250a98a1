//! Which messages are answered, and how users are greeted.

use crate::channel::telegram::{commanded, display_name, welcome_text, welcomed, CommandView};
use crate::channel::twilio::{
    after_cutoff, date_read, dates_of, latest, messages_address, Inbound, InboundView, MessageView,
};
use crate::clock::{is_later, Timestamp};
use crate::domain::UserView;
use crate::handlers::commands::{
    find_reply, kill_step, paused, resumed, subs_text, subscribed, unsubscribed, StepView,
};
use crate::handlers::departures::Format;
use crate::handlers::{now_step, AppState};
use crate::markup::escaped;
use crate::sorting::{sorted, sorting_keeps_the_values};
use crate::text::holds;
use vstd::prelude::*;
use vstd::string::*;

verus! {

proof fn lemma_selected(
    messages: Seq<MessageView>,
    dates: Seq<Option<Timestamp>>,
    cutoff: Timestamp,
    m: InboundView,
)
    ensures
        after_cutoff(messages, dates, cutoff).contains(m) <==> exists|i: int|
            {
                &&& 0 <= i < messages.len()
                &&& (#[trigger] messages[i]).direction == "inbound"@
                &&& messages[i].from == m.from
                &&& messages[i].body == m.body
                &&& dates[i] == Some(m.date)
                &&& is_later(m.date, cutoff)
            },
    decreases messages.len(),
{
    let r = after_cutoff(messages, dates, cutoff);
    if messages.len() > 0 {
        let t = messages.drop_last();
        let rest = after_cutoff(t, dates, cutoff);
        lemma_selected(t, dates, cutoff, m);
        if r.contains(m) {
            let k = choose|k: int| 0 <= k < r.len() && r[k] == m;
            if k < rest.len() {
                assert(rest[k] == m);
                let i = choose|i: int|
                    {
                        &&& 0 <= i < t.len()
                        &&& (#[trigger] t[i]).direction == "inbound"@
                        &&& t[i].from == m.from
                        &&& t[i].body == m.body
                        &&& dates[i] == Some(m.date)
                        &&& is_later(m.date, cutoff)
                    };
                assert(messages[i] == t[i]);
            } else {
                assert(messages[messages.len() - 1].direction == "inbound"@);
            }
        }
        if exists|i: int|
            {
                &&& 0 <= i < messages.len()
                &&& (#[trigger] messages[i]).direction == "inbound"@
                &&& messages[i].from == m.from
                &&& messages[i].body == m.body
                &&& dates[i] == Some(m.date)
                &&& is_later(m.date, cutoff)
            } {
            let i = choose|i: int|
                {
                    &&& 0 <= i < messages.len()
                    &&& (#[trigger] messages[i]).direction == "inbound"@
                    &&& messages[i].from == m.from
                    &&& messages[i].body == m.body
                    &&& dates[i] == Some(m.date)
                    &&& is_later(m.date, cutoff)
                };
            if i < t.len() {
                assert(t[i] == messages[i]);
                let k = choose|k: int| 0 <= k < rest.len() && rest[k] == m;
                assert(r[k] == m);
            } else {
                assert(r[r.len() - 1] == m);
            }
        }
    }
}

/// The messages that are answered are exactly those that came in with a date that
/// can be read and is after the cutoff, each with its sender and its text.
pub proof fn new_messages_are_answered(
    messages: Seq<MessageView>,
    dates: Seq<Option<Timestamp>>,
    cutoff: Timestamp,
    m: InboundView,
)
    ensures
        sorted::<Inbound>(after_cutoff(messages, dates, cutoff)).contains(m) <==> exists|i: int|
            {
                &&& 0 <= i < messages.len()
                &&& (#[trigger] messages[i]).direction == "inbound"@
                &&& messages[i].from == m.from
                &&& messages[i].body == m.body
                &&& dates[i] == Some(m.date)
                &&& is_later(m.date, cutoff)
            },
{
    broadcast use vstd::seq_lib::group_to_multiset_ensures;

    let found = after_cutoff(messages, dates, cutoff);
    lemma_selected(messages, dates, cutoff, m);
    sorting_keeps_the_values::<Inbound>(found);
    if found.contains(m) {
        assert(found.to_multiset().contains(m));
        assert(sorted::<Inbound>(found).to_multiset().contains(m));
    }
    if sorted::<Inbound>(found).contains(m) {
        assert(sorted::<Inbound>(found).to_multiset().contains(m));
        assert(found.to_multiset().contains(m));
    }
}

/// The next cutoff is that of the last message that was answered, or the old one:
/// no message that was answered is after it.
pub proof fn cutoff_is_the_last_date(inbound: Seq<InboundView>, cutoff: Timestamp)
    ensures
        forall|i: int|
            0 <= i < inbound.len() ==> !is_later(
                (#[trigger] inbound[i]).date,
                latest(inbound, cutoff),
            ),
        latest(inbound, cutoff) == cutoff || exists|i: int|
            0 <= i < inbound.len() && (#[trigger] inbound[i]).date == latest(inbound, cutoff),
    decreases inbound.len(),
{
    if inbound.len() > 0 {
        let t = inbound.drop_last();
        cutoff_is_the_last_date(t, cutoff);
        assert forall|i: int| 0 <= i < inbound.len() implies !is_later(
            (#[trigger] inbound[i]).date,
            latest(inbound, cutoff),
        ) by {
            if i < t.len() {
                assert(t[i] == inbound[i]);
            }
        }
        if latest(inbound, cutoff) == inbound.last().date {
            assert(inbound[inbound.len() - 1].date == latest(inbound, cutoff));
        } else if latest(t, cutoff) != cutoff {
            let i = choose|i: int| 0 <= i < t.len() && (#[trigger] t[i]).date == latest(t, cutoff);
            assert(inbound[i] == t[i]);
        }
    }
}

/// The address of the messages is that of the account.
pub proof fn messages_are_those_of_the_account(account_sid: Seq<char>)
    ensures
        holds(messages_address(account_sid), account_sid),
{
}

/// A new user is welcomed before the reply, and any other gets the reply alone.
pub proof fn newcomers_are_welcomed(body: Seq<char>)
    ensures
        welcomed(false, body) == body,
        welcomed(true, body).len() == welcome_text().len() + 2 + body.len(),
        welcomed(true, body).take(welcome_text().len() as int) == welcome_text(),
        welcomed(true, body).skip((welcome_text().len() + 2) as int) == body,
{
    reveal_strlit("\n\n");
    let n = welcome_text().len() as int;
    assert(welcomed(true, body).take(n) =~= welcome_text());
    assert(welcomed(true, body).skip(n + 2) =~= body);
}

/// The name of a user is the first name, and behind a blank the last name where
/// there is one.
pub proof fn names_are_put_together(first: Seq<char>, last: Seq<char>)
    ensures
        display_name(first, None) == first,
        display_name(first, Some(last)).len() == first.len() + 1 + last.len(),
        display_name(first, Some(last)).take(first.len() as int) == first,
        display_name(first, Some(last))[first.len() as int] == ' ',
        display_name(first, Some(last)).skip((first.len() + 1) as int) == last,
{
    reveal_strlit(" ");
    let n = first.len() as int;
    assert(display_name(first, Some(last)).take(n) =~= first);
    assert(display_name(first, Some(last)).skip(n + 1) =~= last);
}

/// Each command of the menu does what its name says, and its answers are marked up.
pub proof fn menu_does_what_it_says(
    user: UserView,
    state: AppState,
    cmd: CommandView,
    descriptions: Seq<char>,
    now: Timestamp,
    id: Seq<char>,
)
    ensures
        ({
            let r = commanded(user, state, cmd, descriptions, now, id);
            let index = state.stations@;
            match cmd {
                CommandView::Sub(args) => r == subscribed(
                    user,
                    index,
                    args,
                    Format::Html,
                    now,
                    id,
                ),
                CommandView::Unsub(arg) => r == unsubscribed(user, arg),
                CommandView::Pause(arg) => r == paused(user, arg, now),
                CommandView::Resume => r == resumed(user),
                CommandView::Subs => r.user == user && r.step == StepView::Reply(
                    subs_text(user.subscriptions, now),
                ),
                CommandView::Kill => r.user == user && r.step == kill_step(
                    state.kill_switch_enabled,
                ),
                CommandView::Find(query) => r.user == user && r.step == StepView::Reply(
                    find_reply(index, query),
                ),
                CommandView::Help => r.user == user && r.step == StepView::Reply(
                    escaped(descriptions),
                ),
                CommandView::Now(args) => r.user == user && exists|usage: Seq<char>|
                    r.step == #[trigger] now_step(index, args, Format::Html, usage),
            }
        }),
{
    match cmd {
        CommandView::Now(args) => {
            let usage = "Usage: <code>/now CRS [to CRS]</code>"@;
            assert(commanded(user, state, cmd, descriptions, now, id).step == now_step(
                state.stations@,
                args,
                Format::Html,
                usage,
            ));
        },
        _ => {},
    }
}

/// The date of a message is read from the field in which it was created.
pub proof fn dates_are_those_of_creation(messages: Seq<MessageView>, i: int)
    requires
        0 <= i < messages.len(),
    ensures
        dates_of(messages).len() == messages.len(),
        dates_of(messages)[i] == date_read(messages[i].date_created),
{
}

} // verus!
