//! Twilio cloud SMS channel.
//!
//! **Inbound**: the messages directed to the configured number come from the
//!   Twilio Messages API. Only messages received after the adapter started are
//!   processed, each once, the oldest first.
//!
//! **Outbound**: the full reply text goes into one API call. Twilio handles
//!   multi-segment splitting.

use crate::clock::{is_later, Timestamp};
use crate::handlers::DispatchOutcome;
use crate::markup::{gsm_sanitise, gsm_texts, plain, sms_is_ascii, strip_html};
use crate::sorting::{
    ascending, sort, sorted, sorting_keeps_the_values, sorting_puts_in_order, Ranked,
};
use crate::text::{all_ascii, same, views};
use vstd::prelude::*;
use vstd::string::*;

verus! {

/// The address of the messages of an account.
pub open spec fn messages_address(account_sid: Seq<char>) -> Seq<char> {
    "https://api.twilio.com/2010-04-01/Accounts/"@ + account_sid + "/Messages.json"@
}

/// The address of the messages of an account.
pub fn messages_url(account_sid: &str) -> (r: String)
    ensures
        r@ == messages_address(account_sid@),
{
    let mut url = "https://api.twilio.com/2010-04-01/Accounts/".to_string();
    url.append(account_sid);
    url.append("/Messages.json");
    url
}

// ---------------------------------------------------------------------------
// Inbound
// ---------------------------------------------------------------------------

/// A message as the API lists it.
#[derive(Debug)]
pub struct Message {
    pub sid: String,
    pub from: String,
    pub body: String,
    pub direction: String,
    pub date_created: String,
}

#[verifier::ext_equal]
pub struct MessageView {
    pub sid: Seq<char>,
    pub from: Seq<char>,
    pub body: Seq<char>,
    pub direction: Seq<char>,
    pub date_created: Seq<char>,
}

impl View for Message {
    type V = MessageView;

    open spec fn view(&self) -> MessageView {
        MessageView {
            sid: self.sid@,
            from: self.from@,
            body: self.body@,
            direction: self.direction@,
            date_created: self.date_created@,
        }
    }
}

/// A message that is to be answered.
#[derive(Debug)]
pub struct Inbound {
    pub date: Timestamp,
    pub from: String,
    pub body: String,
}

#[verifier::ext_equal]
pub struct InboundView {
    pub date: Timestamp,
    pub from: Seq<char>,
    pub body: Seq<char>,
}

impl View for Inbound {
    type V = InboundView;

    open spec fn view(&self) -> InboundView {
        InboundView { date: self.date, from: self.from@, body: self.body@ }
    }
}

/// Messages rank by date, the oldest first.
impl Ranked for Inbound {
    open spec fn rank_le(a: InboundView, b: InboundView) -> bool {
        !is_later(a.date, b.date)
    }

    fn is_rank_le(a: &Inbound, b: &Inbound) -> (r: bool) {
        !a.date.later_than(&b.date)
    }

    proof fn rank_total(a: InboundView, b: InboundView) {
    }

    proof fn rank_transitive(a: InboundView, b: InboundView, c: InboundView) {
    }
}

/// The instant that an RFC 2822 date names, where it is one.
pub uninterp spec fn date_read(s: Seq<char>) -> Option<Timestamp>;

/// `DateTime::parse_from_rfc2822` of chrono, in UTC. The instant is a function
/// of the text; there is none where the text is not such a date.
#[verifier::external_body]
fn read_date(s: &str) -> (r: Option<Timestamp>)
    ensures
        r == date_read(s@),
{
    let date = chrono::DateTime::parse_from_rfc2822(s).ok();
    date.map(|d| Timestamp { secs: d.timestamp(), nanos: d.timestamp_subsec_nanos() })
}

/// The dates of the messages, where they can be read.
pub open spec fn dates_of(messages: Seq<MessageView>) -> Seq<Option<Timestamp>> {
    Seq::new(messages.len(), |i: int| date_read(messages[i].date_created))
}

/// Whether a message came in whose date cannot be read.
pub fn is_undated(m: &Message) -> (r: bool)
    ensures
        r == (m@.direction == "inbound"@ && date_read(m@.date_created) is None),
{
    same(m.direction.as_str(), "inbound") && read_date(m.date_created.as_str()).is_none()
}

/// The messages that came in after the cutoff, in the order of the list.
/// `dates` holds the date of each message.
pub open spec fn after_cutoff(
    messages: Seq<MessageView>,
    dates: Seq<Option<Timestamp>>,
    cutoff: Timestamp,
) -> Seq<InboundView>
    decreases messages.len(),
{
    if messages.len() == 0 {
        Seq::empty()
    } else {
        let rest = after_cutoff(messages.drop_last(), dates, cutoff);
        let m = messages.last();
        match dates[messages.len() - 1] {
            Some(date) if m.direction == "inbound"@ && is_later(date, cutoff) => rest.push(
                InboundView { date, from: m.from, body: m.body },
            ),
            _ => rest,
        }
    }
}

/// The messages that came in after the cutoff, the oldest first. `dates` holds
/// the date of each message.
pub fn select_dated(messages: &Vec<Message>, dates: &Vec<Option<Timestamp>>, cutoff: Timestamp) -> (r:
    Vec<Inbound>)
    requires
        dates@.len() == messages@.len(),
    ensures
        views(r@) == sorted::<Inbound>(after_cutoff(views(messages@), dates@, cutoff)),
{
    let ghost all = views(messages@);
    let mut out: Vec<Inbound> = Vec::new();
    let mut i: usize = 0;
    assert(all.take(0) =~= Seq::<MessageView>::empty());
    assert(views(out@) =~= Seq::<InboundView>::empty());
    while i < messages.len()
        invariant
            0 <= i <= messages@.len(),
            dates@.len() == messages@.len(),
            all == views(messages@),
            views(out@) == after_cutoff(all.take(i as int), dates@, cutoff),
        decreases messages.len() - i,
    {
        assert(all.take(i + 1).drop_last() =~= all.take(i as int));
        let ghost before = views(out@);
        let m = &messages[i];
        if let Some(date) = dates[i] {
            if same(m.direction.as_str(), "inbound") && date.later_than(&cutoff) {
                let inbound = Inbound { date, from: m.from.clone(), body: m.body.clone() };
                let ghost v = inbound@;
                out.push(inbound);
                assert(views(out@) =~= before.push(v));
            }
        }
        i += 1;
    }
    assert(all.take(i as int) =~= all);
    sort(out)
}

/// The messages that came in after the cutoff, the oldest first, so that
/// replies are sent in order. Messages without a readable date are passed over.
pub fn select_inbound(messages: &Vec<Message>, cutoff: Timestamp) -> (r: Vec<Inbound>)
    ensures
        views(r@) == sorted::<Inbound>(
            after_cutoff(views(messages@), dates_of(views(messages@)), cutoff),
        ),
{
    let ghost all = dates_of(views(messages@));
    let mut dates: Vec<Option<Timestamp>> = Vec::new();
    let mut i: usize = 0;
    while i < messages.len()
        invariant
            0 <= i <= messages@.len(),
            all == dates_of(views(messages@)),
            dates@ == all.take(i as int),
        decreases messages.len() - i,
    {
        dates.push(read_date(messages[i].date_created.as_str()));
        assert(all.take(i + 1) =~= all.take(i as int).push(all[i as int]));
        i += 1;
    }
    assert(all.take(i as int) =~= all);
    select_dated(messages, &dates, cutoff)
}

/// The latest of the dates and the cutoff.
pub open spec fn latest(inbound: Seq<InboundView>, cutoff: Timestamp) -> Timestamp
    decreases inbound.len(),
{
    if inbound.len() == 0 {
        cutoff
    } else {
        let rest = latest(inbound.drop_last(), cutoff);
        if is_later(inbound.last().date, rest) {
            inbound.last().date
        } else {
            rest
        }
    }
}

/// The cutoff once the messages have been answered.
pub fn next_cutoff(inbound: &Vec<Inbound>, cutoff: Timestamp) -> (r: Timestamp)
    ensures
        r == latest(views(inbound@), cutoff),
{
    let ghost all = views(inbound@);
    let mut last = cutoff;
    let mut i: usize = 0;
    assert(all.take(0) =~= Seq::<InboundView>::empty());
    while i < inbound.len()
        invariant
            0 <= i <= inbound@.len(),
            all == views(inbound@),
            last == latest(all.take(i as int), cutoff),
        decreases inbound.len() - i,
    {
        assert(all.take(i + 1).drop_last() =~= all.take(i as int));
        if inbound[i].date.later_than(&last) {
            last = inbound[i].date;
        }
        i += 1;
    }
    assert(all.take(i as int) =~= all);
    last
}

// ---------------------------------------------------------------------------
// Outbound
// ---------------------------------------------------------------------------

/// The reply to an SMS: the outcome without its markup.
pub fn route_sms(outcome: &DispatchOutcome) -> (r: String)
    ensures
        r@ == plain(outcome.text@),
{
    strip_html(outcome.text.as_str())
}

/// The text of an SMS: no markup, and ASCII characters only.
pub fn sms_body(text: &str) -> (r: String)
    ensures
        r@ == gsm_texts(plain(text@)),
        all_ascii(r@),
{
    proof {
        sms_is_ascii(plain(text@));
    }
    gsm_sanitise(strip_html(text).as_str())
}

// ---------------------------------------------------------------------------
// Laws
// ---------------------------------------------------------------------------

proof fn lemma_latest(inbound: Seq<InboundView>, cutoff: Timestamp)
    ensures
        !is_later(cutoff, latest(inbound, cutoff)),
        forall|i: int|
            0 <= i < inbound.len() ==> !is_later(
                (#[trigger] inbound[i]).date,
                latest(inbound, cutoff),
            ),
    decreases inbound.len(),
{
    if inbound.len() > 0 {
        lemma_latest(inbound.drop_last(), cutoff);
        assert forall|i: int| 0 <= i < inbound.len() implies !is_later(
            (#[trigger] inbound[i]).date,
            latest(inbound, cutoff),
        ) by {
            if i < inbound.len() - 1 {
                assert(inbound.drop_last()[i] == inbound[i]);
            }
        }
    }
}

proof fn lemma_after_cutoff(
    messages: Seq<MessageView>,
    dates: Seq<Option<Timestamp>>,
    cutoff: Timestamp,
    m: InboundView,
)
    ensures
        after_cutoff(messages, dates, cutoff).contains(m) ==> is_later(m.date, cutoff),
    decreases messages.len(),
{
    if messages.len() > 0 {
        let t = messages.drop_last();
        let rest = after_cutoff(t, dates, cutoff);
        let r = after_cutoff(messages, dates, cutoff);
        lemma_after_cutoff(t, dates, cutoff, m);
        if r.contains(m) {
            let k = choose|k: int| 0 <= k < r.len() && r[k] == m;
            if k < rest.len() {
                assert(rest[k] == m);
            }
        }
    }
}

/// A message that was answered is not answered again: whatever the list holds
/// next, nothing on it up to the last date that was answered is selected.
pub proof fn no_message_is_answered_twice(
    inbound: Seq<InboundView>,
    cutoff: Timestamp,
    messages: Seq<MessageView>,
    dates: Seq<Option<Timestamp>>,
    i: int,
    j: int,
)
    requires
        0 <= i < inbound.len(),
        ({
            let next = sorted::<Inbound>(
                after_cutoff(messages, dates, latest(inbound, cutoff)),
            );
            0 <= j < next.len()
        }),
    ensures
        ({
            let next = sorted::<Inbound>(
                after_cutoff(messages, dates, latest(inbound, cutoff)),
            );
            is_later(next[j].date, inbound[i].date)
        }),
{
    broadcast use vstd::seq_lib::group_to_multiset_ensures;

    let last = latest(inbound, cutoff);
    let found = after_cutoff(messages, dates, last);
    let next = sorted::<Inbound>(found);
    sorting_keeps_the_values::<Inbound>(found);
    assert(next.contains(next[j]));
    assert(next.to_multiset().contains(next[j]));
    assert(found.contains(next[j]));
    lemma_after_cutoff(messages, dates, last, next[j]);
    lemma_latest(inbound, cutoff);
}

/// Messages are answered in the order in which they came.
pub proof fn oldest_message_comes_first(
    messages: Seq<MessageView>,
    dates: Seq<Option<Timestamp>>,
    cutoff: Timestamp,
    i: int,
    j: int,
)
    requires
        0 <= i < j < sorted::<Inbound>(after_cutoff(messages, dates, cutoff)).len(),
    ensures
        ({
            let all = sorted::<Inbound>(after_cutoff(messages, dates, cutoff));
            !is_later(all[i].date, all[j].date)
        }),
{
    let found = after_cutoff(messages, dates, cutoff);
    sorting_puts_in_order::<Inbound>(found);
    let all = sorted::<Inbound>(found);
    assert(ascending::<Inbound>(all));
    assert(Inbound::rank_le(all[i], all[j]));
}

/// Answering never moves the cutoff back.
pub proof fn cutoff_moves_on(inbound: Seq<InboundView>, cutoff: Timestamp)
    ensures
        !is_later(cutoff, latest(inbound, cutoff)),
{
    lemma_latest(inbound, cutoff);
}

} // verus!
