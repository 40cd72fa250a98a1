//! Lightweight metrics.
//!
//! Each flush comes to one row for `metrics.csv` (aggregate totals) and one row
//! per user for `metrics_users.csv`, below a header where the file is new.
//!
//! The counters start at zero with each process; the CSV provides the long-term
//! history.

use crate::clock::{format_utc, utc_format, Timestamp};
use crate::domain::{User, UserKey, UserView};
use crate::table::{lookup_after_insertion, value_of, with_pair, TextMap};
use crate::text::{
    decimal, is_digit, join, lemma_decimal_reads_back, number_text, split, split_undoes_join, views,
};
use vstd::prelude::*;
use vstd::string::*;

verus! {

/// What has been counted since the process started.
pub struct Counters {
    pub darwin_requests_total: u64,
    pub messages_sent_total: u64,
    /// Messages sent to each user, by the stem of the user's file.
    pub per_user: TextMap<u64>,
}

#[verifier::ext_equal]
pub struct CountersView {
    pub darwin_requests_total: int,
    pub messages_sent_total: int,
    pub per_user: Seq<(Seq<char>, u64)>,
}

impl View for Counters {
    type V = CountersView;

    open spec fn view(&self) -> CountersView {
        CountersView {
            darwin_requests_total: self.darwin_requests_total as int,
            messages_sent_total: self.messages_sent_total as int,
            per_user: self.per_user@,
        }
    }
}

/// How many messages were sent to a user.
pub open spec fn messages_to(per_user: Seq<(Seq<char>, u64)>, stem: Seq<char>) -> u64 {
    match value_of(per_user, stem) {
        Some(n) => n,
        None => 0,
    }
}

/// The counters after one more message to a user.
pub open spec fn with_message(c: CountersView, stem: Seq<char>) -> CountersView {
    CountersView {
        messages_sent_total: c.messages_sent_total + 1,
        per_user: with_pair(c.per_user, stem, (messages_to(c.per_user, stem) + 1) as u64),
        ..c
    }
}

impl Counters {
    /// Each user is counted once.
    pub open spec fn wf(&self) -> bool {
        self.per_user.wf()
    }

    pub fn new() -> (r: Self)
        ensures
            r@ == (CountersView {
                darwin_requests_total: 0,
                messages_sent_total: 0,
                per_user: Seq::empty(),
            }),
            r.wf(),
    {
        Counters { darwin_requests_total: 0, messages_sent_total: 0, per_user: TextMap::new() }
    }

    /// Add `n` to the Darwin requests counter.
    pub fn record_darwin_requests(&mut self, n: u64)
        requires
            old(self).darwin_requests_total + n <= u64::MAX,
        ensures
            final(self)@ == (CountersView {
                darwin_requests_total: old(self)@.darwin_requests_total + n,
                ..old(self)@
            }),
            old(self).wf() ==> final(self).wf(),
    {
        self.darwin_requests_total = self.darwin_requests_total + n;
    }

    /// Increment the messages-sent counter for one successful notification.
    pub fn record_message_sent(&mut self, user_key: &UserKey)
        requires
            old(self).messages_sent_total < u64::MAX,
            messages_to(old(self)@.per_user, user_key@.file_stem()) < u64::MAX,
        ensures
            final(self)@ == with_message(old(self)@, user_key@.file_stem()),
            old(self).wf() ==> final(self).wf(),
    {
        let stem = user_key.file_stem();
        let n: u64 = self.messages_sent_to(stem.as_str());
        self.messages_sent_total = self.messages_sent_total + 1;
        self.per_user.insert(stem, n + 1);
    }

    /// How many messages were sent to the user with that file stem.
    pub fn messages_sent_to(&self, stem: &str) -> (r: u64)
        ensures
            r == messages_to(self@.per_user, stem@),
    {
        match self.per_user.get(stem) {
            Some(n) => *n,
            None => 0,
        }
    }
}

/// One message more for its user, and as many as before for every other.
pub proof fn messages_are_counted_per_user(c: CountersView, stem: Seq<char>, other: Seq<char>)
    requires
        messages_to(c.per_user, stem) < u64::MAX,
    ensures
        messages_to(with_message(c, stem).per_user, stem) == messages_to(c.per_user, stem) + 1,
        other != stem ==> messages_to(with_message(c, stem).per_user, other) == messages_to(
            c.per_user,
            other,
        ),
{
    lookup_after_insertion(
        c.per_user,
        stem,
        (messages_to(c.per_user, stem) + 1) as u64,
        other,
    );
}

// ---------------------------------------------------------------------------
// Rows
// ---------------------------------------------------------------------------

/// The instant of a row.
pub fn row_stamp(now: &Timestamp) -> (r: String)
    requires
        now.wf(),
    ensures
        r@ == utc_format(now.secs, now.nanos, "%Y-%m-%dT%H:%M:%SZ"@),
{
    format_utc(now, "%Y-%m-%dT%H:%M:%SZ")
}

pub fn metrics_header() -> (r: &'static str)
    ensures
        r@ == "timestamp,darwin_requests_total,messages_sent_total,subscriptions_total"@,
{
    "timestamp,darwin_requests_total,messages_sent_total,subscriptions_total"
}

pub fn users_header() -> (r: &'static str)
    ensures
        r@ == "timestamp,user_id,messages_sent,subscriptions"@,
{
    "timestamp,user_id,messages_sent,subscriptions"
}

/// How many subscriptions the users have together.
pub open spec fn subscription_total(users: Seq<UserView>) -> nat
    decreases users.len(),
{
    if users.len() == 0 {
        0
    } else {
        subscription_total(users.drop_last()) + users.last().subscriptions.len()
    }
}

proof fn lemma_subscription_total(users: Seq<UserView>, n: int)
    requires
        0 <= n <= users.len(),
    ensures
        subscription_total(users.take(n)) <= subscription_total(users),
    decreases users.len() - n,
{
    if n < users.len() {
        lemma_subscription_total(users, n + 1);
        assert(users.take(n + 1).drop_last() =~= users.take(n));
    } else {
        assert(users.take(n) =~= users);
    }
}

/// The row of the totals.
pub open spec fn totals_row(stamp: Seq<char>, c: CountersView, subscriptions: nat) -> Seq<char> {
    stamp + ","@ + decimal(c.darwin_requests_total as nat) + ","@ + decimal(
        c.messages_sent_total as nat,
    ) + ","@ + decimal(subscriptions) + "\n"@
}

/// The row of one user.
pub open spec fn user_row(stamp: Seq<char>, c: CountersView, user: UserView) -> Seq<char> {
    let stem = user.key.file_stem();
    stamp + ","@ + stem + ","@ + decimal(messages_to(c.per_user, stem) as nat) + ","@ + decimal(
        user.subscriptions.len(),
    ) + "\n"@
}

/// The rows of the users, one behind the other.
pub open spec fn user_rows(stamp: Seq<char>, c: CountersView, users: Seq<UserView>) -> Seq<char>
    decreases users.len(),
{
    if users.len() == 0 {
        Seq::empty()
    } else {
        user_rows(stamp, c, users.drop_last()) + user_row(stamp, c, users.last())
    }
}

/// What a flush appends to the two files. There is nothing for the second
/// without a user.
pub struct Flush {
    pub totals: String,
    pub users: Option<String>,
}

impl Counters {
    /// The rows of a flush.
    pub fn flush(&self, stamp: &str, users: &Vec<User>) -> (r: Flush)
        requires
            subscription_total(views(users@)) <= u32::MAX,
        ensures
            r.totals@ == totals_row(stamp@, self@, subscription_total(views(users@))),
            match r.users {
                Some(rows) => users@.len() > 0 && rows@ == user_rows(
                    stamp@,
                    self@,
                    views(users@),
                ),
                None => users@.len() == 0,
            },
    {
        let ghost all = views(users@);
        let mut total: u64 = 0;
        let mut rows = String::new();
        let mut i: usize = 0;
        assert(all.take(0) =~= Seq::<UserView>::empty());
        while i < users.len()
            invariant
                0 <= i <= users@.len(),
                all == views(users@),
                subscription_total(all) <= u32::MAX,
                total == subscription_total(all.take(i as int)),
                rows@ == user_rows(stamp@, self@, all.take(i as int)),
            decreases users.len() - i,
        {
            assert(all.take(i + 1).drop_last() =~= all.take(i as int));
            proof {
                lemma_subscription_total(all, i + 1);
            }
            let user = &users[i];
            let n = user.subscriptions.len() as u64;
            assert(all[i as int].subscriptions.len() == n);
            total = total + n;
            let stem = user.key.file_stem();
            let mut row = stamp.to_string();
            row.append(",");
            row.append(stem.as_str());
            row.append(",");
            row.append(number_text(self.messages_sent_to(stem.as_str())).as_str());
            row.append(",");
            row.append(number_text(n).as_str());
            row.append("\n");
            rows.append(row.as_str());
            i += 1;
        }
        assert(all.take(i as int) =~= all);
        let mut totals = stamp.to_string();
        totals.append(",");
        totals.append(number_text(self.darwin_requests_total).as_str());
        totals.append(",");
        totals.append(number_text(self.messages_sent_total).as_str());
        totals.append(",");
        totals.append(number_text(total).as_str());
        totals.append("\n");
        Flush {
            totals,
            users: if users.len() > 0 {
                Some(rows)
            } else {
                None
            },
        }
    }
}

/// Whether the users have no more subscriptions together than a row can count.
pub fn totals_fit(users: &Vec<User>) -> (r: bool)
    ensures
        r == (subscription_total(views(users@)) <= u32::MAX),
{
    let ghost all = views(users@);
    let mut total: u64 = 0;
    let mut i: usize = 0;
    assert(all.take(0) =~= Seq::<UserView>::empty());
    while i < users.len()
        invariant
            0 <= i <= users@.len(),
            all == views(users@),
            total == subscription_total(all.take(i as int)),
            total <= u32::MAX,
        decreases users.len() - i,
    {
        assert(all.take(i + 1).drop_last() =~= all.take(i as int));
        let n = users[i].subscriptions.len() as u64;
        assert(all[i as int].subscriptions.len() == n);
        if n > u32::MAX as u64 - total {
            proof {
                lemma_subscription_total(all, i + 1);
            }
            return false;
        }
        total = total + n;
        i += 1;
    }
    assert(all.take(i as int) =~= all);
    true
}

/// What is written to a file: the header first where the file is new.
pub open spec fn appended(exists_already: bool, header: Seq<char>, data: Seq<char>) -> Seq<char> {
    if exists_already {
        data
    } else {
        header + "\n"@ + data
    }
}

/// What is to be appended to a file: `data`, with `header` as the first line
/// where the file does not exist yet.
pub fn append_row(exists_already: bool, header: &str, data: &str) -> (r: String)
    ensures
        r@ == appended(exists_already, header@, data@),
{
    if exists_already {
        data.to_string()
    } else {
        let mut text = header.to_string();
        text.append("\n");
        text.append(data);
        text
    }
}

// ---------------------------------------------------------------------------
// Laws
// ---------------------------------------------------------------------------

/// Every message counts once in the total, and changes nothing else that is counted.
pub proof fn messages_count_in_the_total(c: CountersView, stem: Seq<char>)
    ensures
        with_message(c, stem).messages_sent_total == c.messages_sent_total + 1,
        with_message(c, stem).darwin_requests_total == c.darwin_requests_total,
{
}

/// The subscriptions of all users add up, and the rows of the users stand one
/// behind the other.
pub proof fn users_add_up(
    stamp: Seq<char>,
    c: CountersView,
    a: Seq<UserView>,
    b: Seq<UserView>,
    user: UserView,
)
    ensures
        subscription_total(a + b) == subscription_total(a) + subscription_total(b),
        subscription_total(seq![user]) == user.subscriptions.len(),
        subscription_total(Seq::empty()) == 0,
        user_rows(stamp, c, a + b) == user_rows(stamp, c, a) + user_rows(stamp, c, b),
        user_rows(stamp, c, seq![user]) == user_row(stamp, c, user),
        user_rows(stamp, c, Seq::empty()).len() == 0,
    decreases b.len(),
{
    let one = seq![user];
    assert(one.drop_last() =~= Seq::<UserView>::empty());
    assert(subscription_total(one.drop_last()) == 0);
    assert(user_rows(stamp, c, one.drop_last()) =~= Seq::<char>::empty());
    assert(user_rows(stamp, c, one) =~= user_row(stamp, c, user));
    if b.len() == 0 {
        assert(a + b =~= a);
        assert(user_rows(stamp, c, a) + user_rows(stamp, c, b) =~= user_rows(stamp, c, a));
    } else {
        users_add_up(stamp, c, a, b.drop_last(), user);
        assert((a + b).drop_last() =~= a + b.drop_last());
        assert(user_rows(stamp, c, a + b) =~= user_rows(stamp, c, a) + user_rows(stamp, c, b));
    }
}

proof fn lemma_no_comma(n: nat)
    ensures
        !decimal(n).contains(','),
{
    lemma_decimal_reads_back(n);
    if decimal(n).contains(',') {
        let k = decimal(n).index_of(',');
        assert(is_digit(decimal(n)[k]));
    }
}

proof fn lemma_four_columns(a: Seq<char>, b: Seq<char>, c: Seq<char>, d: Seq<char>)
    requires
        !a.contains(','),
        !b.contains(','),
        !c.contains(','),
        !d.contains(','),
    ensures
        split(a + ","@ + b + ","@ + c + ","@ + d, ',') == seq![a, b, c, d],
{
    reveal_strlit(",");
    assert(","@ =~= seq![',']);
    let parts = seq![a, b, c, d];
    reveal_with_fuel(join, 5);
    assert(parts.drop_last() =~= seq![a, b, c]);
    assert(seq![a, b, c].drop_last() =~= seq![a, b]);
    assert(seq![a, b].drop_last() =~= seq![a]);
    assert(join(parts, ","@) =~= a + ","@ + b + ","@ + c + ","@ + d);
    split_undoes_join(parts, ',');
}

/// The columns of the totals are the instant, the requests, the messages and the
/// subscriptions, and the row ends the line.
pub proof fn totals_stand_in_their_columns(stamp: Seq<char>, c: CountersView, subscriptions: nat)
    requires
        !stamp.contains(','),
    ensures
        ({
            let row = totals_row(stamp, c, subscriptions);
            &&& row.len() > 0 && row.last() == '\n'
            &&& split(row.drop_last(), ',') == seq![
                stamp,
                decimal(c.darwin_requests_total as nat),
                decimal(c.messages_sent_total as nat),
                decimal(subscriptions),
            ]
        }),
{
    reveal_strlit("\n");
    let row = totals_row(stamp, c, subscriptions);
    let x = decimal(c.darwin_requests_total as nat);
    let y = decimal(c.messages_sent_total as nat);
    let z = decimal(subscriptions);
    lemma_no_comma(c.darwin_requests_total as nat);
    lemma_no_comma(c.messages_sent_total as nat);
    lemma_no_comma(subscriptions);
    assert(row.drop_last() =~= stamp + ","@ + x + ","@ + y + ","@ + z);
    lemma_four_columns(stamp, x, y, z);
}

/// The columns of a user are the instant, the name of the user's file, the messages
/// to the user and the user's subscriptions, and the row ends the line.
pub proof fn users_stand_in_their_columns(stamp: Seq<char>, c: CountersView, user: UserView)
    requires
        !stamp.contains(','),
        !user.key.file_stem().contains(','),
    ensures
        ({
            let row = user_row(stamp, c, user);
            &&& row.len() > 0 && row.last() == '\n'
            &&& split(row.drop_last(), ',') == seq![
                stamp,
                user.key.file_stem(),
                decimal(messages_to(c.per_user, user.key.file_stem()) as nat),
                decimal(user.subscriptions.len()),
            ]
        }),
{
    reveal_strlit("\n");
    let row = user_row(stamp, c, user);
    let stem = user.key.file_stem();
    let n = messages_to(c.per_user, stem) as nat;
    lemma_no_comma(n);
    lemma_no_comma(user.subscriptions.len());
    assert(row.drop_last() =~= stamp + ","@ + stem + ","@ + decimal(n) + ","@ + decimal(
        user.subscriptions.len(),
    ));
    lemma_four_columns(stamp, stem, decimal(n), decimal(user.subscriptions.len()));
}

/// The header stands in a file once: on a line of its own, before the first data.
pub proof fn header_comes_once(header: Seq<char>, data: Seq<char>, more: Seq<char>)
    ensures
        appended(true, header, data) == data,
        appended(false, header, data).len() == header.len() + 1 + data.len(),
        appended(false, header, data).take(header.len() as int) == header,
        appended(false, header, data)[header.len() as int] == '\n',
        appended(false, header, data) + appended(true, header, more) == appended(
            false,
            header,
            data + more,
        ),
{
    reveal_strlit("\n");
    assert(appended(false, header, data).take(header.len() as int) =~= header);
    assert(appended(false, header, data) + more =~= appended(false, header, data + more));
}

} // verus!
