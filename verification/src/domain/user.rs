//! User identity and per-user state.

use crate::clock::{is_later, utc_now, Timestamp};
use crate::domain::subscription::{Subscription, SubscriptionView};
use crate::text::{
    all_digits, chars, clone_opt, decimal, is_ascii_alnum, is_digit, lemma_decimal_injective,
    lemma_decimal_reads_back, opt_text, same, signed_decimal, signed_number_text, views,
};
use vstd::prelude::*;
use vstd::string::*;

verus! {

/// Which messaging channel a user is reachable on.
#[derive(Debug, Clone, Copy, PartialEq, Eq, Hash, Structural)]
pub enum Channel {
    Telegram,
    /// Twilio cloud SMS.
    Twilio,
}

impl Channel {
    pub open spec fn text(self) -> Seq<char> {
        match self {
            Channel::Telegram => "telegram"@,
            Channel::Twilio => "twilio"@,
        }
    }

    /// A stable lowercase ASCII identifier for this channel.
    /// Used as the prefix in user JSON filenames (e.g. `"telegram-123"`).
    pub fn as_str(&self) -> (r: &'static str)
        ensures
            r@ == self.text(),
    {
        match self {
            Channel::Telegram => "telegram",
            Channel::Twilio => "twilio",
        }
    }
}

/// Channel-agnostic user identity.
#[derive(Debug, PartialEq, Eq, Hash)]
pub struct UserKey {
    pub channel: Channel,
    /// Channel-specific user ID:
    /// - Telegram: the numeric chat/user ID as a string ("123456789")
    /// - Twilio: E.164 phone number ("+441632960000")
    pub channel_user_id: String,
}

#[verifier::ext_equal]
pub struct UserKeyView {
    pub channel: Channel,
    pub channel_user_id: Seq<char>,
}

impl View for UserKey {
    type V = UserKeyView;

    open spec fn view(&self) -> UserKeyView {
        UserKeyView { channel: self.channel, channel_user_id: self.channel_user_id@ }
    }
}

impl Clone for UserKey {
    fn clone(&self) -> (r: Self)
        ensures
            r@ == self@,
    {
        UserKey { channel: self.channel, channel_user_id: self.channel_user_id.clone() }
    }
}

/// The character that stands for `c` in a file name.
pub open spec fn file_char(c: char) -> char {
    if c == '+' {
        'p'
    } else if is_ascii_alnum(c) {
        c
    } else {
        '_'
    }
}

pub open spec fn file_chars(s: Seq<char>) -> Seq<char> {
    Seq::new(s.len(), |i: int| file_char(s[i]))
}

impl UserKeyView {
    /// The key of a Telegram user.
    pub open spec fn telegram(id: int) -> UserKeyView {
        UserKeyView { channel: Channel::Telegram, channel_user_id: signed_decimal(id) }
    }

    pub open spec fn file_stem(self) -> Seq<char> {
        self.channel.text() + "-"@ + file_chars(self.channel_user_id)
    }
}

impl UserKey {
    /// Generic constructor: preferred when adding new channel adapters.
    pub fn new(channel: Channel, id: String) -> (r: Self)
        ensures
            r.channel == channel,
            r.channel_user_id == id,
    {
        UserKey { channel, channel_user_id: id }
    }

    pub fn telegram(id: i64) -> (r: Self)
        ensures
            r@ == UserKeyView::telegram(id as int),
    {
        UserKey::new(Channel::Telegram, signed_number_text(id))
    }

    /// Create a key for a Twilio SMS user identified by their phone number.
    /// `phone` should be in E.164 format, e.g. `"+441632960000"`.
    pub fn twilio(phone: &str) -> (r: Self)
        ensures
            r@ == (UserKeyView { channel: Channel::Twilio, channel_user_id: phone@ }),
    {
        UserKey::new(Channel::Twilio, phone.to_string())
    }

    pub fn is(&self, other: &UserKey) -> (r: bool)
        ensures
            r == (self@ == other@),
    {
        self.channel == other.channel && same(
            self.channel_user_id.as_str(),
            other.channel_user_id.as_str(),
        )
    }

    /// Returns the filename stem for this user's JSON file.
    ///
    /// The stem is `"<channel>-<sanitized_id>"` where the ID is sanitised by
    /// mapping `+` to `p` and replacing any non-alphanumeric character with `_`.
    ///
    /// Examples:
    /// - Telegram user 123: `telegram-123`
    /// - Twilio "+441632960000": `twilio-p441632960000`
    pub fn file_stem(&self) -> (r: String)
        ensures
            r@ == self@.file_stem(),
    {
        let v = chars(self.channel_user_id.as_str());
        let mut sanitized = String::new();
        let mut i: usize = 0;
        while i < v.len()
            invariant
                0 <= i <= v@.len(),
                sanitized@ == file_chars(v@).take(i as int),
            decreases v.len() - i,
        {
            let c = v[i];
            let d = if c == '+' {
                'p'
            } else if ('0' <= c && c <= '9') || ('A' <= c && c <= 'Z') || ('a' <= c && c <= 'z') {
                c
            } else {
                '_'
            };
            sanitized.push(d);
            assert(file_chars(v@).take(i + 1) =~= file_chars(v@).take(i as int).push(
                file_char(v@[i as int]),
            ));
            i += 1;
        }
        assert(file_chars(v@).take(i as int) =~= file_chars(v@));
        let mut stem = self.channel.as_str().to_string();
        stem.append("-");
        stem.append(sanitized.as_str());
        stem
    }
}

/// Users of different channels never share a file.
pub proof fn channels_have_separate_files(a: UserKeyView, b: UserKeyView)
    requires
        a.channel != b.channel,
    ensures
        a.file_stem() != b.file_stem(),
{
    reveal_strlit("telegram");
    reveal_strlit("twilio");
    assert(a.file_stem()[1] == a.channel.text()[1]);
    assert(b.file_stem()[1] == b.channel.text()[1]);
}

/// Two Telegram users never share a file.
pub proof fn telegram_users_have_separate_files(a: int, b: int)
    requires
        UserKeyView::telegram(a).file_stem() == UserKeyView::telegram(b).file_stem(),
    ensures
        a == b,
{
    let prefix = "telegram"@ + "-"@;
    let x = file_chars(signed_decimal(a));
    let y = file_chars(signed_decimal(b));
    assert(x =~= (prefix + x).skip(prefix.len() as int));
    assert(y =~= (prefix + y).skip(prefix.len() as int));
    lemma_id_chars(a);
    lemma_id_chars(b);
    if (a < 0) != (b < 0) {
        assert(x[0] == y[0]);
    } else if a < 0 {
        assert(decimal((-a) as nat) =~= x.skip(1));
        assert(decimal((-b) as nat) =~= y.skip(1));
        lemma_decimal_injective((-a) as nat, (-b) as nat);
    } else {
        assert(decimal(a as nat) =~= x);
        assert(decimal(b as nat) =~= y);
        lemma_decimal_injective(a as nat, b as nat);
    }
}

/// The file name keeps the digits of a user ID.
proof fn lemma_id_chars(id: int)
    ensures
        ({
            let body = if id < 0 {
                decimal((-id) as nat)
            } else {
                decimal(id as nat)
            };
            let x = file_chars(signed_decimal(id));
            &&& body.len() > 0
            &&& id < 0 ==> x == seq!['_'] + body
            &&& id >= 0 ==> x == body && is_digit(x[0])
        }),
{
    let n = if id < 0 { (-id) as nat } else { id as nat };
    let body = decimal(n);
    lemma_decimal_reads_back(n);
    let x = file_chars(signed_decimal(id));
    if id < 0 {
        assert forall|i: int| 0 <= i < x.len() implies #[trigger] x[i] == (seq!['_'] + body)[i] by {
            if i > 0 {
                assert(is_digit(body[i - 1]));
            }
        }
        assert(x =~= seq!['_'] + body);
    } else {
        assert forall|i: int| 0 <= i < x.len() implies #[trigger] x[i] == body[i] by {
            assert(is_digit(body[i]));
        }
        assert(x =~= body);
    }
}

/// A phone number in E.164 format: a plus sign and digits.
pub open spec fn is_e164(id: Seq<char>) -> bool {
    id.len() > 1 && id[0] == '+' && all_digits(id.skip(1))
}

/// Two users with different phone numbers never share a file.
pub proof fn phone_users_have_separate_files(a: UserKeyView, b: UserKeyView)
    requires
        a.channel == Channel::Twilio,
        b.channel == Channel::Twilio,
        is_e164(a.channel_user_id),
        is_e164(b.channel_user_id),
        a.file_stem() == b.file_stem(),
    ensures
        a == b,
{
    let prefix = "twilio"@ + "-"@;
    let p = a.channel_user_id;
    let q = b.channel_user_id;
    let x = file_chars(p);
    let y = file_chars(q);
    assert(x =~= (prefix + x).skip(prefix.len() as int));
    assert(y =~= (prefix + y).skip(prefix.len() as int));
    assert(p.len() == x.len() && q.len() == y.len());
    assert forall|i: int| 0 <= i < p.len() implies #[trigger] p[i] == q[i] by {
        assert(x[i] == y[i]);
        if i > 0 {
            assert(is_digit(p.skip(1)[i - 1]));
            assert(is_digit(q.skip(1)[i - 1]));
        }
    }
    assert(p =~= q);
}

/// Current schema version written to every new user.
pub const CURRENT_VERSION: u32 = 2;

/// Full in-memory state for a single user.
#[derive(Debug)]
pub struct User {
    /// Schema version: increment when the JSON format changes incompatibly.
    pub version: u32,
    pub key: UserKey,
    pub created_at: Timestamp,
    pub notifications_paused: bool,
    /// If set, notifications are paused until this UTC time (timed pause).
    /// Takes precedence over `notifications_paused = false`.
    pub paused_until: Option<Timestamp>,
    pub subscriptions: Vec<Subscription>,
    /// Telegram display name, where the user info is captured.
    pub telegram_name: Option<String>,
    /// Telegram @username, where the user info is captured.
    pub telegram_username: Option<String>,
}

#[verifier::ext_equal]
pub struct UserView {
    pub version: u32,
    pub key: UserKeyView,
    pub created_at: Timestamp,
    pub notifications_paused: bool,
    pub paused_until: Option<Timestamp>,
    pub subscriptions: Seq<SubscriptionView>,
    pub telegram_name: Option<Seq<char>>,
    pub telegram_username: Option<Seq<char>>,
}

impl View for User {
    type V = UserView;

    open spec fn view(&self) -> UserView {
        UserView {
            version: self.version,
            key: self.key@,
            created_at: self.created_at,
            notifications_paused: self.notifications_paused,
            paused_until: self.paused_until,
            subscriptions: views(self.subscriptions@),
            telegram_name: opt_text(self.telegram_name),
            telegram_username: opt_text(self.telegram_username),
        }
    }
}

/// A copy of a list of subscriptions.
pub fn clone_subscriptions(subs: &Vec<Subscription>) -> (r: Vec<Subscription>)
    ensures
        views(r@) == views(subs@),
{
    let mut out: Vec<Subscription> = Vec::new();
    let mut i: usize = 0;
    while i < subs.len()
        invariant
            0 <= i <= subs@.len(),
            views(out@) == views(subs@).take(i as int),
        decreases subs.len() - i,
    {
        let ghost before = views(out@);
        out.push(subs[i].clone());
        assert(views(out@) =~= before.push(subs@[i as int]@));
        assert(views(subs@).take(i + 1) =~= views(subs@).take(i as int).push(subs@[i as int]@));
        i += 1;
    }
    assert(views(subs@).take(i as int) =~= views(subs@));
    out
}

impl Clone for User {
    fn clone(&self) -> (r: Self)
        ensures
            r@ == self@,
    {
        User {
            version: self.version,
            key: self.key.clone(),
            created_at: self.created_at,
            notifications_paused: self.notifications_paused,
            paused_until: self.paused_until,
            subscriptions: clone_subscriptions(&self.subscriptions),
            telegram_name: clone_opt(&self.telegram_name),
            telegram_username: clone_opt(&self.telegram_username),
        }
    }
}

impl UserView {
    /// The instants are ones the calendar covers, and the windows are made of times of day.
    pub open spec fn wf(self) -> bool {
        &&& self.created_at.wf()
        &&& self.paused_until is Some ==> self.paused_until->0.wf()
        &&& forall|i: int|
            0 <= i < self.subscriptions.len() ==> (#[trigger] self.subscriptions[i]).wf()
    }

    /// A user without subscriptions whose notifications are not paused.
    pub open spec fn fresh(key: UserKeyView, created_at: Timestamp) -> UserView {
        UserView {
            version: CURRENT_VERSION,
            key,
            created_at,
            notifications_paused: false,
            paused_until: None,
            subscriptions: Seq::empty(),
            telegram_name: None,
            telegram_username: None,
        }
    }

    pub open spec fn paused_at(self, now: Timestamp) -> bool {
        self.notifications_paused || match self.paused_until {
            Some(t) => is_later(t, now),
            None => false,
        }
    }
}

impl User {
    /// A new user, created at the given time.
    pub fn created(key: UserKey, created_at: Timestamp) -> (r: Self)
        ensures
            r@ == UserView::fresh(key@, created_at),
    {
        let r = User {
            version: CURRENT_VERSION,
            key,
            created_at,
            notifications_paused: false,
            paused_until: None,
            subscriptions: Vec::new(),
            telegram_name: None,
            telegram_username: None,
        };
        assert(r@.subscriptions =~= Seq::<SubscriptionView>::empty());
        r
    }

    /// A new user, created now.
    pub fn new(key: UserKey) -> (r: Self)
        ensures
            r@ == UserView::fresh(key@, r.created_at),
            r.created_at.wf(),
            r@.wf(),
    {
        User::created(key, utc_now())
    }

    /// Returns true if notifications should be suppressed at the given time.
    pub fn is_paused_at(&self, now: Timestamp) -> (r: bool)
        ensures
            r == self@.paused_at(now),
    {
        if self.notifications_paused {
            return true;
        }
        match &self.paused_until {
            Some(t) => t.later_than(&now),
            None => false,
        }
    }
}

/// A timed pause that has run out stays run out.
pub proof fn timed_pause_ends(user: UserView, now: Timestamp, then: Timestamp)
    requires
        !user.paused_at(now),
        !is_later(now, then),
    ensures
        !user.paused_at(then),
{
}

} // verus!
