//! Outbound messages.

pub mod multi;

use crate::domain::{UserKey, UserKeyView};
use crate::text::{
    all_digits, chars, decimal, digits_value, holds, is_digit, lemma_decimal_reads_back, parse_unsigned,
    signed_decimal, text_of,
};
use vstd::prelude::*;
use vstd::string::*;

verus! {

#[derive(Debug)]
pub enum NotifyError {
    Send(String),
    UserUnreachable,
}

pub enum NotifyErrorView {
    Send(Seq<char>),
    UserUnreachable,
}

impl View for NotifyError {
    type V = NotifyErrorView;

    open spec fn view(&self) -> NotifyErrorView {
        match self {
            NotifyError::Send(e) => NotifyErrorView::Send(e@),
            NotifyError::UserUnreachable => NotifyErrorView::UserUnreachable,
        }
    }
}

impl NotifyErrorView {
    pub open spec fn text(self) -> Seq<char> {
        match self {
            NotifyErrorView::Send(e) => "Failed to send message: "@ + e,
            NotifyErrorView::UserUnreachable => "User not reachable on channel"@,
        }
    }
}

impl NotifyError {
    /// What went wrong, in words.
    pub fn text(&self) -> (r: String)
        ensures
            r@ == self@.text(),
    {
        match self {
            NotifyError::Send(e) => {
                let mut s = "Failed to send message: ".to_string();
                s.append(e.as_str());
                s
            },
            NotifyError::UserUnreachable => "User not reachable on channel".to_string(),
        }
    }
}

/// A structured outbound message.
#[derive(Debug)]
pub struct OutboundMessage {
    pub text: String,
}

impl Clone for OutboundMessage {
    fn clone(&self) -> (r: Self)
        ensures
            r == *self,
    {
        OutboundMessage { text: self.text.clone() }
    }
}

impl OutboundMessage {
    pub fn text(text: String) -> (r: Self)
        ensures
            r.text == text,
    {
        OutboundMessage { text }
    }
}

// ---------------------------------------------------------------------------
// Telegram addresses
// ---------------------------------------------------------------------------

/// What a text stands for as an `i64`: digits, which one sign may precede.
pub open spec fn signed_value(s: Seq<char>) -> Option<i64> {
    let negative = s.len() > 0 && s[0] == '-';
    let body = if s.len() > 0 && (s[0] == '-' || s[0] == '+') {
        s.skip(1)
    } else {
        s
    };
    let n = digits_value(body);
    if body.len() == 0 || !all_digits(body) {
        None
    } else if negative && n <= 0x8000_0000_0000_0000 {
        Some((-n) as i64)
    } else if !negative && n <= 0x7fff_ffff_ffff_ffff {
        Some(n as i64)
    } else {
        None
    }
}

fn parse_signed(s: &str) -> (r: Option<i64>)
    ensures
        r == signed_value(s@),
{
    let v = chars(s);
    let len = v.len();
    if len == 0 {
        return None;
    }
    let negative = v[0] == '-';
    let body = if v[0] == '-' || v[0] == '+' {
        let t = text_of(&v, 1, len);
        assert(t@ =~= s@.skip(1));
        t
    } else {
        let t = text_of(&v, 0, len);
        assert(t@ =~= s@);
        t
    };
    let b = chars(body.as_str());
    if b.len() == 0 || b[0] == '+' {
        proof {
            if b@.len() > 0 {
                assert(!is_digit(b@[0]));
            }
        }
        return None;
    }
    match parse_unsigned(body.as_str()) {
        None => None,
        Some(n) => {
            if negative {
                if n == 0x8000_0000_0000_0000 {
                    Some(i64::MIN)
                } else if n < 0x8000_0000_0000_0000 {
                    Some(-(n as i64))
                } else {
                    None
                }
            } else if n <= 0x7fff_ffff_ffff_ffff {
                Some(n as i64)
            } else {
                None
            }
        },
    }
}

/// The chat in which a Telegram user is reached.
pub open spec fn chat_of(key: UserKeyView) -> Option<i64> {
    signed_value(key.channel_user_id)
}

/// The chat in which a Telegram user is reached: the number that their ID spells out.
pub fn chat_id(key: &UserKey) -> (r: Result<i64, NotifyError>)
    ensures
        match r {
            Ok(id) => chat_of(key@) == Some(id),
            Err(e) => chat_of(key@) is None && e is UserUnreachable,
        },
{
    match parse_signed(key.channel_user_id.as_str()) {
        Some(id) => Ok(id),
        None => Err(NotifyError::UserUnreachable),
    }
}

/// A Telegram user is reached in the chat of their own number.
pub proof fn telegram_users_are_reachable(id: i64)
    ensures
        chat_of(UserKeyView::telegram(id as int)) == Some(id),
{
    let n = if id < 0 {
        (-id) as nat
    } else {
        id as nat
    };
    let s = signed_decimal(id as int);
    lemma_decimal_reads_back(n);
    if id < 0 {
        assert(s.skip(1) =~= decimal(n));
    } else {
        assert(is_digit(s[0]));
    }
}

/// A sign turns the number round or leaves it, and a text with anything else than
/// digits behind its first character is no number.
pub proof fn signs_turn_numbers_round(s: Seq<char>, k: int)
    ensures
        s.len() > 0 && all_digits(s) && digits_value(s) <= i64::MAX ==> {
            &&& signed_value(s) is Some
            &&& signed_value(s)->0 == digits_value(s)
            &&& signed_value(seq!['+'] + s) == signed_value(s)
            &&& signed_value(seq!['-'] + s) is Some
            &&& signed_value(seq!['-'] + s)->0 == -signed_value(s)->0
        },
        s.len() == 0 ==> signed_value(s) is None,
        all_digits(s) && digits_value(s) > i64::MAX ==> signed_value(s) is None,
        0 <= k < s.len() && !is_digit(s[k]) && (k > 0 || (s[k] != '+' && s[k] != '-'))
            ==> signed_value(s) is None,
{
    assert((seq!['+'] + s).skip(1) =~= s);
    assert((seq!['-'] + s).skip(1) =~= s);
    if s.len() > 0 && all_digits(s) {
        assert(is_digit(s[0]));
    }
    if 0 < k < s.len() {
        assert(s.skip(1)[k - 1] == s[k]);
    }
}

/// The text of an error holds what went wrong.
pub proof fn failures_say_what_went_wrong(e: Seq<char>)
    ensures
        holds(NotifyErrorView::Send(e).text(), e),
{
    let empty = Seq::<char>::empty();
    assert("Failed to send message: "@ + e =~= "Failed to send message: "@ + e + empty);
}

} // verus!
