//! Multi-channel notifier that routes by [`crate::domain::Channel`].
//!
//! At runtime it looks at `user.channel` and picks whichever per-channel
//! notifier was registered for that channel.

use crate::domain::{Channel, UserKey};
use crate::notifier::NotifyError;
use crate::table::{
    distinct_keys, key_position, lemma_key_position, lemma_key_position_is,
    lemma_with_pair_distinct, lookup_after_insertion, value_of, with_pair,
};
use vstd::prelude::*;

verus! {

/// The notifiers by channel.
pub struct MultiChannelNotifier<N> {
    pub notifiers: Vec<(Channel, N)>,
}

impl<N> View for MultiChannelNotifier<N> {
    type V = Seq<(Channel, N)>;

    open spec fn view(&self) -> Seq<(Channel, N)> {
        self.notifiers@
    }
}

impl<N> MultiChannelNotifier<N> {
    /// Each channel has one notifier at most.
    pub open spec fn wf(&self) -> bool {
        distinct_keys(self@)
    }

    pub fn new() -> (r: Self)
        ensures
            r@ == Seq::<(Channel, N)>::empty(),
            r.wf(),
    {
        MultiChannelNotifier { notifiers: Vec::new() }
    }

    fn position(&self, channel: Channel) -> (r: usize)
        ensures
            r == key_position(self@, channel),
            r <= self@.len(),
    {
        let mut i: usize = 0;
        while i < self.notifiers.len() && self.notifiers[i].0 != channel
            invariant
                0 <= i <= self.notifiers@.len(),
                forall|j: int| 0 <= j < i ==> (#[trigger] self@[j]).0 != channel,
            decreases self.notifiers.len() - i,
        {
            i += 1;
        }
        proof {
            lemma_key_position_is(self@, channel, i as int);
        }
        i
    }

    /// Register a notifier for a channel. Replaces any existing registration.
    pub fn register(&mut self, channel: Channel, notifier: N)
        ensures
            final(self)@ == with_pair(old(self)@, channel, notifier),
            old(self).wf() ==> final(self).wf(),
    {
        let i = self.position(channel);
        proof {
            lemma_key_position(self@, channel);
            if self.wf() {
                lemma_with_pair_distinct(self@, channel, notifier);
            }
        }
        if i < self.notifiers.len() {
            self.notifiers.set(i, (channel, notifier));
        } else {
            self.notifiers.push((channel, notifier));
        }
    }

    /// The notifier that reaches a user. A user on a channel without one is not
    /// reachable.
    pub fn route(&self, user: &UserKey) -> (r: Result<&N, NotifyError>)
        ensures
            match r {
                Ok(n) => value_of(self@, user.channel) == Some(*n),
                Err(e) => value_of(self@, user.channel) is None && e is UserUnreachable,
            },
    {
        let i = self.position(user.channel);
        if i < self.notifiers.len() {
            Ok(&self.notifiers[i].1)
        } else {
            Err(NotifyError::UserUnreachable)
        }
    }
}

/// After a registration the users of the channel are reached by the new
/// notifier, and those of the other channel as before.
pub proof fn registration_is_per_channel<N>(
    notifiers: Seq<(Channel, N)>,
    channel: Channel,
    notifier: N,
    other: Channel,
)
    ensures
        value_of(with_pair(notifiers, channel, notifier), channel) == Some(notifier),
        other != channel ==> value_of(with_pair(notifiers, channel, notifier), other) == value_of(
            notifiers,
            other,
        ),
{
    lookup_after_insertion(notifiers, channel, notifier, other);
}

} // verus!
