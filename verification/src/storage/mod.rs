//! The users in memory, and the names of their files.

pub mod file;
pub mod laws;
pub mod schema;

use crate::clock::{utc_now, Timestamp};
use crate::domain::{User, UserKey, UserKeyView, UserView};
use crate::table::{
    has_key, lemma_key_position, lookup_after_insertion, value_of, with_pair, UserMap,
};
use vstd::prelude::*;

verus! {

/// In-memory user store.
pub struct UserStore {
    pub users: UserMap<User>,
}

/// The users by their keys.
pub type Users = Seq<(UserKeyView, UserView)>;

impl View for UserStore {
    type V = Users;

    open spec fn view(&self) -> Users {
        self.users@
    }
}

/// Every user stands under their own key.
pub open spec fn keyed_by_user(users: Users) -> bool {
    forall|i: int| 0 <= i < users.len() ==> (#[trigger] users[i]).0 == users[i].1.key
}

/// The users with one of a key among them: the one who is there, or a new one.
pub open spec fn with_user(users: Users, key: UserKeyView, now: Timestamp) -> Users {
    if has_key(users, key) {
        users
    } else {
        users.push((key, UserView::fresh(key, now)))
    }
}

impl UserStore {
    /// Each user stands in the store once, under their own key.
    pub open spec fn wf(&self) -> bool {
        self.users.wf() && keyed_by_user(self@)
    }

    pub fn new() -> (r: Self)
        ensures
            r@ == Seq::<(UserKeyView, UserView)>::empty(),
            r.wf(),
    {
        UserStore { users: UserMap::new() }
    }

    /// Take in a user that was read from a file.
    pub fn load(&mut self, user: User)
        ensures
            final(self)@ == with_pair(old(self)@, user@.key, user@),
            old(self).wf() ==> final(self).wf(),
    {
        let ghost before = self@;
        let ghost view = user@;
        self.users.insert(user.key.clone(), user);
        proof {
            lemma_key_position(before, view.key);
            if keyed_by_user(before) {
                assert forall|i: int| 0 <= i < self@.len() implies (#[trigger] self@[i]).0
                    == self@[i].1.key by {
                    if i < before.len() {
                        assert(before[i].0 == before[i].1.key);
                    }
                }
            }
        }
    }

    /// The position of a user, and whether the user was newly created at the given time.
    pub fn get_or_create_at(&mut self, key: UserKey, now: Timestamp) -> (r: (usize, bool))
        requires
            old(self).wf(),
        ensures
            final(self)@ == with_user(old(self)@, key@, now),
            r.1 == !has_key(old(self)@, key@),
            r.0 < final(self)@.len(),
            final(self)@[r.0 as int].0 == key@,
            final(self).wf(),
    {
        let ghost before = self@;
        proof {
            lemma_key_position(before, key@);
        }
        let i = self.users.position(&key);
        if i < self.users.entries.len() {
            return (i, false);
        }
        let ghost k = key@;
        let user = User::created(key.clone(), now);
        self.users.insert(key, user);
        proof {
            assert(self@ =~= before.push((k, UserView::fresh(k, now))));
            assert forall|j: int| 0 <= j < self@.len() implies (#[trigger] self@[j]).0
                == self@[j].1.key by {
                if j < before.len() {
                    assert(before[j].0 == before[j].1.key);
                }
            }
        }
        (i, true)
    }

    /// The position of a user, and whether the user was newly created.
    pub fn get_or_create_new(&mut self, key: UserKey) -> (r: (usize, bool))
        requires
            old(self).wf(),
        ensures
            exists|now: Timestamp|
                now.wf() && final(self)@ == #[trigger] with_user(old(self)@, key@, now),
            r.1 == !has_key(old(self)@, key@),
            r.0 < final(self)@.len(),
            final(self)@[r.0 as int].0 == key@,
            final(self).wf(),
    {
        let now = utc_now();
        self.get_or_create_at(key, now)
    }

    /// The position of a user. A user who does not exist yet is created.
    pub fn get_or_create(&mut self, key: UserKey) -> (r: usize)
        requires
            old(self).wf(),
        ensures
            exists|now: Timestamp|
                now.wf() && final(self)@ == #[trigger] with_user(old(self)@, key@, now),
            r < final(self)@.len(),
            final(self)@[r as int].0 == key@,
            final(self).wf(),
    {
        self.get_or_create_new(key).0
    }

    /// A snapshot of all users (for the polling loop).
    pub fn all_users(&self) -> (r: Vec<User>)
        ensures
            r@.len() == self@.len(),
            forall|i: int| 0 <= i < self@.len() ==> (#[trigger] r@[i])@ == self@[i].1,
    {
        let mut out: Vec<User> = Vec::new();
        let mut i: usize = 0;
        while i < self.users.entries.len()
            invariant
                0 <= i <= self.users.entries@.len(),
                out@.len() == i,
                forall|j: int| 0 <= j < i ==> (#[trigger] out@[j])@ == self@[j].1,
            decreases self.users.entries.len() - i,
        {
            out.push(self.users.entries[i].1.clone());
            i += 1;
        }
        out
    }
}

/// A user who was created is found again, and the other users are as before.
pub proof fn created_user_is_found(
    users: Users,
    key: UserKeyView,
    now: Timestamp,
    other: UserKeyView,
)
    ensures
        value_of(with_user(users, key, now), key) is Some,
        !has_key(users, key) ==> value_of(with_user(users, key, now), key) == Some(
            UserView::fresh(key, now),
        ),
        other != key ==> value_of(with_user(users, key, now), other) == value_of(users, other),
{
    lemma_key_position(users, key);
    if !has_key(users, key) {
        assert(with_user(users, key, now) == with_pair(users, key, UserView::fresh(key, now)));
        lookup_after_insertion(users, key, UserView::fresh(key, now), other);
    }
}

/// Who exists already is not created again.
pub proof fn existing_user_stays(users: Users, key: UserKeyView, now: Timestamp, later: Timestamp)
    ensures
        with_user(with_user(users, key, now), key, later) == with_user(users, key, now),
{
    let once = with_user(users, key, now);
    if !has_key(users, key) {
        assert(once[once.len() - 1].0 == key);
    }
}

} // verus!
