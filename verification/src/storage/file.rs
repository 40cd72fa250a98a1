//! The files of the users.
//!
//! A user's state is written to a temporary file in the same directory, which
//! is then renamed, so that a file is either the old one or the new one.

use crate::domain::subscription::{is_ulid_char, is_ulid_text, new_ulid};
use crate::domain::{UserKey, UserKeyView};
use crate::stations::last_char;
use crate::text::{chars, same, text_of};
use vstd::prelude::*;
use vstd::string::*;

verus! {

/// The name of a user's file.
pub open spec fn user_file(key: UserKeyView) -> Seq<char> {
    key.file_stem() + ".json"@
}

/// The name of a temporary file for a user, with a suffix of its own.
pub open spec fn tmp_file(key: UserKeyView, suffix: Seq<char>) -> Seq<char> {
    key.file_stem() + ".json.tmp."@ + suffix
}

/// The name of a user's file.
pub fn user_file_name(key: &UserKey) -> (r: String)
    ensures
        r@ == user_file(key@),
{
    let mut name = key.file_stem();
    name.append(".json");
    name
}

/// The name of a temporary file for a user, different each time.
pub fn tmp_file_name(key: &UserKey) -> (r: String)
    ensures
        exists|suffix: Seq<char>|
            is_ulid_text(suffix) && r@ == #[trigger] tmp_file(key@, suffix),
{
    let suffix = new_ulid();
    let mut name = key.file_stem();
    name.append(".json.tmp.");
    name.append(suffix.as_str());
    assert(name@ == tmp_file(key@, suffix@));
    name
}

/// The extension of a file name: what stands behind its last dot, unless the
/// dot is its first character.
pub open spec fn extension(name: Seq<char>) -> Option<Seq<char>> {
    let dot = last_char(name, '.');
    if dot > 0 {
        Some(name.skip(dot + 1))
    } else {
        None
    }
}

/// The file is that of a user.
pub open spec fn is_user_file_name(name: Seq<char>) -> bool {
    extension(name) == Some("json"@)
}

/// Whether a file is that of a user: its extension is `json`.
pub fn is_user_file(name: &str) -> (r: bool)
    ensures
        r == is_user_file_name(name@),
{
    let v = chars(name);
    let n = v.len();
    let mut i: usize = n;
    assert(v@.take(n as int) =~= v@);
    while i > 0 && v[i - 1] != '.'
        invariant
            i <= n,
            n == v@.len(),
            last_char(v@, '.') == last_char(v@.take(i as int), '.'),
        decreases i,
    {
        assert(v@.take(i as int).drop_last() =~= v@.take(i - 1));
        i -= 1;
    }
    if i <= 1 {
        return false;
    }
    assert(last_char(v@, '.') == i - 1);
    let ext = text_of(&v, i, n);
    assert(ext@ =~= name@.skip(i as int));
    same(ext.as_str(), "json")
}

// ---------------------------------------------------------------------------
// Laws
// ---------------------------------------------------------------------------

proof fn lemma_last_char_in_tail(a: Seq<char>, b: Seq<char>, c: char)
    ensures
        last_char(b, c) >= 0 ==> last_char(a + b, c) == a.len() + last_char(b, c),
        last_char(b, c) < 0 ==> last_char(a + b, c) == last_char(a, c),
        -1 <= last_char(b, c) < b.len(),
    decreases b.len(),
{
    if b.len() > 0 {
        assert((a + b).drop_last() =~= a + b.drop_last());
        lemma_last_char_in_tail(a, b.drop_last(), c);
    } else {
        assert(a + b =~= a);
    }
}

proof fn lemma_no_dot(s: Seq<char>)
    requires
        forall|i: int| 0 <= i < s.len() ==> #[trigger] s[i] != '.',
    ensures
        last_char(s, '.') == -1,
    decreases s.len(),
{
    if s.len() > 0 {
        assert(s[s.len() - 1] != '.');
        lemma_no_dot(s.drop_last());
    }
}

/// The file of a user is read when the users are loaded.
pub proof fn user_files_are_read(key: UserKeyView)
    ensures
        is_user_file_name(user_file(key)),
{
    reveal_strlit(".json");
    reveal_strlit("json");
    reveal_strlit("telegram");
    reveal_strlit("twilio");
    let stem = key.file_stem();
    let tail = ".json"@;
    assert(tail =~= seq!['.', 'j', 's', 'o', 'n']);
    assert(tail.skip(1) =~= "json"@);
    assert(tail =~= seq!['.'] + "json"@);
    lemma_no_dot("json"@);
    lemma_last_char_in_tail(seq!['.'], "json"@, '.');
    assert(seq!['.'].last() == '.');
    assert(last_char(seq!['.'], '.') == 0);
    assert(last_char(tail, '.') == 0);
    lemma_last_char_in_tail(stem, tail, '.');
    assert(stem.len() > 0);
    assert((stem + tail).skip(stem.len() as int + 1) =~= tail.skip(1));
}

/// A temporary file that was left behind is not read.
pub proof fn temporary_files_are_not_read(key: UserKeyView, suffix: Seq<char>)
    requires
        is_ulid_text(suffix),
    ensures
        !is_user_file_name(tmp_file(key, suffix)),
{
    reveal_strlit(".json.tmp.");
    reveal_strlit("json");
    let stem = key.file_stem();
    let middle = ".json.tmp."@;
    let front = stem + middle;
    assert forall|i: int| 0 <= i < suffix.len() implies #[trigger] suffix[i] != '.' by {
        assert(is_ulid_char(suffix[i]));
    }
    lemma_no_dot(suffix);
    lemma_last_char_in_tail(front, suffix, '.');
    assert(front.last() == '.');
    assert(last_char(front, '.') == front.len() - 1);
    let name = tmp_file(key, suffix);
    assert(name == front + suffix);
    assert(name.skip(front.len() as int) =~= suffix);
    assert(suffix.len() != "json"@.len());
}

} // verus!
