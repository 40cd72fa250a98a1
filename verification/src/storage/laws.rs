//! Which files are read, and what becomes of the documents in them.

use crate::domain::UserKeyView;
use crate::stations::last_char;
use crate::storage::file::{extension, is_user_file_name, tmp_file, user_file};
use crate::storage::schema::{
    brought_to_version_2, fields_of, is_migrated, version_of, Json, SchemaError, SchemaErrorView,
};
use crate::table::value_of;
use crate::text::{decimal, holds, two_digits};
use vstd::prelude::*;
use vstd::string::*;

verus! {

proof fn lemma_last_dot(a: Seq<char>, b: Seq<char>)
    requires
        !b.contains('.'),
    ensures
        last_char(a + seq!['.'] + b, '.') == a.len(),
    decreases b.len(),
{
    let s = a + seq!['.'] + b;
    if b.len() > 0 {
        assert(b.contains(b[b.len() - 1]));
        assert(s.drop_last() =~= a + seq!['.'] + b.drop_last());
        assert(!b.drop_last().contains('.')) by {
            if b.drop_last().contains('.') {
                let k = b.drop_last().index_of('.');
                assert(b[k] == '.');
            }
        }
        lemma_last_dot(a, b.drop_last());
    }
}

/// A file has as its extension what stands behind its last dot, unless the name
/// begins with that dot. It is a user's if and only if that is `json`.
pub proof fn extension_stands_behind_the_last_dot(a: Seq<char>, b: Seq<char>)
    requires
        !b.contains('.'),
    ensures
        a.len() > 0 ==> extension(a + seq!['.'] + b) == Some(b),
        a.len() == 0 ==> extension(a + seq!['.'] + b) is None,
        is_user_file_name(a + seq!['.'] + b) <==> a.len() > 0 && b == "json"@,
{
    let s = a + seq!['.'] + b;
    lemma_last_dot(a, b);
    assert(s.skip((a.len() + 1) as int) =~= b);
}

/// The file of a user and the temporary ones start with the user's own stem and
/// are never the same.
pub proof fn files_start_with_the_stem(key: UserKeyView, suffix: Seq<char>)
    ensures
        user_file(key).take(key.file_stem().len() as int) == key.file_stem(),
        user_file(key).len() == key.file_stem().len() + 5,
        tmp_file(key, suffix).take(key.file_stem().len() as int) == key.file_stem(),
        tmp_file(key, suffix).skip(tmp_file(key, suffix).len() - suffix.len()) == suffix,
        tmp_file(key, suffix) != user_file(key),
{
    reveal_strlit(".json");
    reveal_strlit(".json.tmp.");
    let n = key.file_stem().len() as int;
    let t = tmp_file(key, suffix);
    assert(user_file(key).take(n) =~= key.file_stem());
    assert(t.take(n) =~= key.file_stem());
    assert(t.skip(t.len() - suffix.len()) =~= suffix);
    assert(t.len() > user_file(key).len());
}

/// A document of the first version keeps everything but its version and the
/// display IDs of its subscriptions: the subscription at each place gets the
/// number of that place, counted from one, and keeps all the rest.
pub proof fn old_subscriptions_are_numbered(
    value: Json,
    r: Result<Json, SchemaError>,
    subs: Vec<Json>,
    i: int,
    field: Seq<char>,
)
    requires
        is_migrated(value, r),
        version_of(value) < 2,
        value_of(fields_of(value), "subscriptions"@) == Some(Json::Array(subs)),
        0 <= i < subs@.len(),
        subs@[i] is Object,
    ensures
        r is Ok,
        ({
            let list = value_of(fields_of(r->Ok_0), "subscriptions"@);
            &&& list matches Some(Json::Array(after)) && {
                let id = value_of(fields_of(after@[i]), "display_id"@);
                &&& after@.len() == subs@.len()
                &&& id matches Some(Json::Text(t)) && t@ == two_digits((i + 1) as nat)
                &&& field != "display_id"@ ==> value_of(fields_of(after@[i]), field) == value_of(
                    fields_of(subs@[i]),
                    field,
                )
            }
        }),
        field != "version"@ && field != "subscriptions"@ ==> value_of(fields_of(r->Ok_0), field)
            == value_of(fields_of(value), field),
{
    let new = r->Ok_0;
    assert(brought_to_version_2(value, new));
    let list = value_of(fields_of(new), "subscriptions"@);
    match list {
        Some(Json::Array(after)) => {
            assert(after@[i] is Object);
        },
        _ => {},
    }
}

/// A document of a later version is refused, and the refusal names the version; one
/// of the current version stays as it is.
pub proof fn later_versions_are_refused(value: Json, r: Result<Json, SchemaError>)
    requires
        is_migrated(value, r),
    ensures
        r is Err <==> version_of(value) > 2,
        r is Err ==> r->Err_0@ == SchemaErrorView::TooNew(version_of(value)) && holds(
            r->Err_0@.text(),
            decimal(version_of(value) as nat),
        ),
        version_of(value) == 2 ==> r is Ok && r->Ok_0 == value,
{
}

} // verus!
