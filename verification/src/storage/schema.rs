//! The JSON of a user file, and how files of earlier versions are brought up to date.

use crate::table::{
    key_position, lemma_key_position, lemma_key_position_is, lookup_after_insertion, value_of,
    with_pair,
};
use crate::text::{decimal, number_text, same, two_digit_text, two_digits};
use vstd::prelude::*;
use vstd::string::*;

pub use crate::domain::user::CURRENT_VERSION;

verus! {

/// A JSON number: its text, and its value where it is a whole number without a
/// sign that 64 bits can hold.
#[derive(Debug)]
pub struct JsonNumber {
    pub text: String,
    pub unsigned: Option<u64>,
}

/// A JSON document.
#[derive(Debug)]
pub enum Json {
    Null,
    Bool(bool),
    Number(JsonNumber),
    Text(String),
    Array(Vec<Json>),
    /// The fields, each key once.
    Object(Vec<(String, Json)>),
}

/// The fields of an object by their names.
pub open spec fn fields(entries: Seq<(String, Json)>) -> Seq<(Seq<char>, Json)> {
    Seq::new(entries.len(), |i: int| (entries[i].0@, entries[i].1))
}

/// The fields of a document that is an object. A null is taken for an object
/// without fields.
pub open spec fn fields_of(value: Json) -> Seq<(Seq<char>, Json)> {
    match value {
        Json::Object(entries) => fields(entries@),
        _ => Seq::empty(),
    }
}

pub open spec fn is_text(value: Option<Json>, text: Seq<char>) -> bool {
    value matches Some(Json::Text(s)) && s@ == text
}

/// The value is this number.
pub open spec fn is_number(value: Option<Json>, n: u64) -> bool {
    value matches Some(Json::Number(x)) && x.unsigned == Some(n) && x.text@ == decimal(n as nat)
}

/// The version that a document says it has, cut to 32 bits; a document that
/// says nothing has version 0.
pub open spec fn version_of(value: Json) -> u32 {
    match value_of(fields_of(value), "version"@) {
        Some(Json::Number(n)) => match n.unsigned {
            Some(v) => v as u32,
            None => 0,
        },
        _ => 0,
    }
}

fn field_position(entries: &Vec<(String, Json)>, key: &str) -> (r: usize)
    ensures
        r == key_position(fields(entries@), key@),
        r <= entries@.len(),
{
    let mut i: usize = 0;
    while i < entries.len() && !same(entries[i].0.as_str(), key)
        invariant
            0 <= i <= entries@.len(),
            forall|j: int| 0 <= j < i ==> (#[trigger] fields(entries@)[j]).0 != key@,
        decreases entries.len() - i,
    {
        i += 1;
    }
    proof {
        if i < entries@.len() {
            assert(fields(entries@)[i as int].0 == entries@[i as int].0@);
        }
        lemma_key_position_is(fields(entries@), key@, i as int);
    }
    i
}

fn set_field(entries: &mut Vec<(String, Json)>, key: &str, value: Json)
    ensures
        fields(final(entries)@) == with_pair(fields(old(entries)@), key@, value),
{
    let i = field_position(entries, key);
    let ghost before = fields(entries@);
    proof {
        lemma_key_position(before, key@);
    }
    if i < entries.len() {
        entries.set(i, (key.to_string(), value));
        assert(fields(entries@) =~= before.update(i as int, (key@, value)));
    } else {
        entries.push((key.to_string(), value));
        assert(fields(entries@) =~= before.push((key@, value)));
    }
}

/// The version that a document says it has.
pub fn document_version(value: &Json) -> (r: u32)
    ensures
        r == version_of(*value),
{
    match value {
        Json::Object(entries) => {
            let i = field_position(entries, "version");
            if i < entries.len() {
                match &entries[i].1 {
                    Json::Number(n) => match n.unsigned {
                        Some(v) => v as u32,
                        None => 0,
                    },
                    _ => 0,
                }
            } else {
                0
            }
        },
        _ => {
            proof {
                lemma_key_position(fields_of(*value), "version"@);
            }
            0
        },
    }
}

/// Why a document cannot be read.
#[derive(Debug)]
pub enum SchemaError {
    /// It is not JSON.
    Parse(String),
    /// It has a later version than this program knows.
    TooNew(u32),
}

pub enum SchemaErrorView {
    Parse(Seq<char>),
    TooNew(u32),
}

impl View for SchemaError {
    type V = SchemaErrorView;

    open spec fn view(&self) -> SchemaErrorView {
        match self {
            SchemaError::Parse(e) => SchemaErrorView::Parse(e@),
            SchemaError::TooNew(v) => SchemaErrorView::TooNew(*v),
        }
    }
}

impl SchemaErrorView {
    pub open spec fn text(self) -> Seq<char> {
        match self {
            SchemaErrorView::Parse(e) => e,
            SchemaErrorView::TooNew(v) => "File has schema version "@ + decimal(v as nat)
                + " but this binary only knows up to 2. Please upgrade the bot."@,
        }
    }
}

impl SchemaError {
    /// What went wrong, in words.
    pub fn text(&self) -> (r: String)
        ensures
            r@ == self@.text(),
    {
        match self {
            SchemaError::Parse(e) => e.clone(),
            SchemaError::TooNew(v) => {
                let mut s = "File has schema version ".to_string();
                s.append(number_text(*v as u64).as_str());
                s.append(" but this binary only knows up to 2. Please upgrade the bot.");
                s
            },
        }
    }
}

// ---------------------------------------------------------------------------
// Migration
// ---------------------------------------------------------------------------

/// The object is the other one with a display ID set and nothing else changed.
pub open spec fn has_display_id_set(old: Json, new: Json, id: Seq<char>) -> bool {
    match old {
        Json::Object(_) => {
            &&& new is Object
            &&& is_text(value_of(fields_of(new), "display_id"@), id)
            &&& forall|k: Seq<char>|
                k != "display_id"@ ==> #[trigger] value_of(fields_of(new), k) == value_of(
                    fields_of(old),
                    k,
                )
        },
        _ => new == old,
    }
}

/// The subscriptions are the other ones with the display IDs 01, 02, ... in the
/// order in which they stand.
pub open spec fn backfilled(old: Seq<Json>, new: Seq<Json>) -> bool {
    &&& new.len() == old.len()
    &&& forall|i: int|
        0 <= i < old.len() ==> has_display_id_set(
            old[i],
            #[trigger] new[i],
            two_digits((i + 1) as nat),
        )
}

/// The field of the subscriptions with display IDs filled in, where it is a list.
pub open spec fn subscriptions_backfilled(old: Option<Json>, new: Option<Json>) -> bool {
    match old {
        Some(Json::Array(subs)) => new matches Some(Json::Array(after)) && backfilled(
            subs@,
            after@,
        ),
        _ => new == old,
    }
}

/// The document is the other one brought from the first version to the second.
pub open spec fn brought_to_version_2(old: Json, new: Json) -> bool {
    let before = fields_of(old);
    let after = fields_of(new);
    &&& new is Object
    &&& is_number(value_of(after, "version"@), 2)
    &&& subscriptions_backfilled(
        value_of(before, "subscriptions"@),
        value_of(after, "subscriptions"@),
    )
    &&& forall|k: Seq<char>|
        k != "version"@ && k != "subscriptions"@ ==> #[trigger] value_of(after, k) == value_of(
            before,
            k,
        )
}

/// A document of an earlier version has to be an object, or null.
pub open spec fn can_migrate(value: Json, from_version: u32) -> bool {
    from_version < 2 ==> value is Object || value is Null
}

fn backfill(subs: &mut Vec<Json>)
    ensures
        backfilled(old(subs)@, final(subs)@),
{
    let ghost before = subs@;
    let n = subs.len();
    let mut i: usize = 0;
    while i < n
        invariant
            0 <= i <= n,
            n == subs@.len(),
            n == before.len(),
            forall|j: int|
                0 <= j < i ==> has_display_id_set(
                    before[j],
                    #[trigger] subs@[j],
                    two_digits((j + 1) as nat),
                ),
            forall|j: int| i <= j < n ==> #[trigger] subs@[j] == before[j],
        decreases n - i,
    {
        let id = two_digit_text(i as u64 + 1);
        let ghost text = id@;
        let ghost was = subs@[i as int];
        match &mut subs[i] {
            Json::Object(entries) => {
                let value = Json::Text(id);
                proof {
                    assert forall|k: Seq<char>| k != "display_id"@ implies #[trigger] value_of(
                        with_pair(fields(entries@), "display_id"@, value),
                        k,
                    ) == value_of(fields(entries@), k) by {
                        lookup_after_insertion(fields(entries@), "display_id"@, value, k);
                    }
                    lookup_after_insertion(
                        fields(entries@),
                        "display_id"@,
                        value,
                        "display_id"@,
                    );
                }
                set_field(entries, "display_id", value);
            },
            _ => {},
        }
        assert(has_display_id_set(was, subs@[i as int], text));
        i += 1;
    }
}

/// Apply the migrations from `from_version` up to the current version.
pub fn migrate(value: Json, from_version: u32) -> (r: Result<Json, SchemaError>)
    requires
        can_migrate(value, from_version),
    ensures
        match r {
            Err(e) => from_version > CURRENT_VERSION && e@ == SchemaErrorView::TooNew(from_version),
            Ok(new) => {
                &&& from_version <= CURRENT_VERSION
                &&& from_version == 2 ==> new == value
                &&& from_version < 2 ==> brought_to_version_2(value, new)
            },
        },
{
    if from_version > CURRENT_VERSION {
        return Err(SchemaError::TooNew(from_version));
    }
    if from_version == 2 {
        return Ok(value);
    }
    // Backfill display_id on every existing subscription: "01", "02", ... in
    // the order they appear in the array.
    let ghost old_fields = fields_of(value);
    let mut entries: Vec<(String, Json)> = match value {
        Json::Object(entries) => entries,
        _ => Vec::new(),
    };
    assert(fields(entries@) =~= old_fields);
    let k = field_position(&entries, "subscriptions");
    if k < entries.len() {
        match &mut entries[k].1 {
            Json::Array(subs) => {
                backfill(subs);
            },
            _ => {},
        }
    }
    let ghost middle = fields(entries@);
    proof {
        lemma_same_but_one(old_fields, middle, "subscriptions"@);
    }
    set_field(
        &mut entries,
        "version",
        Json::Number(JsonNumber { text: number_text(2), unsigned: Some(2) }),
    );
    let new = Json::Object(entries);
    proof {
        reveal_strlit("version");
        reveal_strlit("subscriptions");
        assert("version"@.len() != "subscriptions"@.len());
        lemma_key_position(middle, "version"@);
        let set = fields(entries@)[key_position(middle, "version"@)].1;
        assert(fields(entries@) == with_pair(middle, "version"@, set));
        lookup_after_insertion(middle, "version"@, set, "version"@);
        lookup_after_insertion(middle, "version"@, set, "subscriptions"@);
        assert forall|key: Seq<char>|
            key != "version"@ && key != "subscriptions"@ implies #[trigger] value_of(
            fields_of(new),
            key,
        ) == value_of(old_fields, key) by {
            lookup_after_insertion(middle, "version"@, set, key);
        }
    }
    Ok(new)
}

/// Maps that differ in the value of one key at most agree on the others.
proof fn lemma_same_but_one(
    a: Seq<(Seq<char>, Json)>,
    b: Seq<(Seq<char>, Json)>,
    key: Seq<char>,
)
    requires
        a.len() == b.len(),
        forall|i: int| 0 <= i < a.len() ==> (#[trigger] a[i]).0 == b[i].0,
        forall|i: int|
            0 <= i < a.len() && i != key_position(a, key) ==> (#[trigger] a[i]).1 == b[i].1,
    ensures
        key_position(b, key) == key_position(a, key),
        forall|k: Seq<char>| k != key ==> #[trigger] value_of(b, k) == value_of(a, k),
{
    lemma_key_position(a, key);
    assert forall|i: int| 0 <= i < key_position(a, key) implies (#[trigger] b[i]).0 != key by {
        assert(a[i].0 == b[i].0);
    }
    if key_position(a, key) < a.len() {
        assert(a[key_position(a, key)].0 == b[key_position(a, key)].0);
    }
    lemma_key_position_is(b, key, key_position(a, key));
    assert forall|k: Seq<char>| k != key implies #[trigger] value_of(b, k) == value_of(a, k) by {
        lemma_key_position(a, k);
        let n = key_position(a, k);
        assert forall|i: int| 0 <= i < n implies (#[trigger] b[i]).0 != k by {
            assert(a[i].0 == b[i].0);
        }
        if n < a.len() {
            assert(a[n].0 == b[n].0);
        }
        lemma_key_position_is(b, k, n);
    }
}

// ---------------------------------------------------------------------------
// Reading
// ---------------------------------------------------------------------------

/// `serde_json::Value`.
#[verifier::external_type_specification]
#[verifier::external_body]
pub struct ExValue(serde_json::Value);

/// The document that a `serde_json::Value` stands for.
pub uninterp spec fn document(value: serde_json::Value) -> Json;

/// The value as a document of this crate, part by part. A number keeps the text
/// that it is written with and what `Value::as_u64` makes of it.
#[verifier::external_body]
fn to_document(value: serde_json::Value) -> (r: Json)
    ensures
        r == document(value),
{
    match value {
        serde_json::Value::Null => Json::Null,
        serde_json::Value::Bool(b) => Json::Bool(b),
        serde_json::Value::Number(n) => Json::Number(
            JsonNumber { text: n.to_string(), unsigned: n.as_u64() },
        ),
        serde_json::Value::String(s) => Json::Text(s),
        serde_json::Value::Array(a) => Json::Array(a.into_iter().map(to_document).collect()),
        serde_json::Value::Object(o) => Json::Object(
            o.into_iter().map(|(k, v)| (k, to_document(v))).collect(),
        ),
    }
}

/// What `serde_json::from_slice` makes of bytes: a value, or what is wrong with
/// them in words.
pub uninterp spec fn json_value(bytes: Seq<u8>) -> Result<serde_json::Value, Seq<char>>;

/// `serde_json::from_slice` into a `Value`. The value, or the text of the
/// error, is a function of the bytes.
#[verifier::external_body]
fn parse_value(bytes: &[u8]) -> (r: Result<serde_json::Value, String>)
    ensures
        match r {
            Ok(v) => json_value(bytes@) == Ok::<serde_json::Value, Seq<char>>(v),
            Err(e) => json_value(bytes@) == Err::<serde_json::Value, Seq<char>>(e@),
        },
{
    serde_json::from_slice::<serde_json::Value>(bytes).map_err(|e| e.to_string())
}

/// The document that bytes hold, or what is wrong with them.
pub open spec fn json_read(bytes: Seq<u8>) -> Result<Json, Seq<char>> {
    match json_value(bytes) {
        Ok(v) => Ok(document(v)),
        Err(e) => Err(e),
    }
}

/// The document that bytes hold.
pub fn parse_document(bytes: &[u8]) -> (r: Result<Json, SchemaError>)
    ensures
        match r {
            Ok(value) => json_read(bytes@) == Ok::<Json, Seq<char>>(value),
            Err(e) => e is Parse && json_read(bytes@) == Err::<Json, Seq<char>>(e->Parse_0@),
        },
{
    match parse_value(bytes) {
        Ok(v) => Ok(to_document(v)),
        Err(e) => Err(SchemaError::Parse(e)),
    }
}

/// What a document comes to once it is up to date.
pub open spec fn is_migrated(value: Json, r: Result<Json, SchemaError>) -> bool {
    let version = version_of(value);
    match r {
        Err(e) => version > CURRENT_VERSION && e@ == SchemaErrorView::TooNew(version),
        Ok(new) => {
            &&& version <= CURRENT_VERSION
            &&& version == 2 ==> new == value
            &&& version < 2 ==> brought_to_version_2(value, new)
        },
    }
}

/// What raw JSON bytes come to: an up-to-date document, or what is wrong.
pub open spec fn is_read(bytes: Seq<u8>, r: Result<Json, SchemaError>) -> bool {
    match json_read(bytes) {
        Err(e) => r matches Err(err) && err@ == SchemaErrorView::Parse(e),
        Ok(value) => is_migrated(value, r),
    }
}

/// The bytes hold no document, or one that can be brought up to date.
pub open spec fn can_read(bytes: Seq<u8>) -> bool {
    json_read(bytes) matches Ok(value) ==> can_migrate(value, version_of(value))
}

/// Read raw JSON bytes, applying any necessary migrations.
pub fn deserialise_and_migrate(bytes: &[u8]) -> (r: Result<Json, SchemaError>)
    requires
        can_read(bytes@),
    ensures
        is_read(bytes@, r),
{
    match parse_document(bytes) {
        Err(e) => Err(e),
        Ok(value) => {
            let version = document_version(&value);
            migrate(value, version)
        },
    }
}

/// Whether a document can be brought up to date.
pub fn is_migratable(value: &Json) -> (r: bool)
    ensures
        r == can_migrate(*value, version_of(*value)),
{
    let version = document_version(value);
    version >= 2 || match value {
        Json::Object(_) => true,
        Json::Null => true,
        _ => false,
    }
}

/// Read raw JSON bytes, whatever they hold. There is no answer for a document
/// of an earlier version that is neither an object nor null.
pub fn read_document(bytes: &[u8]) -> (r: Option<Result<Json, SchemaError>>)
    ensures
        match r {
            Some(result) => can_read(bytes@) && is_read(bytes@, result),
            None => !can_read(bytes@),
        },
{
    match parse_document(bytes) {
        Err(e) => Some(Err(e)),
        Ok(value) => {
            if is_migratable(&value) {
                Some(deserialise_and_migrate(bytes))
            } else {
                None
            }
        },
    }
}

/// A document that was brought up to date has the current version.
pub proof fn migrated_documents_are_current(value: Json, r: Result<Json, SchemaError>)
    requires
        is_migrated(value, r),
        r is Ok,
    ensures
        version_of(r->Ok_0) == CURRENT_VERSION,
{
}

/// Bringing a document up to date again leaves it as it is.
pub proof fn migration_happens_once(
    value: Json,
    once: Result<Json, SchemaError>,
    twice: Result<Json, SchemaError>,
)
    requires
        is_migrated(value, once),
        once is Ok,
        is_migrated(once->Ok_0, twice),
    ensures
        twice == once,
{
    migrated_documents_are_current(value, once);
}

} // verus!
