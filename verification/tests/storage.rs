use waiting_for_a_signal::clock::Timestamp;
use waiting_for_a_signal::domain::{User, UserKey};
use waiting_for_a_signal::storage::file::{is_user_file, tmp_file_name, user_file_name};
use waiting_for_a_signal::storage::schema::{
    deserialise_and_migrate, document_version, migrate, read_document, Json, SchemaError,
    CURRENT_VERSION,
};
use waiting_for_a_signal::storage::UserStore;

fn field<'a>(v: &'a Json, key: &str) -> &'a Json {
    match v {
        Json::Object(entries) => {
            &entries.iter().find(|(k, _)| k == key).unwrap_or_else(|| panic!("no {key}")).1
        }
        other => panic!("not an object: {other:?}"),
    }
}

fn text(v: &Json) -> &str {
    match v {
        Json::Text(s) => s,
        other => panic!("not a text: {other:?}"),
    }
}

fn number(v: &Json) -> u64 {
    match v {
        Json::Number(n) => n.unsigned.expect("whole"),
        other => panic!("not a number: {other:?}"),
    }
}

fn item(v: &Json, i: usize) -> &Json {
    match v {
        Json::Array(items) => &items[i],
        other => panic!("not an array: {other:?}"),
    }
}

#[test]
fn current_version_roundtrips() {
    let user = User::new(UserKey::telegram(1));
    let json = format!(
        r#"{{"version":{},"channel":"{}","channel_user_id":"{}","created_at":"2024-01-01T00:00:00Z","notifications_paused":false,"subscriptions":[]}}"#,
        user.version,
        user.key.channel.as_str(),
        user.key.channel_user_id
    );
    let loaded = deserialise_and_migrate(json.as_bytes()).expect("deserialise");
    assert_eq!(text(field(&loaded, "channel")), user.key.channel.as_str());
    assert_eq!(text(field(&loaded, "channel_user_id")), user.key.channel_user_id);
    assert_eq!(number(field(&loaded, "version")), CURRENT_VERSION as u64);
}

#[test]
fn unknown_version_errors() {
    let json = r#"{
        "version": 999,
        "channel": "telegram",
        "channel_user_id": "1",
        "created_at": "2024-01-01T00:00:00Z",
        "notifications_paused": false,
        "subscriptions": []
    }"#;
    assert!(deserialise_and_migrate(json.as_bytes()).is_err());
}

#[test]
fn v1_to_v2_backfills_display_ids() {
    let json = r#"{
        "version": 1,
        "channel": "telegram",
        "channel_user_id": "1",
        "created_at": "2024-01-01T00:00:00Z",
        "notifications_paused": false,
        "subscriptions": [
            {
                "id": "01HZ0000000000000000000000",
                "origin_crs": "WAT",
                "destination_filter": [],
                "schedule": null,
                "created_at": "2024-01-01T00:00:00Z"
            },
            {
                "id": "01HZ0000000000000000000001",
                "origin_crs": "SUR",
                "destination_filter": ["WAT"],
                "schedule": null,
                "created_at": "2024-01-01T00:00:01Z"
            }
        ]
    }"#;
    let user = deserialise_and_migrate(json.as_bytes()).expect("migrate");
    let subs = field(&user, "subscriptions");
    assert_eq!(text(field(item(subs, 0), "display_id")), "01");
    assert_eq!(text(field(item(subs, 1), "display_id")), "02");
    assert_eq!(number(field(&user, "version")), 2);
    // Nothing else changed.
    assert_eq!(text(field(item(subs, 1), "origin_crs")), "SUR");
    assert_eq!(text(item(field(item(subs, 1), "destination_filter"), 0)), "WAT");
    assert_eq!(text(field(&user, "channel_user_id")), "1");
}

#[test]
fn migration_error_in_words() {
    match deserialise_and_migrate(br#"{"version": 3}"#) {
        Err(e) => assert_eq!(
            e.text(),
            "File has schema version 3 but this binary only knows up to 2. Please upgrade the bot."
        ),
        Ok(_) => panic!("should be refused"),
    }
    match deserialise_and_migrate(b"{") {
        Err(SchemaError::Parse(e)) => assert!(e.contains("EOF")),
        other => panic!("should be refused: {other:?}"),
    }
}

#[test]
fn migration_leaves_current_documents_alone() {
    let json = br#"{"version": 2, "subscriptions": [{"id": "x", "display_id": "07"}, 5]}"#;
    let once = deserialise_and_migrate(json).expect("ok");
    assert_eq!(text(field(item(field(&once, "subscriptions"), 0), "display_id")), "07");
    let twice = migrate(once, 2).expect("ok");
    assert_eq!(document_version(&twice), 2);
}

#[test]
fn migration_of_odd_documents() {
    let null = deserialise_and_migrate(b"null").expect("ok");
    assert_eq!(document_version(&null), 2);
    let odd = deserialise_and_migrate(br#"{"subscriptions": [1, {"display_id": 3}], "version": -1}"#)
        .expect("ok");
    let subs = field(&odd, "subscriptions");
    assert_eq!(number(item(subs, 0)), 1);
    assert_eq!(text(field(item(subs, 1), "display_id")), "02");
    assert!(read_document(b"[1]").is_none());
    assert!(read_document(b"{}").is_some());
    assert!(matches!(read_document(b"x"), Some(Err(SchemaError::Parse(_)))));
}

#[test]
fn users_are_created_once() {
    let mut store = UserStore::new();
    let (i, new) = store.get_or_create_new(UserKey::telegram(1));
    assert!(new);
    let (j, again) = store.get_or_create_new(UserKey::telegram(1));
    assert!(!again);
    assert_eq!(i, j);
    assert_eq!(store.get_or_create(UserKey::twilio("+1")), 1);
    assert_eq!(store.all_users().len(), 2);
    let now = Timestamp { secs: 5, nanos: 0 };
    let (k, third) = store.get_or_create_at(UserKey::telegram(2), now);
    assert!(third);
    assert_eq!(store.users.entries[k].1.created_at, now);
}

#[test]
fn loaded_users_replace_earlier_ones() {
    let mut store = UserStore::new();
    store.load(User::new(UserKey::telegram(1)));
    let mut u = User::new(UserKey::telegram(1));
    u.notifications_paused = true;
    store.load(u);
    let all = store.all_users();
    assert_eq!(all.len(), 1);
    assert!(all[0].notifications_paused);
}

#[test]
fn file_names() {
    let key = UserKey::telegram(42);
    assert_eq!(user_file_name(&key), "telegram-42.json");
    let tmp = tmp_file_name(&key);
    assert!(tmp.starts_with("telegram-42.json.tmp."));
    assert_ne!(tmp, tmp_file_name(&key));
    assert!(is_user_file(&user_file_name(&key)));
    assert!(!is_user_file(&tmp));
}

#[test]
fn extensions() {
    assert!(is_user_file("a.b.json"));
    assert!(!is_user_file(".json"));
    assert!(!is_user_file("json"));
    assert!(!is_user_file("a.JSON"));
    assert!(!is_user_file("a.json."));
    assert!(!is_user_file(""));
}
