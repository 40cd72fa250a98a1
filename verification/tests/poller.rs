use chrono::TimeZone;
use waiting_for_a_signal::board::{col_width, pad};
use waiting_for_a_signal::clock::{NaiveTime, Timestamp, Weekday};
use waiting_for_a_signal::darwin::Service;
use waiting_for_a_signal::domain::{Channel, Schedule, Subscription, TimeWindow, User, UserKey};
use waiting_for_a_signal::poller::diff::{diff, format_digest, ChangeKind, ServiceSnapshot};
use waiting_for_a_signal::poller::window::truncate_to_display_window;
use waiting_for_a_signal::poller::machine::{Action, Event, Machine};
use waiting_for_a_signal::poller::{
    add_services, remove_expired, view_for, Cycle, Poller, Watcher,
};
use waiting_for_a_signal::stations::StationIndex;
use waiting_for_a_signal::table::TextMap;

fn utc(y: i32, mo: u32, d: u32, h: u32, m: u32) -> Timestamp {
    let t = chrono::Utc.with_ymd_and_hms(y, mo, d, h, m, 0).unwrap();
    Timestamp { secs: t.timestamp(), nanos: 0 }
}

fn snap(
    id: &str,
    origin: &str,
    dest_crs: &str,
    dest_name: &str,
    etd: &str,
    platform: Option<&str>,
    cancelled: bool,
) -> ServiceSnapshot {
    ServiceSnapshot {
        service_id: id.to_string(),
        origin_crs: origin.to_string(),
        std: "12:00".to_string(),
        etd: etd.to_string(),
        platform: platform.map(str::to_string),
        destination_crs: dest_crs.to_string(),
        destination_name: dest_name.to_string(),
        is_cancelled: cancelled,
        cancel_reason: None,
        delay_reason: None,
        calling_point_crs: Vec::new(),
    }
}

fn wat_snap(id: &str, etd: &str, platform: Option<&str>, cancelled: bool) -> ServiceSnapshot {
    snap(id, "WAT", "RDG", "Reading", etd, platform, cancelled)
}

fn map(snaps: Vec<ServiceSnapshot>) -> TextMap<ServiceSnapshot> {
    let mut m = TextMap::new();
    for s in snaps {
        m.insert(s.service_id.clone(), s);
    }
    m
}

fn names(list: &[(&str, &str)]) -> TextMap<String> {
    let mut m = TextMap::new();
    for (crs, name) in list {
        m.insert(crs.to_string(), name.to_string());
    }
    m
}

#[test]
fn no_changes_when_identical() {
    let old = map(vec![wat_snap("A", "On time", Some("4"), false)]);
    let new = map(vec![wat_snap("A", "On time", Some("4"), false)]);
    assert!(diff(Some(&old), &new).is_empty());
}

#[test]
fn detects_new_service() {
    let old = map(vec![]);
    let new = map(vec![wat_snap("A", "On time", None, false)]);
    let changes = diff(Some(&old), &new);
    assert_eq!(changes.len(), 1);
    assert!(matches!(changes[0].kind, ChangeKind::NewService));
}

#[test]
fn detects_cancellation() {
    let old = map(vec![wat_snap("A", "On time", Some("4"), false)]);
    let new = map(vec![wat_snap("A", "Cancelled", Some("4"), true)]);
    let changes = diff(Some(&old), &new);
    assert!(changes.iter().any(|c| matches!(c.kind, ChangeKind::Cancelled)));
}

#[test]
fn detects_platform_change() {
    let old = map(vec![wat_snap("A", "On time", Some("4"), false)]);
    let new = map(vec![wat_snap("A", "On time", Some("9"), false)]);
    let changes = diff(Some(&old), &new);
    assert!(changes.iter().any(|c| matches!(c.kind, ChangeKind::PlatformChanged)));
}

#[test]
fn detects_delay() {
    let old = map(vec![wat_snap("A", "On time", Some("4"), false)]);
    let new = map(vec![wat_snap("A", "12:15", Some("4"), false)]);
    let changes = diff(Some(&old), &new);
    assert!(changes.iter().any(|c| matches!(c.kind, ChangeKind::DelayChanged)));
}

#[test]
fn every_kind_of_change_in_order() {
    let old = map(vec![wat_snap("A", "On time", Some("4"), false)]);
    let mut s = wat_snap("A", "Cancelled", None, true);
    s.std = "12:01".to_string();
    s.cancel_reason = Some("a train fault".to_string());
    let changes = diff(Some(&old), &map(vec![s]));
    let kinds: Vec<ChangeKind> = changes.iter().map(|c| c.kind).collect();
    assert_eq!(
        kinds,
        vec![
            ChangeKind::StdChanged,
            ChangeKind::Cancelled,
            ChangeKind::PlatformChanged,
            ChangeKind::ReasonChanged
        ]
    );
}

#[test]
fn reason_of_cancellation_comes_first() {
    let mut a = wat_snap("A", "x", None, true);
    a.cancel_reason = Some("r".to_string());
    a.delay_reason = Some("one".to_string());
    let mut b = wat_snap("A", "x", None, true);
    b.cancel_reason = Some("r".to_string());
    b.delay_reason = Some("two".to_string());
    assert!(diff(Some(&map(vec![a])), &map(vec![b])).is_empty());
}

#[test]
fn without_a_past_every_service_is_new() {
    let new = map(vec![wat_snap("A", "On time", None, false), wat_snap("B", "12:05", None, false)]);
    let changes = diff(None, &new);
    assert_eq!(changes.len(), 2);
    assert_eq!(changes[1].snapshot.service_id, "B");
    assert!(changes.iter().all(|c| c.kind == ChangeKind::NewService));
}

fn snapshot(
    id: &str,
    std: &str,
    etd: &str,
    platform: &str,
    dest: (&str, &str),
    calls: &[&str],
) -> ServiceSnapshot {
    ServiceSnapshot {
        service_id: id.to_string(),
        origin_crs: "WAT".to_string(),
        std: std.to_string(),
        etd: etd.to_string(),
        platform: Some(platform.to_string()),
        destination_crs: dest.1.to_string(),
        destination_name: dest.0.to_string(),
        is_cancelled: false,
        cancel_reason: None,
        delay_reason: None,
        calling_point_crs: calls.iter().map(|c| c.to_string()).collect(),
    }
}

#[test]
fn digest_formats_on_time_service() {
    let snapshots = map(vec![snapshot("A", "09:00", "On time", "3", ("Reading", "RDG"), &[])]);
    let sub = Subscription::new("WAT".to_string(), vec![], None);
    let text = format_digest(
        &vec![sub],
        &snapshots,
        &vec![],
        "09:01",
        &names(&[("WAT", "Waterloo")]),
        &Channel::Telegram,
    )
    .expect("should produce a digest");
    assert!(text.contains("09:01"), "should include time");
    assert!(text.contains("WAT"), "should include CRS");
    assert!(text.contains("Reading"), "should include destination");
    assert!(text.contains("On time"), "should include status");
    assert!(text.contains("Pl 3"), "should include platform");
}

#[test]
fn digest_shows_stop_count_for_destination_filter() {
    let snapshots = map(vec![snapshot(
        "A",
        "09:00",
        "On time",
        "3",
        ("Reading", "RDG"),
        &["WOK", "BAS", "RDG"],
    )]);
    let sub = Subscription::new("WAT".to_string(), vec!["RDG".to_string()], None);
    let text = format_digest(
        &vec![sub],
        &snapshots,
        &vec![],
        "09:01",
        &names(&[("WAT", "Waterloo")]),
        &Channel::Telegram,
    )
    .expect("should produce a digest");
    // RDG is at index 2 in calling_point_crs: 3 stops (including destination)
    assert!(text.contains("Reading 3"), "should include stop count");
}

#[test]
fn digest_omits_stop_count_without_destination_filter() {
    let snapshots = map(vec![snapshot(
        "A",
        "09:00",
        "On time",
        "3",
        ("Reading", "RDG"),
        &["WOK", "RDG"],
    )]);
    let sub = Subscription::new("WAT".to_string(), vec![], None);
    let text = format_digest(
        &vec![sub],
        &snapshots,
        &vec![],
        "09:01",
        &names(&[]),
        &Channel::Telegram,
    )
    .expect("should produce a digest");
    assert!(text.contains("Reading"), "should include destination name");
    assert!(!text.contains("Reading 1"), "should not include stop count");
}

#[test]
fn digest_returns_none_when_no_snapshots() {
    let sub = Subscription::new("WAT".to_string(), vec![], None);
    assert!(format_digest(
        &vec![sub],
        &map(vec![]),
        &vec![],
        "10:00",
        &names(&[]),
        &Channel::Telegram
    )
    .is_none());
}

#[test]
fn digest_marks_changed_rows() {
    let snapshots = map(vec![
        snapshot("A", "09:00", "On time", "1", ("Reading", "RDG"), &[]),
        snapshot("B", "09:10", "09:25", "2", ("Guildford", "GLD"), &[]),
    ]);
    // Service B changed (delayed); service A did not.
    let changed_ids = vec!["B".to_string()];
    let sub = Subscription::new("WAT".to_string(), vec![], None);
    let text = format_digest(
        &vec![sub],
        &snapshots,
        &changed_ids,
        "09:05",
        &names(&[]),
        &Channel::Telegram,
    )
    .expect("should produce digest");

    // The Guildford row (B, changed) must have the marker.
    let guildford_line = text.lines().find(|l| l.contains("Guildford")).expect("Guildford row");
    assert!(guildford_line.contains('*'), "changed row should have * marker");

    // The Reading row (A, unchanged) must NOT have the marker.
    let reading_line = text.lines().find(|l| l.contains("Reading")).expect("Reading row");
    assert!(!reading_line.contains('*'), "unchanged row should not have * marker");
}

#[test]
fn digest_for_telegram_word_for_word() {
    let mut late = snapshot("B", "09:10", "09:25", "2", ("Guildford", "GLD"), &[]);
    late.delay_reason = Some("signals & points".to_string());
    let mut off = snapshot("C", "09:05", "Cancelled", "9", ("Ash", "ASH"), &[]);
    off.is_cancelled = true;
    off.platform = None;
    let snapshots = map(vec![
        late,
        snapshot("A", "09:00", "09:00", "1", ("Reading", "RDG"), &[]),
        off,
    ]);
    let sub = Subscription::new("WAT".to_string(), vec![], None);
    let text = format_digest(
        &vec![sub],
        &snapshots,
        &vec!["B".to_string()],
        "09:01",
        &names(&[("WAT", "Waterloo <main>")]),
        &Channel::Telegram,
    )
    .unwrap();
    assert_eq!(
        text,
        "<b>Waterloo &lt;main&gt; (WAT) 09:01</b>\n<pre>  09:00 Reading   On time                        Pl 1\n  09:05 Ash       Cancelled \u{2014} reason unknown     Pl TBC\n* 09:10 Guildford exp 09:25 \u{2014} signals &amp; points   Pl 2</pre>"
    );
}

#[test]
fn digest_for_sms_word_for_word() {
    let mut off = snapshot("C", "09:05", "Cancelled", "9", ("Ash", "ASH"), &[]);
    off.is_cancelled = true;
    off.cancel_reason = Some("a train fault".to_string());
    off.platform = None;
    let snapshots = map(vec![
        off,
        snapshot("A", "09:00", "On time", "1", ("Reading", "RDG"), &[]),
    ]);
    let sub = Subscription::new("WAT".to_string(), vec![], None);
    let text = format_digest(
        &vec![sub],
        &snapshots,
        &vec!["A".to_string()],
        "09:01",
        &names(&[]),
        &Channel::Twilio,
    )
    .unwrap();
    assert_eq!(
        text,
        "WAT (WAT) 09:01\n* 09:00 Reading On time P1\n  09:05 Ash Cancelled \u{2014} a train fault --"
    );
}

#[test]
fn digest_with_several_stations() {
    let mut other = snapshot("B", "08:00", "On time", "2", ("York", "YRK"), &[]);
    other.origin_crs = "KGX".to_string();
    let snapshots = map(vec![
        other,
        snapshot("A", "09:00", "On time", "1", ("Reading", "RDG"), &[]),
    ]);
    let subs = vec![
        Subscription::new("WAT".to_string(), vec![], None),
        Subscription::new("PAD".to_string(), vec![], None),
        Subscription::new("KGX".to_string(), vec![], None),
        Subscription::new("WAT".to_string(), vec!["RDG".to_string()], None),
    ];
    let n = names(&[("KGX", "Kings Cross")]);
    let html =
        format_digest(&subs, &snapshots, &vec![], "09:01", &n, &Channel::Telegram).unwrap();
    assert_eq!(
        html,
        "<b>Departures 09:01</b>\n\n<b>WAT (WAT)</b>\n<pre>  09:00 Reading On time Pl 1</pre>\n\n<b>Kings Cross (KGX)</b>\n<pre>  08:00 York On time Pl 2</pre>"
    );
    let plain = format_digest(&subs, &snapshots, &vec![], "09:01", &n, &Channel::Twilio).unwrap();
    assert_eq!(
        plain,
        "Departures 09:01\nWAT (WAT):\n  09:00 Reading On time P1\nKings Cross (KGX):\n  08:00 York On time P2"
    );
}

#[test]
fn column_width_ignores_outliers() {
    assert_eq!(col_width(&vec![]), 0);
    assert_eq!(col_width(&vec![7]), 7);
    assert_eq!(col_width(&vec![5, 6, 7, 100]), 7);
    assert_eq!(col_width(&vec![5, 6, 24]), 6);
    assert_eq!(col_width(&vec![5, 6, 22]), 22);
    assert_eq!(col_width(&vec![usize::MAX, usize::MAX]), usize::MAX);
}

#[test]
fn padding_counts_characters() {
    assert_eq!(pad("ab", 4), "ab  ");
    assert_eq!(pad("\u{e9}\u{e9}", 3), "\u{e9}\u{e9} ");
    assert_eq!(pad("abc", 2), "abc");
}

fn many(n: usize) -> TextMap<ServiceSnapshot> {
    let mut list = Vec::new();
    for i in 0..n {
        let std = format!("{:02}:00", (n - 1 - i) % 24);
        list.push(snapshot(&format!("S{i}"), &std, "On time", "1", ("Reading", "RDG"), &[]));
    }
    map(list)
}

#[test]
fn window_keeps_the_first_by_time() {
    let w = truncate_to_display_window(many(12), 10);
    assert_eq!(w.len(), 10);
    assert!(w.get("S11").is_some());
    assert!(w.get("S2").is_some());
    assert!(w.get("S1").is_none());
    assert!(w.get("S0").is_none());
}

#[test]
fn digest_shows_what_the_window_keeps() {
    let sub = || vec![Subscription::new("WAT".to_string(), vec![], None)];
    let whole =
        format_digest(&sub(), &many(14), &vec![], "09:01", &names(&[]), &Channel::Telegram);
    let cut = format_digest(
        &sub(),
        &truncate_to_display_window(many(14), 10),
        &vec![],
        "09:01",
        &names(&[]),
        &Channel::Telegram,
    );
    assert!(whole.is_some());
    assert_eq!(whole, cut);
}

fn service(id: &str, origin: &str, std: &str, dest: &str) -> Service {
    Service {
        service_id: id.to_string(),
        origin_crs: origin.to_string(),
        std: std.to_string(),
        etd: "On time".to_string(),
        platform: None,
        destination_crs: dest.to_string(),
        destination_name: dest.to_string(),
        is_cancelled: false,
        cancel_reason: None,
        delay_reason: None,
        calling_point_crs: vec!["WOK".to_string()],
    }
}

fn user_with(id: i64, subs: Vec<Subscription>) -> User {
    let mut u = User::created(UserKey::telegram(id), utc(2024, 1, 1, 0, 0));
    u.subscriptions = subs;
    u
}

fn sub(origin: &str, dests: &[&str]) -> Subscription {
    Subscription::new(origin.to_string(), dests.iter().map(|d| d.to_string()).collect(), None)
}

#[test]
fn cycle_collects_each_board_once() {
    let users = vec![
        user_with(1, vec![sub("WAT", &["RDG", "WOK"]), sub("PAD", &[])]),
        user_with(2, vec![sub("WAT", &["WOK"]), sub("WAT", &[])]),
        user_with(3, vec![]),
    ];
    let now = utc(2024, 5, 15, 6, 30);
    let c = Cycle::collect(&users, now, true);
    let calls: Vec<(String, Option<String>)> =
        c.calls.iter().map(|k| (k.origin_crs.clone(), k.destination.clone())).collect();
    assert_eq!(
        calls,
        vec![
            ("WAT".to_string(), Some("RDG".to_string())),
            ("WAT".to_string(), Some("WOK".to_string())),
            ("PAD".to_string(), None),
            ("WAT".to_string(), None),
        ]
    );
    assert_eq!(c.watchers.len(), 2);
    let d = Cycle::collect(&users, now, false);
    assert_eq!(d.calls.len(), 2);
}

#[test]
fn cycle_skips_paused_users_and_inactive_subscriptions() {
    let mut paused = user_with(1, vec![sub("WAT", &[])]);
    paused.notifications_paused = true;
    let mut off = sub("WAT", &[]);
    off.schedule = Some(Schedule {
        days: vec![Weekday::Sun],
        windows: vec![TimeWindow::new(
            NaiveTime::from_hms_opt(7, 0, 0).unwrap(),
            NaiveTime::from_hms_opt(8, 0, 0).unwrap(),
        )],
    });
    let users = vec![paused, user_with(2, vec![off])];
    let c = Cycle::collect(&users, utc(2024, 5, 15, 6, 30), true);
    assert!(c.watchers.is_empty());
    assert!(c.calls.is_empty());
}

#[test]
fn expired_subscriptions_are_removed_with_a_notice() {
    let now = utc(2024, 5, 1, 12, 0);
    let mut gone = sub("WAT", &["RDG", "WOK"]);
    gone.expires_at = Some(now);
    let mut stays = sub("PAD", &[]);
    stays.expires_at = Some(utc(2024, 5, 1, 12, 1));
    let mut user = user_with(1, vec![gone.clone(), stays, sub("KGX", &[])]);
    assert_eq!(
        remove_expired(&mut user, now),
        Some("Subscription has expired and been automatically removed:\n\u{2022} <code>WAT</code> \u{2192} <code>RDG, WOK</code>\n\nUse <code>/sub</code> to subscribe again.".to_string())
    );
    let left: Vec<&str> = user.subscriptions.iter().map(|s| s.origin_crs.as_str()).collect();
    assert_eq!(left, vec!["PAD", "KGX"]);
    assert_eq!(remove_expired(&mut user, now), None);

    let mut other = sub("A<B", &[]);
    other.expires_at = Some(now);
    let mut two = user_with(2, vec![gone, other]);
    assert_eq!(
        remove_expired(&mut two, now),
        Some("Subscriptions have expired and been automatically removed:\n\u{2022} <code>WAT</code> \u{2192} <code>RDG, WOK</code>\n\u{2022} <code>A&lt;B</code> \u{2192} all destinations\n\nUse <code>/sub</code> to subscribe again.".to_string())
    );
    assert!(two.subscriptions.is_empty());
}

#[test]
fn services_are_merged_by_id() {
    let mut m = TextMap::new();
    assert!(m.is_empty());
    add_services(&mut m, &vec![service("A", "WAT", "09:00", "RDG"), service("B", "WAT", "09:05", "WOK")]);
    add_services(&mut m, &vec![service("A", "WAT", "09:01", "RDG")]);
    assert_eq!(m.len(), 2);
    assert_eq!(m.get("A").unwrap().std, "09:01");
}

#[test]
fn view_holds_what_the_user_wants() {
    let mut m = TextMap::new();
    add_services(
        &mut m,
        &vec![
            service("A", "WAT", "09:00", "RDG"),
            service("B", "PAD", "09:05", "WOK"),
            service("C", "WAT", "09:10", "GLD"),
        ],
    );
    let v = view_for(&m, &vec![sub("WAT", &["GLD"])]);
    assert_eq!(v.len(), 1);
    assert!(v.get("C").is_some());
    // All of them call at Woking.
    assert_eq!(view_for(&m, &vec![sub("WAT", &["WOK"])]).len(), 2);
    assert_eq!(view_for(&m, &vec![sub("WAT", &[]), sub("PAD", &[])]).len(), 3);
}

fn stations() -> StationIndex {
    StationIndex::load("crs,station_name\nWAT,London Waterloo\n")
}

#[test]
fn a_delivered_message_is_not_repeated() {
    let mut m = TextMap::new();
    add_services(&mut m, &vec![service("A", "WAT", "09:00", "RDG")]);
    let watcher = Watcher { key: UserKey::telegram(1), subscriptions: vec![sub("WAT", &[])] };
    let mut p = Poller::new();
    let n = p.notify(&watcher, &m, "09:01", &stations()).expect("first board");
    assert!(n.text.starts_with("<b>London Waterloo (WAT) 09:01</b>\n<pre>* 09:00 RDG"));
    p.sent(UserKey::telegram(1), n.board, false);
    let again = p.notify(&watcher, &m, "09:02", &stations()).expect("not delivered yet");
    p.sent(UserKey::telegram(1), again.board, true);
    assert!(p.notify(&watcher, &m, "09:03", &stations()).is_none());
    // Another user has seen nothing.
    let other = Watcher { key: UserKey::telegram(2), subscriptions: vec![sub("WAT", &[])] };
    assert!(p.notify(&other, &m, "09:03", &stations()).is_some());
    // A change is told, marked on its row.
    add_services(&mut m, &vec![service("B", "WAT", "09:30", "WOK")]);
    let change = p.notify(&watcher, &m, "09:04", &stations()).expect("change");
    assert!(change.text.contains("* 09:30"));
    assert!(change.text.contains("  09:00"));
    p.sent(UserKey::telegram(1), change.board, true);
    // Forgotten users get a fresh board.
    p.forget(&UserKey::telegram(1));
    assert!(p.notify(&watcher, &m, "09:05", &stations()).is_some());
}

fn boards() -> Vec<Service> {
    vec![service("A", "WAT", "09:00", "RDG"), service("B", "PAD", "09:05", "OXF")]
}

#[test]
fn a_cycle_from_waking_to_sleeping() {
    let st = stations();
    let now = utc(2024, 7, 1, 8, 5);
    let mut gone = sub("KGX", &[]);
    gone.expires_at = Some(now);
    let users = vec![
        user_with(1, vec![sub("WAT", &[])]),
        user_with(2, vec![gone, sub("PAD", &[])]),
        user_with(3, vec![sub("EDB", &[])]),
    ];
    let m = Machine::new();
    let (m, a) = m.step(Event::Woken { now, users: users.clone() }, &st, true);
    assert!(matches!(&a, Action::Expire { key, .. } if key.is(&UserKey::telegram(1))));
    let (m, a) = m.step(Event::Expired { notice: None }, &st, true);
    assert!(matches!(&a, Action::Expire { key, .. } if key.is(&UserKey::telegram(2))));
    let (m, a) = m.step(Event::Expired { notice: Some("gone".to_string()) }, &st, true);
    assert!(
        matches!(&a, Action::SaveAndSend { key, text } if key.is(&UserKey::telegram(2)) && text == "gone")
    );
    let (m, a) = m.step(Event::Sent { delivered: false }, &st, true);
    assert!(matches!(&a, Action::Expire { key, .. } if key.is(&UserKey::telegram(3))));
    let (m, a) = m.step(Event::Expired { notice: None }, &st, true);
    match &a {
        Action::Fetch { calls } => {
            let codes: Vec<&str> = calls.iter().map(|c| c.origin_crs.as_str()).collect();
            assert_eq!(codes, vec!["WAT", "KGX", "PAD", "EDB"]);
        }
        _ => panic!("expected a fetch"),
    }
    let (m, a) = m.step(Event::Fetched { services: boards() }, &st, true);
    // The time of the messages is London time.
    assert!(
        matches!(&a, Action::Send { key, text } if key.is(&UserKey::telegram(1)) && text.starts_with("<b>London Waterloo (WAT) 09:05</b>"))
    );
    let (m, a) = m.step(Event::Sent { delivered: true }, &st, true);
    assert!(matches!(&a, Action::Send { key, .. } if key.is(&UserKey::telegram(2))));
    let (m, a) = m.step(Event::Sent { delivered: false }, &st, true);
    assert!(matches!(a, Action::Sleep { flush: true }));

    // In the next cycle only the user whose message was lost is told again.
    let (mut m, mut a) = m.step(Event::Woken { now, users }, &st, true);
    while matches!(a, Action::Expire { .. }) {
        let (n, b) = m.step(Event::Expired { notice: None }, &st, true);
        m = n;
        a = b;
    }
    assert!(matches!(a, Action::Fetch { .. }));
    let (m, a) = m.step(Event::Fetched { services: boards() }, &st, true);
    assert!(matches!(&a, Action::Send { key, .. } if key.is(&UserKey::telegram(2))));
    let (_, a) = m.step(Event::Sent { delivered: true }, &st, true);
    assert!(matches!(a, Action::Sleep { flush: true }));
}

#[test]
fn cycles_without_work() {
    let st = stations();
    let now = utc(2024, 7, 1, 8, 5);
    let (m, a) = Machine::new().step(Event::Woken { now, users: vec![] }, &st, true);
    assert!(matches!(a, Action::Sleep { flush: true }));
    let users = vec![user_with(1, vec![sub("WAT", &[])])];
    let (m, _) = m.step(Event::Woken { now, users }, &st, true);
    let (m, a) = m.step(Event::Expired { notice: None }, &st, true);
    assert!(matches!(a, Action::Fetch { .. }));
    let (_, a) = m.step(Event::Fetched { services: vec![] }, &st, true);
    assert!(matches!(a, Action::Sleep { flush: false }));
}
