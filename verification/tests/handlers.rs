use chrono::TimeZone;
use waiting_for_a_signal::clock::{NaiveTime, Timestamp, Weekday};
use waiting_for_a_signal::darwin::{DarwinError, Service};
use waiting_for_a_signal::domain::{Channel, Subscription, TimeWindow, User, UserKey};
use waiting_for_a_signal::handlers::commands::{
    after_fetching, after_saving, esc, exec_clear, exec_find, exec_help, exec_kill, exec_now,
    exec_pause, exec_resume, exec_sub, exec_subs, exec_unsub, exec_watch, pause_fits, require_crs,
    sub_usage, Fresh, Step, Then,
};
use waiting_for_a_signal::handlers::departures::{show_departures, BoardQuery, Format};
use waiting_for_a_signal::handlers::parsing::{
    format_days, format_windows, parse_day, parse_days, parse_time, parse_window, parse_windows,
};
use waiting_for_a_signal::handlers::{
    handle_input, handle_input_at, handle_now, input_fits, AppState,
};
use waiting_for_a_signal::stations::StationIndex;

const ALL_DAYS: [Weekday; 7] = [
    Weekday::Mon,
    Weekday::Tue,
    Weekday::Wed,
    Weekday::Thu,
    Weekday::Fri,
    Weekday::Sat,
    Weekday::Sun,
];

fn utc(y: i32, mo: u32, d: u32, h: u32, m: u32) -> Timestamp {
    let t = chrono::Utc.with_ymd_and_hms(y, mo, d, h, m, 0).unwrap();
    Timestamp { secs: t.timestamp(), nanos: 0 }
}

fn now() -> Timestamp {
    utc(2024, 5, 15, 11, 0)
}

fn fresh(id: &str) -> Fresh {
    Fresh { now: now(), id: id.to_string() }
}

fn stations() -> StationIndex {
    StationIndex::load(
        "crs,station_name\nWAT,London Waterloo\nRDG,Reading\nWOK,Woking\nSUR,Surbiton\n",
    )
}

fn state() -> AppState {
    AppState { stations: stations(), polling_rows: 10, kill_switch_enabled: false }
}

fn user() -> User {
    User::created(UserKey::telegram(7), utc(2024, 1, 1, 0, 0))
}

fn reply(step: Step) -> String {
    match step {
        Step::Reply(text) => text,
        other => panic!("expected a reply, got {other:?}"),
    }
}

fn saved_reply(step: Step) -> String {
    match step {
        Step::Save { then: Then::Reply(text), .. } => text,
        other => panic!("expected a save with a reply, got {other:?}"),
    }
}

// ---------------------------------------------------------------------------
// Days and windows
// ---------------------------------------------------------------------------

#[test]
fn parse_days_keywords() {
    assert_eq!(parse_days("weekdays").unwrap(), ALL_DAYS[..5].to_vec());
    assert_eq!(parse_days("weekends").unwrap(), ALL_DAYS[5..].to_vec());
    assert_eq!(parse_days("daily").unwrap(), ALL_DAYS.to_vec());
}

#[test]
fn parse_days_range() {
    let days = parse_days("Mon-Fri").unwrap();
    assert_eq!(
        days,
        vec![Weekday::Mon, Weekday::Tue, Weekday::Wed, Weekday::Thu, Weekday::Fri]
    );
}

#[test]
fn parse_days_comma_list() {
    let days = parse_days("Mon,Wed,Fri").unwrap();
    assert_eq!(days, vec![Weekday::Mon, Weekday::Wed, Weekday::Fri]);
}

#[test]
fn parse_window_normal() {
    let w = parse_window("07:30-09:00").unwrap();
    assert_eq!(w.start, NaiveTime::from_hms_opt(7, 30, 0).unwrap());
    assert_eq!(w.end, NaiveTime::from_hms_opt(9, 0, 0).unwrap());
}

#[test]
fn parse_window_overnight() {
    let w = parse_window("23:00-02:00").unwrap();
    assert_eq!(w.start, NaiveTime::from_hms_opt(23, 0, 0).unwrap());
    assert_eq!(w.end, NaiveTime::from_hms_opt(2, 0, 0).unwrap());
}

#[test]
fn format_days_roundtrips() {
    assert_eq!(format_days(&ALL_DAYS[..5].to_vec()), "weekdays");
    assert_eq!(format_days(&ALL_DAYS[5..].to_vec()), "weekends");
    assert_eq!(format_days(&ALL_DAYS.to_vec()), "daily");
    assert_eq!(format_days(&vec![Weekday::Mon, Weekday::Wed]), "Mon,Wed");
}

#[test]
fn format_windows_output() {
    let w = TimeWindow::new(
        NaiveTime::from_hms_opt(7, 30, 0).unwrap(),
        NaiveTime::from_hms_opt(9, 0, 0).unwrap(),
    );
    assert_eq!(format_windows(&vec![w]), "07:30-09:00");
}

#[test]
fn days_errors_in_words() {
    assert_eq!(
        parse_day("Foo<").unwrap_err(),
        "Unknown day \"foo&lt;\" \u{2014} use Mon/Tue/\u{2026}/Sun"
    );
    assert_eq!(
        parse_days("Fri-Mon").unwrap_err(),
        "Day range Fri before Mon \u{2014} write it as Mon-Fri if that's what you meant"
    );
    assert_eq!(
        parse_days("Mon,Nope,Wat").unwrap_err(),
        "Unknown day \"nope\" \u{2014} use Mon/Tue/\u{2026}/Sun"
    );
    assert_eq!(parse_days("SUNDAY").unwrap(), vec![Weekday::Sun]);
    assert_eq!(parse_days("all").unwrap().len(), 7);
    assert_eq!(parse_days("Tue-Tue").unwrap(), vec![Weekday::Tue]);
}

#[test]
fn window_errors_in_words() {
    assert_eq!(
        parse_window("0730").unwrap_err(),
        "Invalid window \"0730\" \u{2014} expected HH:MM-HH:MM"
    );
    assert_eq!(parse_time("25:00").unwrap_err(), "Invalid time \"25:00\" \u{2014} expected HH:MM");
    assert_eq!(
        parse_window("07:30-9").unwrap_err(),
        "Invalid time \"9\" \u{2014} expected HH:MM"
    );
    assert_eq!(
        parse_windows("").unwrap_err(),
        "No time window specified \u{2014} expected HH:MM-HH:MM"
    );
    assert_eq!(parse_time(" 7:05 ").unwrap(), NaiveTime::from_hms_opt(7, 5, 0).unwrap());
}

#[test]
fn shown_windows_are_read_again() {
    let ws = parse_windows("07:30-09:00, 23:00-02:05").unwrap();
    assert_eq!(ws.len(), 2);
    let text = format_windows(&ws);
    assert_eq!(text, "07:30-09:00,23:00-02:05");
    assert_eq!(parse_windows(&text).unwrap(), ws);
}

#[test]
fn shown_days_are_read_again() {
    for days in [vec![Weekday::Sat, Weekday::Sun], vec![Weekday::Tue, Weekday::Sun]] {
        assert_eq!(parse_days(&format_days(&days)).unwrap(), days);
    }
    assert_eq!(format_days(&vec![Weekday::Sun, Weekday::Sat, Weekday::Sun]), "weekends");
    assert_eq!(format_days(&vec![]), "");
}

// ---------------------------------------------------------------------------
// Simple commands
// ---------------------------------------------------------------------------

#[test]
fn help_lists_the_commands_in_ascii() {
    let text = exec_help();
    assert!(text.is_ascii());
    assert!(text.starts_with("Available commands:\n/help - Show all commands.\n/find - "));
    assert!(text.ends_with("\n/resume - Resume notifications."));
    assert_eq!(text.lines().count(), 9);
}

#[test]
fn escaping() {
    assert_eq!(esc("a & b <c> &amp;"), "a &amp; b &lt;c&gt; &amp;amp;");
}

#[test]
fn unknown_codes_are_refused() {
    assert!(require_crs("wat", &stations()).is_ok());
    assert_eq!(
        require_crs("X<Y", &stations()).unwrap_err(),
        "<code>X&lt;Y</code> is not a recognised station code. Use <code>/find &lt;name&gt;</code> to look one up."
    );
}

#[test]
fn find_replies() {
    assert_eq!(
        exec_find("reading", &stations()),
        "Found: <b>Reading</b> \u{2014} <code>RDG</code>"
    );
    assert_eq!(
        exec_find("zzzz<", &stations()),
        "No station found matching \"zzzz&lt;\"."
    );
    assert_eq!(
        exec_find("ing", &stations()),
        "Multiple matches:\n\u{2022} Reading (RDG) \u{2014} <code>RDG</code>\n\u{2022} Woking (WOK) \u{2014} <code>WOK</code>"
    );
}

#[test]
fn kill_switch() {
    assert_eq!(reply(exec_kill(false)), "Command not available.");
    assert!(matches!(exec_kill(true), Step::Shutdown(text) if text == "Shutting down."));
}

#[test]
fn pause_and_resume() {
    let mut u = user();
    assert_eq!(
        saved_reply(exec_pause("", &mut u, now())),
        "Notifications paused. Use <code>/resume</code> to restart them."
    );
    assert!(u.is_paused_at(utc(2030, 1, 1, 0, 0)));
    assert_eq!(
        saved_reply(exec_pause(" 30 ", &mut u, now())),
        "Notifications paused for 30m (until 12:30). Use <code>/resume</code> to restart early."
    );
    assert!(u.is_paused_at(utc(2024, 5, 15, 11, 29)));
    assert!(!u.is_paused_at(utc(2024, 5, 15, 11, 30)));
    assert_eq!(saved_reply(exec_resume(&mut u)), "Notifications resumed.");
    assert!(!u.is_paused_at(now()));
    for arg in ["0", "x", "-5", "1.5"] {
        assert_eq!(
            reply(exec_pause(arg, &mut u, now())),
            "Usage: <code>/pause</code> or <code>/pause MINUTES</code>"
        );
    }
}

#[test]
fn pause_beyond_the_calendar() {
    assert!(pause_fits("30", &now()));
    assert!(!pause_fits("9223372036854775807", &now()));
    // The largest number counts as one minute back.
    assert!(pause_fits("18446744073709551615", &now()));
    let mut u = user();
    exec_pause("18446744073709551615", &mut u, now());
    assert_eq!(u.paused_until, Some(utc(2024, 5, 15, 10, 59)));
}

// ---------------------------------------------------------------------------
// Subscriptions
// ---------------------------------------------------------------------------

#[test]
fn temporary_subscription() {
    let mut u = user();
    let step = exec_sub("wat to rdg,wok", &mut u, &stations(), Format::Html, fresh("ID1"));
    let s = &u.subscriptions[0];
    assert_eq!(s.id, "ID1");
    assert_eq!(s.display_id, "01");
    assert_eq!(s.origin_crs, "WAT");
    assert_eq!(s.destination_filter, vec!["RDG", "WOK"]);
    assert_eq!(s.expires_at, Some(utc(2024, 5, 15, 11, 30)));
    assert!(s.schedule.is_none());
    let (then, failed) = match step {
        Step::Save { then, failed } => (then, failed),
        other => panic!("expected a save, got {other:?}"),
    };
    assert_eq!(failed, "Error saving subscription: ");
    match after_saving(then, &failed, Ok(()), &stations()) {
        Step::Fetch { intro, query } => {
            assert_eq!(
                intro.as_deref(),
                Some("Watching departures from <code>WAT</code> to <code>RDG, WOK</code>. Expires at 12:30 (30m).")
            );
            assert_eq!(query.origin_crs, "WAT");
            assert_eq!(query.filter_crs(), None);
            assert_eq!(
                after_fetching(intro, query, Ok(vec![])),
                "Watching departures from <code>WAT</code> to <code>RDG, WOK</code>. Expires at 12:30 (30m).\n\nNo departures found from <b>WAT</b>."
            );
        }
        other => panic!("expected a fetch, got {other:?}"),
    }
}

#[test]
fn failed_save_is_told() {
    let then = Then::Reply("ok".to_string());
    assert_eq!(
        reply(after_saving(then, "Error: ", Err("disk <full>".to_string()), &stations())),
        "Error: disk &lt;full&gt;"
    );
}

#[test]
fn watching_twice_is_refused() {
    let mut u = user();
    let none: Vec<String> = vec![];
    let dests = vec!["RDG".to_string(), "WOK".to_string()];
    let swapped = vec!["WOK".to_string(), "RDG".to_string()];
    exec_watch("WAT", &dests, &mut u, &stations(), Format::Html, fresh("A"));
    assert_eq!(
        reply(exec_watch("WAT", &swapped, &mut u, &stations(), Format::Html, fresh("B"))),
        "Already watching departures from <code>WAT</code> to those destinations."
    );
    exec_watch("WAT", &none, &mut u, &stations(), Format::Html, fresh("C"));
    assert_eq!(u.subscriptions.len(), 2);
    assert_eq!(
        reply(exec_watch("WAT", &none, &mut u, &stations(), Format::Html, fresh("D"))),
        "Already watching all departures from <code>WAT</code>."
    );
    assert_eq!(
        reply(exec_watch("WAT", &vec!["SUR".to_string()], &mut u, &stations(), Format::Html, fresh("E"))),
        "Already watching all departures from <code>WAT</code> (that already covers those destinations)."
    );
    assert_eq!(u.subscriptions.len(), 2);
}

#[test]
fn scheduled_subscription() {
    let mut u = user();
    let step = exec_sub(
        "WAT to RDG,WOK Mon-Fri 07:30-09:00 17:00-18:30",
        &mut u,
        &stations(),
        Format::Html,
        fresh("S1"),
    );
    assert_eq!(
        saved_reply(step),
        "Scheduled subscription added <code>[01]</code>:\n<code>WAT</code> \u{2192} <code>RDG</code>, <code>WOK</code> | weekdays 07:30-09:00,17:00-18:30"
    );
    let s = &u.subscriptions[0];
    assert!(s.expires_at.is_none());
    assert_eq!(s.schedule.as_ref().unwrap().windows.len(), 2);
    // A temporary subscription beside a scheduled one is allowed.
    exec_sub("WAT", &mut u, &stations(), Format::Html, fresh("S2"));
    assert_eq!(u.subscriptions.len(), 2);
    assert_eq!(u.subscriptions[1].display_id, "02");
}

#[test]
fn sub_arguments_that_make_no_sense() {
    let mut u = user();
    let st = stations();
    assert_eq!(reply(exec_sub("  ", &mut u, &st, Format::Html, fresh("X"))), sub_usage());
    assert_eq!(reply(exec_sub("WAT Mon", &mut u, &st, Format::Html, fresh("X"))), sub_usage());
    assert_eq!(
        reply(exec_sub("WAT Moon 07:00-08:00", &mut u, &st, Format::Html, fresh("X"))),
        "Unknown day \"moon\" \u{2014} use Mon/Tue/\u{2026}/Sun"
    );
    assert_eq!(
        reply(exec_sub("WAT Mon 7-8", &mut u, &st, Format::Html, fresh("X"))),
        "Invalid time \"7\" \u{2014} expected HH:MM"
    );
    assert!(reply(exec_sub("XXX", &mut u, &st, Format::Html, fresh("X")))
        .starts_with("<code>XXX</code> is not a recognised"));
    assert!(reply(exec_sub("WAT to RDG,YYY Mon 07:00-08:00", &mut u, &st, Format::Html, fresh("X")))
        .starts_with("<code>YYY</code> is not a recognised"));
    assert!(u.subscriptions.is_empty());
    // A dangling `to` is no filter.
    exec_sub("WAT to", &mut u, &st, Format::Html, fresh("X"));
    assert!(u.subscriptions[0].destination_filter.is_empty());
}

#[test]
fn no_more_than_ninety_nine_subscriptions() {
    let mut u = user();
    for i in 0..99 {
        exec_sub("WAT daily 07:00-08:00", &mut u, &stations(), Format::Html, fresh(&format!("I{i}")));
    }
    assert_eq!(u.subscriptions.len(), 99);
    assert_eq!(
        reply(exec_sub("WAT daily 07:00-08:00", &mut u, &stations(), Format::Html, fresh("Z"))),
        "You have reached the maximum number of subscriptions (99)."
    );
    assert_eq!(
        reply(exec_sub("RDG", &mut u, &stations(), Format::Html, fresh("T"))),
        "You have reached the maximum number of subscriptions (99)."
    );
    assert_eq!(u.subscriptions.len(), 99);
    // A number that is given back can be taken again, by either kind.
    exec_unsub("42", &mut u);
    exec_sub("RDG", &mut u, &stations(), Format::Html, fresh("T"));
    assert_eq!(u.subscriptions[98].display_id, "42");
}

#[test]
fn list_of_subscriptions() {
    let mut u = user();
    assert_eq!(
        exec_subs(&u, now()),
        "You have no active subscriptions. Use <code>/sub CRS</code> to subscribe."
    );
    exec_sub("WAT to RDG", &mut u, &stations(), Format::Html, fresh("A"));
    exec_sub("RDG weekends 10:00-12:00", &mut u, &stations(), Format::Html, fresh("B"));
    assert_eq!(
        exec_subs(&u, utc(2024, 5, 15, 11, 10)),
        "Your subscriptions:\n\u{2022} <code>WAT</code> \u{2192} RDG<code>[01]</code> | expires 12:30 (20m)\n\u{2022} <code>RDG</code> \u{2192} all destinations<code>[02]</code> | weekends 10:00-12:00\n\nUse <code>/unsub ID</code> to remove one, or <code>/unsub all</code> to remove all."
    );
    // A deadline that has passed leaves no minutes.
    assert!(exec_subs(&u, utc(2024, 5, 15, 13, 0)).contains("(0m)"));
}

#[test]
fn unsubscribing() {
    let mut u = user();
    exec_sub("WAT to RDG", &mut u, &stations(), Format::Html, fresh("A"));
    exec_sub("RDG", &mut u, &stations(), Format::Html, fresh("B"));
    assert_eq!(
        reply(exec_unsub(" ", &mut u)),
        "Usage: <code>/unsub ID</code> or <code>/unsub all</code> \u{2014} use <code>/subs</code> to see IDs."
    );
    assert_eq!(
        reply(exec_unsub("09", &mut u)),
        "No subscription found with ID <code>09</code>. Use <code>/subs</code> to see your subscriptions."
    );
    assert_eq!(
        saved_reply(exec_unsub(" 01 ", &mut u)),
        "Removed subscription: <code>WAT</code> \u{2192} RDG"
    );
    assert_eq!(u.subscriptions.len(), 1);
    assert_eq!(u.subscriptions[0].id, "B");
    assert_eq!(saved_reply(exec_unsub("ALL", &mut u)), "Removed 1 subscription.");
    assert_eq!(reply(exec_unsub("all", &mut u)), "You have no subscriptions to remove.");
    exec_sub("RDG", &mut u, &stations(), Format::Html, fresh("C"));
    exec_sub("WAT", &mut u, &stations(), Format::Html, fresh("D"));
    assert_eq!(saved_reply(exec_clear(&mut u)), "Removed 2 subscriptions.");
}

// ---------------------------------------------------------------------------
// Departures
// ---------------------------------------------------------------------------

fn service(std: &str, etd: &str, dest: (&str, &str), calls: &[&str]) -> Service {
    Service {
        service_id: "S".to_string(),
        origin_crs: "WAT".to_string(),
        std: std.to_string(),
        etd: etd.to_string(),
        platform: Some("4".to_string()),
        destination_crs: dest.1.to_string(),
        destination_name: dest.0.to_string(),
        is_cancelled: false,
        cancel_reason: None,
        delay_reason: Some("not shown here".to_string()),
        calling_point_crs: calls.iter().map(|c| c.to_string()).collect(),
    }
}

fn query(dests: &[&str], format: Format) -> BoardQuery {
    BoardQuery {
        origin_crs: "WAT".to_string(),
        destinations: dests.iter().map(|d| d.to_string()).collect(),
        format,
    }
}

fn services() -> Vec<Service> {
    let mut off = service("12:20", "Cancelled", ("Oxford & Co", "OXF"), &[]);
    off.is_cancelled = true;
    off.platform = None;
    vec![
        service("12:00", "12:00", ("Reading", "RDG"), &["WOK", "RDG"]),
        service("12:10", "12:25", ("Surbiton", "SUR"), &[]),
        off,
    ]
}

#[test]
fn board_for_telegram() {
    assert_eq!(
        show_departures(&query(&[], Format::Html), Ok(services())),
        "<b>Departures from WAT:</b>\n<pre>12:00 Reading     On time                      Pl 4\n12:10 Surbiton    exp 12:25                    Pl 4\n12:20 Oxford &amp; Co Cancelled \u{2014} reason unknown   Pl TBC</pre>"
    );
}

#[test]
fn board_for_telegram_to_a_destination() {
    assert_eq!(
        show_departures(&query(&["wok"], Format::Html), Ok(services())),
        "<b>Departures from WAT to <code>wok</code>:</b>\n<pre>12:00 Reading 1 On time Pl 4</pre>"
    );
}

#[test]
fn board_for_sms() {
    assert_eq!(
        show_departures(&query(&["RDG", "OXF"], Format::Plain), Ok(services())),
        "WAT to RDG, OXF:\n12:00 Reading 2 On time P4\n12:20 Oxford & Co Cancelled \u{2014} reason unknown --"
    );
    assert!(show_departures(&query(&[], Format::Plain), Ok(services()))
        .starts_with("WAT departures:\n12:00 Reading On time P4\n"));
}

#[test]
fn boards_without_trains() {
    assert_eq!(
        show_departures(&query(&[], Format::Plain), Ok(vec![])),
        "No departures found from WAT."
    );
    assert_eq!(
        show_departures(&query(&["EDB"], Format::Html), Ok(services())),
        "No departures from <b>WAT</b> to the requested destination(s)."
    );
    assert_eq!(
        show_departures(&query(&["EDB"], Format::Plain), Ok(services())),
        "No departures from WAT to the requested destination(s)."
    );
    assert_eq!(
        show_departures(&query(&[], Format::Html), Err(DarwinError::Http("<x>".to_string()))),
        "Could not fetch departures: HTTP error: &lt;x&gt;"
    );
}

#[test]
fn board_has_ten_rows_at_most() {
    let many: Vec<Service> =
        (0..15).map(|_| service("12:00", "On time", ("Reading", "RDG"), &[])).collect();
    let text = show_departures(&query(&[], Format::Plain), Ok(many));
    assert_eq!(text.lines().count(), 11);
}

#[test]
fn one_destination_is_left_to_darwin() {
    assert_eq!(query(&["RDG"], Format::Html).filter_crs(), Some("RDG".to_string()));
    assert_eq!(query(&["RDG", "WOK"], Format::Html).filter_crs(), None);
    assert_eq!(query(&[], Format::Html).filter_crs(), None);
    assert!(matches!(exec_now(None, query(&["RDG"], Format::Html), &stations()), Step::Fetch { .. }));
    assert!(reply(exec_now(None, query(&["QQQ"], Format::Html), &stations()))
        .starts_with("<code>QQQ</code>"));
}

#[test]
fn now_arguments() {
    let st = stations();
    assert_eq!(reply(handle_now("", &st, Format::Plain, "usage")), "usage");
    match handle_now("wat TO rdg", &st, Format::Plain, "usage") {
        Step::Fetch { intro, query } => {
            assert!(intro.is_none());
            assert_eq!(query.origin_crs, "WAT");
            assert_eq!(query.destinations, vec!["RDG"]);
        }
        other => panic!("expected a fetch, got {other:?}"),
    }
    match handle_now("wat rdg wok", &st, Format::Plain, "usage") {
        Step::Fetch { query, .. } => assert!(query.destinations.is_empty()),
        other => panic!("expected a fetch, got {other:?}"),
    }
}

// ---------------------------------------------------------------------------
// Input
// ---------------------------------------------------------------------------

#[test]
fn free_text_gets_a_prompt() {
    let mut u = user();
    assert_eq!(
        reply(handle_input("hello", &mut u, &state()).unwrap()),
        "I didn't recognise that \u{2014} try /help to see available commands."
    );
    assert_eq!(
        reply(handle_input("/FooBar x", &mut u, &state()).unwrap()),
        "Unknown command /FooBar \u{2014} try /help to see available commands."
    );
}

#[test]
fn commands_are_dispatched_in_any_case() {
    let mut u = user();
    assert_eq!(reply(handle_input("  /HELP  ", &mut u, &state()).unwrap()), exec_help());
    assert_eq!(
        reply(handle_input("/find  reading ", &mut u, &state()).unwrap()),
        "Found: <b>Reading</b> \u{2014} <code>RDG</code>"
    );
    assert_eq!(
        reply(handle_input("/now", &mut u, &state()).unwrap()),
        "Usage: /now CRS [to CRS]"
    );
    assert_eq!(reply(handle_input("/kill", &mut u, &state()).unwrap()), "Command not available.");
    handle_input("/sub wat", &mut u, &state()).unwrap();
    assert_eq!(u.subscriptions.len(), 1);
    assert_eq!(u.subscriptions[0].id.len(), 26);
    assert!(reply(handle_input("/subs", &mut u, &state()).unwrap()).contains("<code>[01]</code>"));
    assert_eq!(
        saved_reply(handle_input("/unsub\t01", &mut u, &state()).unwrap()),
        "Removed subscription: <code>WAT</code> \u{2192} all destinations"
    );
    handle_input("/pause", &mut u, &state()).unwrap();
    assert!(u.notifications_paused);
    handle_input("/resume", &mut u, &state()).unwrap();
    assert!(!u.notifications_paused);
}

#[test]
fn output_format_follows_the_channel() {
    let mut u = User::created(UserKey::twilio("+44"), utc(2024, 1, 1, 0, 0));
    match handle_input_at("/now wat", &mut u, &state(), fresh("A")) {
        Step::Fetch { query, .. } => assert_eq!(query.format, Format::Plain),
        other => panic!("expected a fetch, got {other:?}"),
    }
    assert_eq!(Format::from(&Channel::Telegram), Format::Html);
}

#[test]
fn input_beyond_the_calendar() {
    assert!(input_fits("/pause 10", &now()));
    assert!(!input_fits("/pause 9223372036854775807", &now()));
    let mut u = user();
    assert!(handle_input("/pause 9223372036854775807", &mut u, &state()).is_none());
    let end = Timestamp { secs: 8_210_266_876_799, nanos: 0 };
    assert!(!input_fits("/sub WAT", &end));
    assert!(input_fits("/subs", &end));
}

#[test]
fn identity_stays_whatever_is_sent() {
    let mut u = user();
    for text in ["/sub wat", "/sub wat daily 07:00-08:00", "/unsub 01", "/pause 5", "/unsub all"] {
        handle_input(text, &mut u, &state()).unwrap();
        assert!(u.key.is(&UserKey::telegram(7)));
        assert_eq!(u.version, 2);
    }
    let _: Option<&Subscription> = u.subscriptions.first();
}
