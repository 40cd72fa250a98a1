use waiting_for_a_signal::channel::telegram::{
    capture_user_info, command_fits, command_reply, exec_help, handle_command, handle_command_at,
    welcome_message, Command,
};
use waiting_for_a_signal::channel::twilio::{
    is_undated, messages_url, next_cutoff, route_sms, select_dated, select_inbound, sms_body,
    Message,
};
use waiting_for_a_signal::clock::Timestamp;
use waiting_for_a_signal::domain::{Channel, User, UserKey};
use waiting_for_a_signal::handlers::commands::{Fresh, Step};
use waiting_for_a_signal::handlers::{AppState, DispatchOutcome};
use waiting_for_a_signal::markup::{esc, gsm_sanitise, strip_html};
use waiting_for_a_signal::metrics::{
    append_row, metrics_header, row_stamp, totals_fit, users_header, Counters,
};
use waiting_for_a_signal::notifier::multi::MultiChannelNotifier;
use waiting_for_a_signal::notifier::{chat_id, NotifyError, OutboundMessage};
use waiting_for_a_signal::stations::StationIndex;

fn at(secs: i64) -> Timestamp {
    Timestamp { secs, nanos: 0 }
}

fn message(direction: &str, date: &str, body: &str) -> Message {
    Message {
        sid: "SM".to_string(),
        from: "+441632960000".to_string(),
        body: body.to_string(),
        direction: direction.to_string(),
        date_created: date.to_string(),
    }
}

#[test]
fn inbound_messages_after_the_cutoff_oldest_first() {
    let messages = vec![
        message("inbound", "Thu, 01 Jan 1970 00:05:00 +0000", "third"),
        message("inbound", "Thu, 01 Jan 1970 01:04:00 +0100", "second"),
        message("outbound-api", "Thu, 01 Jan 1970 00:04:30 +0000", "ours"),
        message("inbound", "yesterday", "undated"),
        message("inbound", "Thu, 01 Jan 1970 00:03:00 +0000", "first"),
        message("inbound", "Thu, 01 Jan 1970 00:02:00 +0000", "old"),
    ];
    let found = select_inbound(&messages, at(120));
    let bodies: Vec<&str> = found.iter().map(|m| m.body.as_str()).collect();
    assert_eq!(bodies, vec!["first", "second", "third"]);
    let next = next_cutoff(&found, at(120));
    assert_eq!(next, at(300));
    assert!(select_inbound(&messages, next).is_empty());
    assert_eq!(next_cutoff(&vec![], at(7)), at(7));
}

#[test]
fn undated_messages_are_told_apart() {
    assert!(is_undated(&message("inbound", "yesterday", "hi")));
    assert!(!is_undated(&message("outbound-api", "yesterday", "hi")));
    assert!(!is_undated(&message("inbound", "Thu, 01 Jan 1970 00:05:00 +0000", "hi")));
}

#[test]
fn messages_of_one_date_keep_their_order() {
    let messages = vec![message("inbound", "", "a"), message("inbound", "", "b")];
    let found = select_dated(&messages, &vec![Some(at(9)), Some(at(9))], at(1));
    assert_eq!(found[0].body, "a");
    assert_eq!(found[1].body, "b");
    assert_eq!(select_dated(&messages, &vec![None, Some(at(1))], at(1)).len(), 0);
}

#[test]
fn twilio_addresses() {
    assert_eq!(
        messages_url("AC1"),
        "https://api.twilio.com/2010-04-01/Accounts/AC1/Messages.json"
    );
}

#[test]
fn stripping_html() {
    assert_eq!(strip_html("<b>A &amp; B</b> &lt;x&gt;"), "A & B <x>");
    assert_eq!(strip_html("a < b"), "a ");
    assert_eq!(strip_html("a > b"), "a  b");
    for s in ["5 < 6 & 7 > 1", "&amp; &", "plain", "&quot;"] {
        assert_eq!(strip_html(&esc(s)), s);
    }
    // A text that spells out an entity is decoded once more.
    assert_eq!(strip_html(&esc("&lt;")), "<");
}

#[test]
fn sanitising_for_sms() {
    assert_eq!(
        gsm_sanitise("\u{2192}\u{21D2}\u{2190}\u{2026}\u{2022}\u{2014}\u{2018}\u{201C}\u{e9}\u{1A}ok"),
        "->=><-...--'\"?ok"
    );
    assert_eq!(sms_body("<code>WAT</code> \u{2192} \u{a3}5 &amp; more"), "WAT -> ?5 & more");
    let outcome = DispatchOutcome { text: "<b>x</b> &gt; y".to_string() };
    assert_eq!(route_sms(&outcome), "x > y");
}

fn state() -> AppState {
    AppState {
        stations: StationIndex::load("crs,station_name\nWAT,London Waterloo\n"),
        polling_rows: 10,
        kill_switch_enabled: true,
    }
}

fn user() -> User {
    User::created(UserKey::telegram(7), at(0))
}

fn fresh() -> Fresh {
    Fresh { now: at(1_715_770_800), id: "ID".to_string() }
}

#[test]
fn telegram_commands() {
    let mut u = user();
    let st = state();
    let run = |cmd: Command, u: &mut User| handle_command_at(cmd, "/now <args>", u, &st, fresh());
    assert!(matches!(run(Command::Help, &mut u), Step::Reply(t) if t == "/now &lt;args&gt;"));
    assert!(matches!(run(Command::Kill, &mut u), Step::Shutdown(t) if t == "Shutting down."));
    assert!(
        matches!(run(Command::Now(String::new()), &mut u), Step::Reply(t) if t == "Usage: <code>/now CRS [to CRS]</code>")
    );
    assert!(matches!(run(Command::Now("wat".to_string()), &mut u), Step::Fetch { .. }));
    assert!(matches!(run(Command::Sub("wat".to_string()), &mut u), Step::Save { .. }));
    assert_eq!(u.subscriptions.len(), 1);
    assert!(matches!(run(Command::Subs, &mut u), Step::Reply(t) if t.contains("[01]")));
    assert!(matches!(run(Command::Unsub("01".to_string()), &mut u), Step::Save { .. }));
    assert!(matches!(run(Command::Find("waterloo".to_string()), &mut u), Step::Reply(t) if t.contains("WAT")));
    assert!(matches!(run(Command::Pause("5".to_string()), &mut u), Step::Save { .. }));
    assert!(matches!(run(Command::Resume, &mut u), Step::Save { .. }));
    assert_eq!(u.paused_until, None);
    assert!(matches!(handle_command(Command::Subs, "", &mut u, &st), Some(Step::Reply(_))));
    assert!(command_fits(&Command::Subs, &at(0)));
    assert!(!command_fits(&Command::Pause("9223372036854775807".to_string()), &at(0)));
}

#[test]
fn new_users_are_welcomed() {
    assert_eq!(command_reply(false, "body".to_string()), "body");
    let text = command_reply(true, "body".to_string());
    assert_eq!(text, format!("{}\n\nbody", welcome_message()));
    assert!(welcome_message().starts_with("<b>WaitingForASignal</b>\n\nUse <code>/sub WAT</code>"));
    assert_eq!(exec_help("a<b"), "a&lt;b");
}

#[test]
fn user_info_is_captured_when_it_changes() {
    let mut u = user();
    let last = Some("Lovelace".to_string());
    let name = Some("ada".to_string());
    assert!(capture_user_info(&mut u, "Ada", &last, &name));
    assert_eq!(u.telegram_name.as_deref(), Some("Ada Lovelace"));
    assert_eq!(u.telegram_username.as_deref(), Some("ada"));
    assert!(!capture_user_info(&mut u, "Ada", &last, &name));
    assert!(capture_user_info(&mut u, "Ada", &None, &name));
    assert_eq!(u.telegram_name.as_deref(), Some("Ada"));
    assert!(capture_user_info(&mut u, "Ada", &None, &None));
    assert_eq!(u.telegram_username, None);
}

#[test]
fn telegram_chats() {
    assert_eq!(chat_id(&UserKey::telegram(-100123)).unwrap(), -100123);
    assert_eq!(chat_id(&UserKey::telegram(i64::MIN)).unwrap(), i64::MIN);
    assert_eq!(chat_id(&UserKey::telegram(i64::MAX)).unwrap(), i64::MAX);
    for bad in ["", "x1", "-", "+", "++1", "9223372036854775808", "-9223372036854775809", "1 "] {
        let key = UserKey::new(Channel::Telegram, bad.to_string());
        assert!(matches!(chat_id(&key), Err(NotifyError::UserUnreachable)));
    }
    assert_eq!(chat_id(&UserKey::new(Channel::Telegram, "+5".to_string())).unwrap(), 5);
}

#[test]
fn routing_by_channel() {
    let mut m: MultiChannelNotifier<&str> = MultiChannelNotifier::new();
    assert!(matches!(m.route(&UserKey::telegram(1)), Err(NotifyError::UserUnreachable)));
    m.register(Channel::Telegram, "old");
    m.register(Channel::Telegram, "new");
    assert_eq!(*m.route(&UserKey::telegram(1)).unwrap(), "new");
    assert!(m.route(&UserKey::twilio("+1")).is_err());
    m.register(Channel::Twilio, "sms");
    assert_eq!(*m.route(&UserKey::twilio("+1")).unwrap(), "sms");
    assert_eq!(*m.route(&UserKey::telegram(1)).unwrap(), "new");
}

#[test]
fn notify_errors_in_words() {
    assert_eq!(NotifyError::UserUnreachable.text(), "User not reachable on channel");
    assert_eq!(NotifyError::Send("x".to_string()).text(), "Failed to send message: x");
    assert_eq!(OutboundMessage::text("hi".to_string()).text, "hi");
}

#[test]
fn counters_and_rows() {
    let mut c = Counters::new();
    c.record_darwin_requests(3);
    c.record_darwin_requests(0);
    c.record_message_sent(&UserKey::telegram(1));
    c.record_message_sent(&UserKey::telegram(1));
    c.record_message_sent(&UserKey::twilio("+1"));
    assert_eq!(c.messages_sent_to("telegram-1"), 2);
    assert_eq!(c.messages_sent_to("telegram-2"), 0);
    let users = vec![User::created(UserKey::telegram(1), at(0)), User::created(UserKey::telegram(2), at(0))];
    assert!(totals_fit(&users));
    let stamp = row_stamp(&at(1_715_770_800));
    assert_eq!(stamp, "2024-05-15T11:00:00Z");
    let f = c.flush(&stamp, &users);
    assert_eq!(f.totals, "2024-05-15T11:00:00Z,3,3,0\n");
    assert_eq!(
        f.users.as_deref(),
        Some("2024-05-15T11:00:00Z,telegram-1,2,0\n2024-05-15T11:00:00Z,telegram-2,0,0\n")
    );
    assert!(c.flush(&stamp, &vec![]).users.is_none());
}

#[test]
fn header_of_a_new_file() {
    assert_eq!(append_row(true, metrics_header(), "1,2\n"), "1,2\n");
    assert_eq!(
        append_row(false, users_header(), "1,2\n"),
        "timestamp,user_id,messages_sent,subscriptions\n1,2\n"
    );
}
