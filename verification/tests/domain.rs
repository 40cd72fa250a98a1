use chrono::TimeZone;
use waiting_for_a_signal::clock::{NaiveTime, Timestamp, Weekday};
use waiting_for_a_signal::domain::{Channel, Schedule, Subscription, TimeWindow, User, UserKey};

fn utc(y: i32, mo: u32, d: u32, h: u32, m: u32) -> Timestamp {
    let t = chrono::Utc.with_ymd_and_hms(y, mo, d, h, m, 0).unwrap();
    Timestamp { secs: t.timestamp(), nanos: 0 }
}

fn t(h: u32, m: u32) -> NaiveTime {
    NaiveTime::from_hms_opt(h, m, 0).unwrap()
}

fn weekday_schedule() -> Schedule {
    Schedule {
        days: vec![Weekday::Mon, Weekday::Tue, Weekday::Wed, Weekday::Thu, Weekday::Fri],
        windows: vec![TimeWindow::new(t(7, 30), t(9, 0))],
    }
}

#[test]
fn window_normal_contains() {
    let w = TimeWindow::new(t(9, 0), t(17, 0));
    assert!(w.contains(t(9, 0)));
    assert!(w.contains(t(12, 30)));
    assert!(!w.contains(t(17, 0))); // end is exclusive
    assert!(!w.contains(t(8, 59)));
}

#[test]
fn window_overnight_contains() {
    let w = TimeWindow::new(t(23, 0), t(2, 0));
    assert!(w.contains(t(23, 30)));
    assert!(w.contains(t(0, 0)));
    assert!(w.contains(t(1, 59)));
    assert!(!w.contains(t(2, 0)));
    assert!(!w.contains(t(12, 0)));
}

/// 2024-05-15 is a Wednesday (BST = UTC+1).
/// UTC 06:30 = London 07:30: inside window.
#[test]
fn schedule_active_inside_window_bst() {
    let now = utc(2024, 5, 15, 6, 30);
    assert!(weekday_schedule().is_active_at(now));
}

/// UTC 06:16 = London 07:16: before window start (07:30), should be inactive.
#[test]
fn schedule_inactive_before_window() {
    let now = utc(2024, 5, 15, 6, 16);
    assert!(!weekday_schedule().is_active_at(now));
}

/// UTC 06:29 = London 07:29: one minute before window start, inactive.
#[test]
fn schedule_inactive_one_minute_before_window() {
    let now = utc(2024, 5, 15, 6, 29);
    assert!(!weekday_schedule().is_active_at(now));
}

/// UTC 08:01 = London 09:01: after window ends.
#[test]
fn schedule_inactive_after_window() {
    let now = utc(2024, 5, 15, 8, 1);
    assert!(!weekday_schedule().is_active_at(now));
}

/// 2024-05-18 is a Saturday: not in weekday schedule.
#[test]
fn schedule_inactive_wrong_day() {
    let now = utc(2024, 5, 18, 6, 30);
    assert!(!weekday_schedule().is_active_at(now));
}

/// BST to GMT transition: 2024-10-27 clocks go back.
#[test]
fn schedule_bst_gmt_transition_day() {
    let now = utc(2024, 10, 27, 6, 30);
    assert!(!weekday_schedule().is_active_at(now)); // Sunday
}

/// GMT: 2024-01-15 Monday. UTC 07:30 = London 07:30 (GMT, no offset).
#[test]
fn schedule_active_gmt() {
    let now = utc(2024, 1, 15, 7, 30);
    assert!(weekday_schedule().is_active_at(now));
}

#[test]
fn schedule_covers_day_and_time() {
    let s = weekday_schedule();
    assert!(s.covers(Weekday::Fri, t(8, 59)));
    assert!(!s.covers(Weekday::Fri, t(9, 0)));
    assert!(!s.covers(Weekday::Sat, t(8, 0)));
}

#[test]
fn swapped_window_is_the_complement() {
    let w = TimeWindow::new(t(7, 0), t(9, 0));
    let v = TimeWindow::new(t(9, 0), t(7, 0));
    for h in 0..24 {
        assert_ne!(w.contains(t(h, 15)), v.contains(t(h, 15)));
    }
    assert!(!w.contains(w.end));
    assert!(w.contains(w.start));
}

#[test]
fn time_of_day_limits() {
    assert!(NaiveTime::from_hms_opt(24, 0, 0).is_none());
    assert!(NaiveTime::from_hms_opt(0, 60, 0).is_none());
    assert_eq!(NaiveTime::from_hms_opt(23, 59, 59).unwrap().secs, 86_399);
}

#[test]
fn file_stem_telegram() {
    let key = UserKey::telegram(123456789);
    assert_eq!(key.file_stem(), "telegram-123456789");
}

#[test]
fn file_stem_twilio() {
    assert_eq!(UserKey::twilio("+441632960000").file_stem(), "twilio-p441632960000");
    assert_eq!(UserKey::telegram(-42).file_stem(), "telegram-_42");
    assert_eq!(
        UserKey::new(Channel::Twilio, "a b/c".to_string()).file_stem(),
        "twilio-a_b_c"
    );
}

#[test]
fn file_stems_tell_users_apart() {
    let a = UserKey::telegram(12);
    let b = UserKey::telegram(-12);
    let c = UserKey::new(Channel::Twilio, "12".to_string());
    assert_ne!(a.file_stem(), b.file_stem());
    assert_ne!(UserKey::twilio("+441").file_stem(), UserKey::twilio("+442").file_stem());
    assert_ne!(a.file_stem(), c.file_stem());
    assert!(!a.is(&c));
    assert!(a.is(&UserKey::telegram(12)));
}

#[test]
fn channel_names() {
    assert_eq!(Channel::Telegram.as_str(), "telegram");
    assert_eq!(Channel::Twilio.as_str(), "twilio");
}

#[test]
fn new_user_defaults() {
    let key = UserKey::telegram(1);
    let user = User::new(key);
    assert_eq!(user.version, 2);
    assert!(!user.notifications_paused);
    assert!(user.subscriptions.is_empty());
}

#[test]
fn new_user_is_created_now() {
    let before = chrono::Utc::now().timestamp();
    let user = User::new(UserKey::telegram(1));
    let after = chrono::Utc::now().timestamp();
    assert!(before <= user.created_at.secs && user.created_at.secs <= after);
}

#[test]
fn pause_state() {
    let mut user = User::created(UserKey::telegram(1), utc(2024, 1, 1, 0, 0));
    let now = utc(2024, 5, 1, 12, 0);
    assert!(!user.is_paused_at(now));
    user.paused_until = Some(utc(2024, 5, 1, 12, 30));
    assert!(user.is_paused_at(now));
    assert!(!user.is_paused_at(utc(2024, 5, 1, 12, 30)));
    user.notifications_paused = true;
    assert!(user.is_paused_at(utc(2025, 1, 1, 0, 0)));
}

fn sub_with_id(display_id: &str) -> Subscription {
    let mut s = Subscription::new("WAT".to_string(), vec![], None);
    s.display_id = display_id.to_string();
    s
}

#[test]
fn subscription_has_a_fresh_identity() {
    let a = Subscription::new("WAT".to_string(), vec!["RDG".to_string()], None);
    let b = Subscription::new("WAT".to_string(), vec!["RDG".to_string()], None);
    assert_eq!(a.id.len(), 26);
    assert_ne!(a.id, b.id);
    assert!(a.display_id.is_empty());
    assert!(a.expires_at.is_none());
    assert_eq!(a.origin_crs, "WAT");
    assert_eq!(a.destination_filter, vec!["RDG".to_string()]);
}

#[test]
fn display_ids_fill_the_smallest_gap() {
    assert_eq!(Subscription::next_display_id(&vec![]), Some("01".to_string()));
    let subs = vec![sub_with_id("01"), sub_with_id("03"), sub_with_id("02"), sub_with_id("05")];
    assert_eq!(Subscription::next_display_id(&subs), Some("04".to_string()));
}

#[test]
fn display_ids_run_out() {
    let mut subs = Vec::new();
    for n in 1..=98 {
        subs.push(sub_with_id(&format!("{:02}", n)));
    }
    assert_eq!(Subscription::next_display_id(&subs), Some("99".to_string()));
    subs.push(sub_with_id("99"));
    assert_eq!(Subscription::next_display_id(&subs), None);
}

#[test]
fn expiry_includes_the_deadline() {
    let mut s = sub_with_id("01");
    let deadline = utc(2024, 5, 1, 12, 0);
    assert!(!s.is_expired_at(deadline));
    s.expires_at = Some(deadline);
    assert!(!s.is_expired_at(utc(2024, 5, 1, 11, 59)));
    assert!(s.is_expired_at(deadline));
    assert!(s.is_expired_at(utc(2024, 5, 1, 12, 1)));
}

#[test]
fn unscheduled_subscription_is_always_active() {
    let mut s = sub_with_id("01");
    assert!(s.is_active_at(utc(2024, 5, 18, 3, 0)));
    s.schedule = Some(weekday_schedule());
    assert!(!s.is_active_at(utc(2024, 5, 18, 3, 0)));
    assert!(s.is_active_at(utc(2024, 5, 15, 6, 30)));
}

#[test]
fn subscription_matches_terminus_or_call() {
    let mut s = sub_with_id("01");
    let calls = vec!["WOK".to_string(), "BSK".to_string()];
    assert!(s.is_for("WAT", "SOU", &calls));
    assert!(!s.is_for("PAD", "SOU", &calls));
    s.destination_filter = vec!["BSK".to_string()];
    assert!(s.is_for("WAT", "SOU", &calls));
    assert!(s.is_for("WAT", "BSK", &vec![]));
    assert!(!s.is_for("WAT", "SOU", &vec![]));
}

#[test]
fn london_clock_follows_summer_time() {
    assert_eq!(
        waiting_for_a_signal::clock::london_hour_minute(&utc(2024, 7, 1, 12, 5)),
        "13:05"
    );
    assert_eq!(
        waiting_for_a_signal::clock::london_hour_minute(&utc(2024, 12, 1, 12, 5)),
        "12:05"
    );
}

#[test]
fn minutes_between_instants() {
    let a = Timestamp { secs: 1_000_000, nanos: 500 };
    let b = a.plus_minutes(30);
    assert_eq!(b.minutes_after(&a), 30);
    assert_eq!(b.minutes_after(&Timestamp { secs: 1_000_000, nanos: 501 }), 29);
    assert_eq!(a.minutes_after(&b), 0);
}
