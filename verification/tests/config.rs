use toml::Value;
use waiting_for_a_signal::config::{
    find_config_path, is_world_readable, resolve, resolve_paths, validate, AssetsConfig, Config,
    DarwinConfig, DebugCaptureConfig, KillSwitchConfig, LoggingConfig, PathFacts, PollingConfig,
    StorageConfig, TelegramConfig, TwilioConfig,
};

const MINIMAL_TG: &str = r#"
[telegram]
token = "123:ABC"

[darwin]
token = "00000000-0000-0000-0000-000000000000"

[storage]
user_data_dir = "/var/lib/waiting-for-a-signal/users"
"#;

const MINIMAL_TWILIO: &str = r#"
[twilio]
account_sid = "ACtest"
auth_token  = "secret"
from_number = "+14155551234"

[darwin]
token = "00000000-0000-0000-0000-000000000000"

[storage]
user_data_dir = "/var/lib/waiting-for-a-signal/users"
"#;

fn text(v: &Value, key: &str) -> String {
    v.get(key).and_then(Value::as_str).unwrap_or("").to_string()
}

/// The sections that the samples have; everything else by default.
fn parse(raw: &str) -> Config {
    let v: Value = toml::from_str(raw).expect("parse failed");
    let darwin = v.get("darwin").expect("darwin section");
    let storage = v.get("storage").expect("storage section");
    Config {
        telegram: v.get("telegram").map(|t| TelegramConfig {
            token: text(t, "token"),
            capture_user_info: false,
        }),
        twilio: v.get("twilio").map(|t| TwilioConfig {
            account_sid: text(t, "account_sid"),
            auth_token: text(t, "auth_token"),
            from_number: text(t, "from_number"),
            poll_interval_secs: TwilioConfig::default_poll_interval_secs(),
        }),
        darwin: DarwinConfig {
            token: text(darwin, "token"),
            endpoint: DarwinConfig::default_endpoint(),
            simulate: false,
            debug_capture: DebugCaptureConfig::default(),
        },
        storage: StorageConfig { user_data_dir: text(storage, "user_data_dir") },
        assets: AssetsConfig::default(),
        polling: PollingConfig::default(),
        logging: LoggingConfig::default(),
        kill_switch: KillSwitchConfig::default(),
    }
}

#[test]
fn minimal_telegram_config_parses() {
    let cfg = parse(MINIMAL_TG);
    assert!(cfg.telegram.is_some());
    assert_eq!(cfg.polling.interval_seconds, 60);
    assert_eq!(cfg.polling.departure_rows, 10);
    assert_eq!(cfg.polling.poll_rows, 149);
    assert!(cfg.polling.filter_destination_at_api);
}

#[test]
fn minimal_twilio_config_parses() {
    let cfg = parse(MINIMAL_TWILIO);
    let tw = cfg.twilio.expect("twilio section missing");
    assert_eq!(tw.account_sid, "ACtest");
    assert_eq!(tw.from_number, "+14155551234");
    assert_eq!(tw.poll_interval_secs, 10); // default
}

#[test]
fn validation_rejects_no_channel() {
    let raw = r#"
[darwin]
token = "tok"
[storage]
user_data_dir = "/tmp"
"#;
    let cfg = parse(raw);
    assert!(validate(&cfg).is_err());
}

#[test]
fn validation_messages() {
    assert!(validate(&parse(MINIMAL_TG)).is_ok());
    assert!(validate(&parse(MINIMAL_TWILIO)).is_ok());
    let mut cfg = parse(MINIMAL_TG);
    cfg.telegram.as_mut().unwrap().token = String::new();
    assert_eq!(validate(&cfg).unwrap_err(), "[telegram] token must not be empty");
    let mut cfg = parse(MINIMAL_TWILIO);
    cfg.twilio.as_mut().unwrap().from_number = String::new();
    assert_eq!(validate(&cfg).unwrap_err(), "[twilio] from_number must not be empty");
    cfg.twilio.as_mut().unwrap().auth_token = String::new();
    assert_eq!(validate(&cfg).unwrap_err(), "[twilio] auth_token must not be empty");
    cfg.twilio.as_mut().unwrap().account_sid = String::new();
    assert_eq!(validate(&cfg).unwrap_err(), "[twilio] account_sid must not be empty");
    let mut cfg = parse(MINIMAL_TG);
    cfg.darwin.token = String::new();
    assert_eq!(
        validate(&cfg).unwrap_err(),
        "[darwin] token must not be empty (or set simulate = true for local testing without a Darwin account)"
    );
    cfg.darwin.simulate = true;
    assert!(validate(&cfg).is_ok());
    cfg.telegram = None;
    assert_eq!(
        validate(&cfg).unwrap_err(),
        "At least one messaging channel must be configured. Add a [telegram] section, a [twilio] section, or both."
    );
}

#[test]
fn defaults() {
    assert_eq!(LoggingConfig::default().level, "info");
    assert!(!KillSwitchConfig::default().enabled);
    assert_eq!(AssetsConfig::default().crs_csv_path, "assets/crs.csv");
    assert!(DarwinConfig::default_endpoint().ends_with("/LDBWS/api/20220120"));
    assert_eq!(DebugCaptureConfig::default().capture_dir(), None);
    let on = DebugCaptureConfig { enabled: true, dir: None };
    assert_eq!(on.capture_dir().as_deref(), Some("darwin-debug"));
    let there = DebugCaptureConfig { enabled: true, dir: Some("/tmp/x".to_string()) };
    assert_eq!(there.capture_dir().as_deref(), Some("/tmp/x"));
}

fn args(list: &[&str]) -> Vec<String> {
    list.iter().map(|a| a.to_string()).collect()
}

#[test]
fn where_the_configuration_is() {
    let env = || Some("/env.toml".to_string());
    let a = args(&["prog", "--config", "/arg.toml"]);
    assert_eq!(find_config_path(&a, env(), true, true).unwrap(), "/arg.toml");
    let dangling = args(&["prog", "--config"]);
    assert_eq!(find_config_path(&dangling, env(), true, true).unwrap(), "/env.toml");
    let none = args(&["prog"]);
    assert_eq!(
        find_config_path(&none, None, true, true).unwrap(),
        "/etc/waiting-for-a-signal/config.toml"
    );
    assert_eq!(find_config_path(&none, None, false, true).unwrap(), "config.toml");
    assert!(find_config_path(&none, None, false, false)
        .unwrap_err()
        .starts_with("No config file found. Provide one via --config <path>, "));
}

#[test]
fn relative_paths_are_below_the_configuration() {
    let relative = PathFacts { absolute: false, joined: "/etc/x/users".to_string() };
    let absolute = PathFacts { absolute: true, joined: "/etc/x/csv".to_string() };
    assert_eq!(resolve("users", &relative), "/etc/x/users");
    let mut cfg = parse(MINIMAL_TG);
    cfg.storage.user_data_dir = "users".to_string();
    cfg.assets.crs_csv_path = "/data/crs.csv".to_string();
    resolve_paths(&mut cfg, &relative, &absolute);
    assert_eq!(cfg.storage.user_data_dir, "/etc/x/users");
    assert_eq!(cfg.assets.crs_csv_path, "/data/crs.csv");
}

#[test]
fn world_readable_files() {
    assert!(is_world_readable(0o644));
    assert!(!is_world_readable(0o640));
    assert!(!is_world_readable(0o600));
}
