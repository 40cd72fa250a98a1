//! Configuration: its sections, their defaults, and what makes it valid.

use crate::text::{lemma_text_position_is, opt_text, position_of, text_position, texts};
use vstd::prelude::*;
use vstd::string::*;

verus! {

/// Top-level configuration.
///
/// At least one messaging channel (`[telegram]` or `[twilio]`) must be present.
/// Both may be active simultaneously.
#[derive(Debug)]
pub struct Config {
    /// Presence enables the Telegram channel.
    pub telegram: Option<TelegramConfig>,
    /// Presence enables the Twilio cloud SMS channel.
    pub twilio: Option<TwilioConfig>,
    pub darwin: DarwinConfig,
    pub storage: StorageConfig,
    pub assets: AssetsConfig,
    pub polling: PollingConfig,
    pub logging: LoggingConfig,
    pub kill_switch: KillSwitchConfig,
}

// ---------------------------------------------------------------------------
// Channel configs
// ---------------------------------------------------------------------------

#[derive(Debug)]
pub struct TelegramConfig {
    pub token: String,
    /// When `true`, the user's Telegram display name and @username are stored
    /// in their profile and updated on each message.  Defaults to `false`.
    pub capture_user_info: bool,
}

/// Twilio cloud SMS channel configuration.
///
/// ```toml
/// [twilio]
/// account_sid        = "ACxxxxxxxxxxxxxxxxxxxxxxxxxxxxxxxx"
/// auth_token         = "your_auth_token"
/// from_number        = "+14155551234"
/// poll_interval_secs = 10                 # optional, default 10
/// ```
///
/// May be used alongside `[telegram]`: both channels run concurrently.
#[derive(Debug)]
pub struct TwilioConfig {
    /// Twilio Account SID (starts with `AC`).
    pub account_sid: String,
    /// Twilio Auth Token.
    pub auth_token: String,
    /// The Twilio phone number to send from and receive on (E.164 format).
    pub from_number: String,
    /// How often to poll the Twilio API for new inbound messages (seconds).
    pub poll_interval_secs: u64,
}

impl TwilioConfig {
    pub fn default_poll_interval_secs() -> (r: u64)
        ensures
            r == 10,
    {
        10
    }
}

// ---------------------------------------------------------------------------
// Core configs
// ---------------------------------------------------------------------------

#[derive(Debug)]
pub struct DarwinConfig {
    /// Not required when `simulate = true`.
    pub token: String,
    pub endpoint: String,
    /// When true, use a built-in simulator instead of the real Darwin API.
    pub simulate: bool,
    pub debug_capture: DebugCaptureConfig,
}

impl DarwinConfig {
    pub fn default_endpoint() -> (r: String)
        ensures
            r@
                == "https://api1.raildata.org.uk/1010-live-departure-board-dep1_2/LDBWS/api/20220120"@,
    {
        "https://api1.raildata.org.uk/1010-live-departure-board-dep1_2/LDBWS/api/20220120".to_string()
    }
}

/// Whether the responses of the Darwin API are kept in files, and where.
#[derive(Debug)]
pub struct DebugCaptureConfig {
    pub enabled: bool,
    pub dir: Option<String>,
}

impl Default for DebugCaptureConfig {
    fn default() -> (r: Self)
        ensures
            !r.enabled,
            r.dir is None,
    {
        DebugCaptureConfig { enabled: false, dir: None }
    }
}

impl DebugCaptureConfig {
    /// The directory for captures, where they are enabled.
    pub fn capture_dir(&self) -> (r: Option<String>)
        ensures
            opt_text(r) == (if !self.enabled {
                None
            } else {
                match self.dir {
                    Some(dir) => Some(dir@),
                    None => Some("darwin-debug"@),
                }
            }),
    {
        if !self.enabled {
            return None;
        }
        match &self.dir {
            Some(dir) => Some(dir.clone()),
            None => Some("darwin-debug".to_string()),
        }
    }
}

#[derive(Debug)]
pub struct StorageConfig {
    pub user_data_dir: String,
}

#[derive(Debug)]
pub struct AssetsConfig {
    pub crs_csv_path: String,
}

impl AssetsConfig {
    pub fn default_crs_csv_path() -> (r: String)
        ensures
            r@ == "assets/crs.csv"@,
    {
        "assets/crs.csv".to_string()
    }
}

impl Default for AssetsConfig {
    fn default() -> (r: Self)
        ensures
            r.crs_csv_path@ == "assets/crs.csv"@,
    {
        AssetsConfig { crs_csv_path: AssetsConfig::default_crs_csv_path() }
    }
}

#[derive(Debug)]
pub struct PollingConfig {
    pub interval_seconds: u64,
    /// Number of rows to request from Darwin for the live `/now` display.
    pub departure_rows: u32,
    /// Number of rows to request from Darwin per polling call.
    /// Should be larger than `departure_rows` to avoid missing destinations when
    /// filtering client-side.
    pub poll_rows: u32,
    /// When `true` (default), the destination filter is passed to the Darwin API
    /// as `filterCrs` so Darwin returns only trains calling at that station.
    /// This is reliable and consistent with the `/now` command.
    ///
    /// Set to `false` to fetch the full origin board once and filter client-side
    /// using `subsequentCallingPoints` data.  This reduces API calls when many
    /// users share the same origin station, but Darwin does not always populate
    /// calling-point data for unfiltered boards, so results may be incomplete.
    pub filter_destination_at_api: bool,
}

impl PollingConfig {
    pub fn default_interval_seconds() -> (r: u64)
        ensures
            r == 60,
    {
        60
    }

    pub fn default_departure_rows() -> (r: u32)
        ensures
            r == 10,
    {
        10
    }

    pub fn default_poll_rows() -> (r: u32)
        ensures
            r == 149,
    {
        149
    }

    pub fn default_filter_destination_at_api() -> (r: bool)
        ensures
            r,
    {
        true
    }
}

impl Default for PollingConfig {
    fn default() -> (r: Self)
        ensures
            r == (PollingConfig {
                interval_seconds: 60,
                departure_rows: 10,
                poll_rows: 149,
                filter_destination_at_api: true,
            }),
    {
        PollingConfig {
            interval_seconds: PollingConfig::default_interval_seconds(),
            departure_rows: PollingConfig::default_departure_rows(),
            poll_rows: PollingConfig::default_poll_rows(),
            filter_destination_at_api: PollingConfig::default_filter_destination_at_api(),
        }
    }
}

#[derive(Debug)]
pub struct LoggingConfig {
    pub level: String,
    /// When set, logs are written to daily-rolling files in this directory
    /// instead of stdout.  The directory is created if it does not exist.
    pub log_dir: Option<String>,
    /// When `true`, ANSI colour codes are emitted.  Disable when piping to a
    /// file or a log aggregator that does not strip escape sequences.
    pub ansi: bool,
}

impl LoggingConfig {
    pub fn default_level() -> (r: String)
        ensures
            r@ == "info"@,
    {
        "info".to_string()
    }
}

impl Default for LoggingConfig {
    fn default() -> (r: Self)
        ensures
            r.level@ == "info"@,
            r.log_dir is None,
            !r.ansi,
    {
        LoggingConfig { level: LoggingConfig::default_level(), log_dir: None, ansi: false }
    }
}

/// Controls the `/kill` command that causes the service to exit.
///
/// ```toml
/// [kill_switch]
/// enabled = true   # set to false to disable the command entirely
/// ```
#[derive(Debug)]
pub struct KillSwitchConfig {
    /// When `false`, the `/kill` command is disabled and returns "not available".
    pub enabled: bool,
}

impl KillSwitchConfig {
    pub fn default_enabled() -> (r: bool)
        ensures
            !r,
    {
        false
    }
}

impl Default for KillSwitchConfig {
    fn default() -> (r: Self)
        ensures
            !r.enabled,
    {
        KillSwitchConfig { enabled: KillSwitchConfig::default_enabled() }
    }
}

// ---------------------------------------------------------------------------
// Loading
// ---------------------------------------------------------------------------

/// The path that stands behind `--config` among the arguments.
pub open spec fn path_argument(args: Seq<Seq<char>>) -> Option<Seq<char>> {
    let k = text_position(args, "--config"@);
    if k + 1 < args.len() {
        Some(args[k + 1])
    } else {
        None
    }
}

pub open spec fn system_path() -> Seq<char> {
    "/etc/waiting-for-a-signal/config.toml"@
}

pub open spec fn local_path() -> Seq<char> {
    "config.toml"@
}

/// Where the configuration is: behind `--config`, in the environment, or in one
/// of the two usual places if there is a file.
pub open spec fn config_path(
    args: Seq<Seq<char>>,
    env: Option<Seq<char>>,
    system_exists: bool,
    local_exists: bool,
) -> Option<Seq<char>> {
    if path_argument(args) is Some {
        path_argument(args)
    } else if env is Some {
        env
    } else if system_exists {
        Some(system_path())
    } else if local_exists {
        Some(local_path())
    } else {
        None
    }
}

/// Find the configuration. `env` is what `$WAITING_FOR_A_SIGNAL_CONFIG` holds;
/// the flags say whether there are files in the two usual places.
pub fn find_config_path(
    args: &Vec<String>,
    env: Option<String>,
    system_exists: bool,
    local_exists: bool,
) -> (r: Result<String, String>)
    ensures
        match r {
            Ok(path) => config_path(texts(args@), opt_text(env), system_exists, local_exists)
                == Some(path@),
            Err(msg) => {
                &&& config_path(
                    texts(args@),
                    opt_text(env),
                    system_exists,
                    local_exists,
                ) is None
                &&& msg@
                    == "No config file found. Provide one via --config <path>, $WAITING_FOR_A_SIGNAL_CONFIG, /etc/waiting-for-a-signal/config.toml, or ./config.toml. See config.example.toml for the expected format."@
            },
        },
{
    let k = position_of(args, "--config");
    if k < args.len() && args.len() - k > 1 {
        assert(texts(args@)[k + 1] == args@[k + 1]@);
        return Ok(args[k + 1].clone());
    }
    match env {
        Some(path) => {
            return Ok(path);
        },
        None => {},
    }
    if system_exists {
        return Ok("/etc/waiting-for-a-signal/config.toml".to_string());
    }
    if local_exists {
        return Ok("config.toml".to_string());
    }
    Err(
        "No config file found. Provide one via --config <path>, $WAITING_FOR_A_SIGNAL_CONFIG, /etc/waiting-for-a-signal/config.toml, or ./config.toml. See config.example.toml for the expected format.".to_string(),
    )
}

/// What is wrong with the configuration of the channels, if anything.
pub open spec fn channel_problem(
    telegram: Option<TelegramConfig>,
    twilio: Option<TwilioConfig>,
) -> Option<Seq<char>> {
    if telegram is None && twilio is None {
        Some(
            "At least one messaging channel must be configured. Add a [telegram] section, a [twilio] section, or both."@,
        )
    } else if telegram is Some && telegram->0.token@.len() == 0 {
        Some("[telegram] token must not be empty"@)
    } else if twilio is Some && twilio->0.account_sid@.len() == 0 {
        Some("[twilio] account_sid must not be empty"@)
    } else if twilio is Some && twilio->0.auth_token@.len() == 0 {
        Some("[twilio] auth_token must not be empty"@)
    } else if twilio is Some && twilio->0.from_number@.len() == 0 {
        Some("[twilio] from_number must not be empty"@)
    } else {
        None
    }
}

/// What is wrong with a configuration, if anything.
pub open spec fn problem(cfg: Config) -> Option<Seq<char>> {
    if channel_problem(cfg.telegram, cfg.twilio) is Some {
        channel_problem(cfg.telegram, cfg.twilio)
    } else if !cfg.darwin.simulate && cfg.darwin.token@.len() == 0 {
        Some(
            "[darwin] token must not be empty (or set simulate = true for local testing without a Darwin account)"@,
        )
    } else {
        None
    }
}

/// Whether a configuration can be used; what is wrong otherwise.
pub fn validate(cfg: &Config) -> (r: Result<(), String>)
    ensures
        match r {
            Ok(_) => problem(*cfg) is None,
            Err(msg) => problem(*cfg) == Some(msg@),
        },
{
    if cfg.telegram.is_none() && cfg.twilio.is_none() {
        return Err(
            "At least one messaging channel must be configured. Add a [telegram] section, a [twilio] section, or both.".to_string(),
        );
    }
    if let Some(tg) = &cfg.telegram {
        if tg.token.as_str().is_empty() {
            return Err("[telegram] token must not be empty".to_string());
        }
    }
    if let Some(tw) = &cfg.twilio {
        if tw.account_sid.as_str().is_empty() {
            return Err("[twilio] account_sid must not be empty".to_string());
        }
        if tw.auth_token.as_str().is_empty() {
            return Err("[twilio] auth_token must not be empty".to_string());
        }
        if tw.from_number.as_str().is_empty() {
            return Err("[twilio] from_number must not be empty".to_string());
        }
    }
    if !cfg.darwin.simulate && cfg.darwin.token.as_str().is_empty() {
        return Err(
            "[darwin] token must not be empty (or set simulate = true for local testing without a Darwin account)".to_string(),
        );
    }
    Ok(())
}

/// A path of the configuration as the machine takes it: whether it is absolute,
/// and what it comes to below the directory of the configuration file.
#[derive(Debug)]
pub struct PathFacts {
    pub absolute: bool,
    pub joined: String,
}

/// A relative path is one below the directory of the configuration file.
pub open spec fn resolved(p: Seq<char>, facts: PathFacts) -> Seq<char> {
    if facts.absolute {
        p
    } else {
        facts.joined@
    }
}

pub fn resolve(p: &str, facts: &PathFacts) -> (r: String)
    ensures
        r@ == resolved(p@, *facts),
{
    if facts.absolute {
        p.to_string()
    } else {
        facts.joined.clone()
    }
}

/// Resolve the paths of a configuration: the directory of the user files and
/// the list of stations.
pub fn resolve_paths(cfg: &mut Config, user_data_dir: &PathFacts, crs_csv_path: &PathFacts)
    ensures
        final(cfg).storage.user_data_dir@ == resolved(
            old(cfg).storage.user_data_dir@,
            *user_data_dir,
        ),
        final(cfg).assets.crs_csv_path@ == resolved(
            old(cfg).assets.crs_csv_path@,
            *crs_csv_path,
        ),
        *final(cfg) == (Config {
            storage: final(cfg).storage,
            assets: final(cfg).assets,
            ..*old(cfg)
        }),
{
    cfg.storage.user_data_dir = resolve(cfg.storage.user_data_dir.as_str(), user_data_dir);
    cfg.assets.crs_csv_path = resolve(cfg.assets.crs_csv_path.as_str(), crs_csv_path);
}

/// Whether anybody may read a file with these permissions.
pub fn is_world_readable(mode: u32) -> (r: bool)
    ensures
        r == (mode & 4 != 0),
{
    mode & 4 != 0
}

/// A valid configuration has a channel on which users can be reached.
pub proof fn valid_config_has_a_channel(cfg: Config)
    requires
        problem(cfg) is None,
    ensures
        (cfg.telegram is Some && cfg.telegram->0.token@.len() > 0) || (cfg.twilio is Some
            && cfg.twilio->0.account_sid@.len() > 0 && cfg.twilio->0.auth_token@.len() > 0
            && cfg.twilio->0.from_number@.len() > 0),
{
}

/// A configuration can be used if and only if a channel is configured, nothing that
/// a configured channel needs is empty, and there is a Darwin token or a simulator.
pub proof fn valid_configs_are_complete(cfg: Config)
    ensures
        problem(cfg) is None <==> {
            &&& cfg.telegram is Some || cfg.twilio is Some
            &&& cfg.telegram is Some ==> cfg.telegram->0.token@.len() > 0
            &&& cfg.twilio is Some ==> cfg.twilio->0.account_sid@.len() > 0
                && cfg.twilio->0.auth_token@.len() > 0 && cfg.twilio->0.from_number@.len() > 0
            &&& cfg.darwin.simulate || cfg.darwin.token@.len() > 0
        },
{
}

/// The argument behind the first `--config` wins over the environment, that over
/// the file of the system, and that over the one in the working directory.
pub proof fn nearer_configs_win(
    args: Seq<Seq<char>>,
    k: int,
    env: Option<Seq<char>>,
    system_exists: bool,
    local_exists: bool,
)
    ensures
        ({
            let r = config_path(args, env, system_exists, local_exists);
            &&& 0 <= k && k + 1 < args.len() && args[k] == "--config"@ && (forall|i: int|
                0 <= i < k ==> #[trigger] args[i] != "--config"@) ==> r == Some(args[k + 1])
            &&& !args.contains("--config"@) && env is Some ==> r == env
            &&& !args.contains("--config"@) && env is None && system_exists ==> r == Some(
                "/etc/waiting-for-a-signal/config.toml"@,
            )
            &&& !args.contains("--config"@) && env is None && !system_exists && local_exists ==> r
                == Some("config.toml"@)
            &&& r is None <==> path_argument(args) is None && env is None && !system_exists
                && !local_exists
        }),
{
    if 0 <= k && k + 1 < args.len() && args[k] == "--config"@ && (forall|i: int|
        0 <= i < k ==> #[trigger] args[i] != "--config"@) {
        lemma_text_position_is(args, "--config"@, k);
    }
    if !args.contains("--config"@) {
        assert forall|i: int| 0 <= i < args.len() implies #[trigger] args[i] != "--config"@ by {
            if args[i] == "--config"@ {
                assert(args.contains("--config"@));
            }
        }
        lemma_text_position_is(args, "--config"@, args.len() as int);
    }
}

/// An absolute path stays as it is, and a relative one is joined.
pub proof fn absolute_paths_stay(p: Seq<char>, facts: PathFacts)
    ensures
        facts.absolute ==> resolved(p, facts) == p,
        !facts.absolute ==> resolved(p, facts) == facts.joined@,
{
}

} // verus!
