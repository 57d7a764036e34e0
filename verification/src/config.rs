//! The configuration: environment variables over the configuration file over defaults.

use crate::breaker::CircuitBreakerConfig;
use crate::crypto::hex_encode;
use crate::float_bits::{greater, is_greater};
use crate::numbers::{hex_text, number, parse_u32, parse_u64};
use crate::text::{same_text, texts};
use crate::whitelist::{
    all_cidr, compiles_to, file_ips, file_paths, FileWhitelist, Whitelist, WhitelistError,
};
use vstd::prelude::*;

verus! {

/// The bits of one half, the default of `trip_above` in seconds.
pub const DEFAULT_TRIP_ABOVE: u64 = 0x3fe0_0000_0000_0000;

/// The bits of one quarter, the default of `reset_below` in seconds.
pub const DEFAULT_RESET_BELOW: u64 = 0x3fd0_0000_0000_0000;

/// The bits of fifty, the default of `smoothing`.
pub const DEFAULT_SMOOTHING: u64 = 0x4049_0000_0000_0000;

/// The bits of sixty, the default of `min_open_duration` and `backoff_half_life` in seconds.
pub const DEFAULT_MINUTE: u64 = 0x404e_0000_0000_0000;

/// The default difficulty.
pub const DEFAULT_DIFFICULTY: u32 = 20;

/// The default lifetime of a token, in seconds: a week.
pub const DEFAULT_TOKEN_LIFETIME: u64 = 604800;

/// The configuration.
pub struct Config {
    /// The address to listen on.
    pub bind: String,
    /// The URI of the upstream service.
    pub target: String,
    /// The authority in that URI.
    pub target_authority: String,
    pub access_log: Option<String>,
    pub circuit_breaker: CircuitBreakerConfig,
    pub challenge_all: bool,
    pub difficulty: u32,
    /// The secret that puzzle and token keys are derived from.
    pub token_secret: String,
    /// How long a token and its cookie remain valid, in seconds.
    pub token_lifetime: u64,
    pub whitelist: Whitelist,
}

/// The environment variables that configure the proxy, as far as they are set.
#[derive(Debug)]
pub struct Environment {
    pub target: Option<String>,
    pub bind: Option<String>,
    pub access_log: Option<String>,
    pub challenge_all: Option<String>,
    pub difficulty: Option<String>,
    pub token_secret: Option<String>,
    pub token_lifetime: Option<String>,
}

/// The configuration file. Every field is optional.
#[derive(Debug)]
pub struct FileConfig {
    pub bind: Option<String>,
    pub target: Option<String>,
    pub access_log: Option<String>,
    pub challenge_all: Option<bool>,
    pub difficulty: Option<u32>,
    pub token_secret: Option<String>,
    pub token_lifetime: Option<u64>,
    pub circuit_breaker: Option<FileCircuitBreaker>,
    pub whitelist: Option<FileWhitelist>,
}

/// The `[circuit_breaker]` section of the configuration file, as bits of floating-point numbers.
#[derive(Clone, Copy, Debug)]
pub struct FileCircuitBreaker {
    pub trip_above: Option<u64>,
    pub reset_below: Option<u64>,
    pub smoothing: Option<u64>,
    pub min_open_duration: Option<u64>,
    pub backoff_half_life: Option<u64>,
}

impl Default for FileCircuitBreaker {
    /// Nothing is set.
    fn default() -> (r: Self)
        ensures
            r == (FileCircuitBreaker {
                trip_above: None,
                reset_below: None,
                smoothing: None,
                min_open_duration: None,
                backoff_half_life: None,
            }),
    {
        FileCircuitBreaker {
            trip_above: None,
            reset_below: None,
            smoothing: None,
            min_open_duration: None,
            backoff_half_life: None,
        }
    }
}

/// A variable whose value has to be read.
#[derive(Clone, Copy, Debug, PartialEq, Eq, Structural)]
pub enum Variable {
    ChallengeAll,
    Difficulty,
    TokenLifetime,
}

/// Why there is no configuration.
#[derive(Debug)]
pub enum ConfigError {
    /// The target is not a URI with a host.
    InvalidTarget,
    /// `reset_below` is not less than `trip_above`.
    InvalidThresholds { reset_below: u64, trip_above: u64 },
    /// A variable has a value that cannot be read.
    InvalidValue(Variable, String),
    /// No random secret could be made.
    NoRandomSecret,
    /// The whitelist is invalid.
    InvalidWhitelist(WhitelistError),
}

// ------------------------------------------------------------------------------------------
// Values
// ------------------------------------------------------------------------------------------

/// The text of an optional string.
pub open spec fn opt_text(s: Option<String>) -> Option<Seq<char>> {
    match s {
        Some(t) => Some(t@),
        None => None,
    }
}

/// The truth value that a text stands for.
pub open spec fn bool_of(text: Seq<char>) -> Option<bool> {
    if text == "true"@ {
        Some(true)
    } else if text == "false"@ {
        Some(false)
    } else {
        None
    }
}

/// A text setting: the variable, or else the file, or else the default.
pub open spec fn text_setting(
    variable: Option<String>,
    file: Option<String>,
    default: Seq<char>,
) -> Seq<char> {
    match variable {
        Some(v) => v@,
        None => match file {
            Some(f) => f@,
            None => default,
        },
    }
}

/// A number setting: the variable, or else the file, or else the default. There is none where the
/// variable is no number up to `max`.
pub open spec fn number_setting(
    variable: Option<String>,
    file: Option<int>,
    default: int,
    max: int,
) -> Option<int> {
    match variable {
        Some(v) => number(v@, 10, max),
        None => match file {
            Some(f) => Some(f),
            None => Some(default),
        },
    }
}

/// A truth value setting: the variable, or else the file, or else the default. There is none where
/// the variable is no truth value.
pub open spec fn bool_setting(
    variable: Option<String>,
    file: Option<bool>,
    default: bool,
) -> Option<bool> {
    match variable {
        Some(v) => bool_of(v@),
        None => match file {
            Some(f) => Some(f),
            None => Some(default),
        },
    }
}

/// A value of the file, or else the default.
pub open spec fn or_default(file: Option<u64>, default: u64) -> u64 {
    match file {
        Some(f) => f,
        None => default,
    }
}

/// The settings of the circuit breaker that a file gives.
pub open spec fn breaker_settings(file: Option<FileCircuitBreaker>) -> CircuitBreakerConfig {
    let f = match file {
        Some(f) => f,
        None => FileCircuitBreaker {
            trip_above: None,
            reset_below: None,
            smoothing: None,
            min_open_duration: None,
            backoff_half_life: None,
        },
    };
    CircuitBreakerConfig {
        reset_below: or_default(f.reset_below, DEFAULT_RESET_BELOW),
        trip_above: or_default(f.trip_above, DEFAULT_TRIP_ABOVE),
        min_open_duration: or_default(f.min_open_duration, DEFAULT_MINUTE),
        backoff_half_life: or_default(f.backoff_half_life, DEFAULT_MINUTE),
        smoothing: or_default(f.smoothing, DEFAULT_SMOOTHING),
    }
}

/// The truth value that a text stands for.
pub fn parse_bool(text: &str) -> (r: Option<bool>)
    ensures
        r == bool_of(text@),
{
    if same_text(text, "true") {
        Some(true)
    } else if same_text(text, "false") {
        Some(false)
    } else {
        None
    }
}

/// A text setting.
fn resolve_text(variable: Option<String>, file: Option<String>, default: &str) -> (r: String)
    ensures
        r@ == text_setting(variable, file, default@),
{
    match variable {
        Some(v) => v,
        None => match file {
            Some(f) => f,
            None => default.to_owned(),
        },
    }
}

/// A 32-bit setting, or the value that could not be read.
fn resolve_u32(variable: Option<String>, file: Option<u32>, default: u32) -> (r: Result<
    u32,
    String,
>)
    ensures
        ({
            let from_file = match file {
                Some(f) => Some(f as int),
                None => None,
            };
            let setting = number_setting(variable, from_file, default as int, u32::MAX as int);
            match r {
                Ok(n) => setting == Some(n as int),
                Err(v) => setting is None && variable == Some(v),
            }
        }),
{
    match variable {
        Some(v) => match parse_u32(v.as_str()) {
            Some(n) => Ok(n),
            None => Err(v),
        },
        None => match file {
            Some(f) => Ok(f),
            None => Ok(default),
        },
    }
}

/// A 64-bit setting, or the value that could not be read.
fn resolve_u64(variable: Option<String>, file: Option<u64>, default: u64) -> (r: Result<
    u64,
    String,
>)
    ensures
        ({
            let from_file = match file {
                Some(f) => Some(f as int),
                None => None,
            };
            let setting = number_setting(variable, from_file, default as int, u64::MAX as int);
            match r {
                Ok(n) => setting == Some(n as int),
                Err(v) => setting is None && variable == Some(v),
            }
        }),
{
    match variable {
        Some(v) => match parse_u64(v.as_str()) {
            Some(n) => Ok(n),
            None => Err(v),
        },
        None => match file {
            Some(f) => Ok(f),
            None => Ok(default),
        },
    }
}

/// A truth value setting, or the value that could not be read.
fn resolve_bool(variable: Option<String>, file: Option<bool>, default: bool) -> (r: Result<
    bool,
    String,
>)
    ensures
        match r {
            Ok(b) => bool_setting(variable, file, default) == Some(b),
            Err(v) => bool_setting(variable, file, default) is None && variable == Some(v),
        },
{
    match variable {
        Some(v) => match parse_bool(v.as_str()) {
            Some(b) => Ok(b),
            None => Err(v),
        },
        None => match file {
            Some(f) => Ok(f),
            None => Ok(default),
        },
    }
}

/// A value of the file, or else the default.
fn with_default(file: Option<u64>, default: u64) -> (r: u64)
    ensures
        r == or_default(file, default),
{
    match file {
        Some(f) => f,
        None => default,
    }
}

/// The settings of the circuit breaker.
pub fn resolve_breaker(file: Option<FileCircuitBreaker>) -> (r: CircuitBreakerConfig)
    ensures
        r == breaker_settings(file),
{
    let f = match file {
        Some(f) => f,
        None => FileCircuitBreaker::default(),
    };
    CircuitBreakerConfig::new(
        with_default(f.trip_above, DEFAULT_TRIP_ABOVE),
        with_default(f.reset_below, DEFAULT_RESET_BELOW),
        with_default(f.smoothing, DEFAULT_SMOOTHING),
        with_default(f.min_open_duration, DEFAULT_MINUTE),
        with_default(f.backoff_half_life, DEFAULT_MINUTE),
    )
}

/// The path of the configuration file: what the variable `HEAVY_CONFIG` says, or the usual one.
pub fn config_path(variable: Option<String>) -> (r: String)
    ensures
        r@ == text_setting(variable, None, "/etc/heavy/config.toml"@),
{
    resolve_text(variable, None, "/etc/heavy/config.toml")
}

// ------------------------------------------------------------------------------------------
// Target and secret
// ------------------------------------------------------------------------------------------

/// A URI that a text stands for: its text, and its authority, where it has one.
pub uninterp spec fn uri_of_text(text: Seq<char>) -> Option<(Seq<char>, Option<Seq<char>>)>;

/// `hyper::Uri::from_str`, with the `Display` and the authority of its result. What it accepts is
/// named, not spelled out.
#[verifier::external_body]
fn parse_uri(text: &str) -> (r: Option<(String, Option<String>)>)
    ensures
        match r {
            Some((uri, authority)) => uri_of_text(text@) == Some((uri@, opt_text(authority))),
            None => uri_of_text(text@) is None,
        },
{
    let uri = text.parse::<hyper::Uri>().ok()?;
    Some((uri.to_string(), uri.authority().map(|authority| authority.as_str().to_owned())))
}

/// The target and its authority, from what parsing it gave.
pub fn target_of(parsed: Option<(String, Option<String>)>) -> (r: Option<(String, String)>)
    ensures
        match r {
            Some((target, authority)) => parsed == Some((target, Some(authority))),
            None => parsed matches Some((_, authority)) ==> authority is None,
        },
{
    match parsed {
        Some((target, Some(authority))) => Some((target, authority)),
        _ => None,
    }
}

/// `getrandom::fill` on sixteen bytes. Nothing can be said of the bytes.
#[verifier::external_body]
fn random_bytes() -> (r: Option<[u8; 16]>) {
    let mut bytes = [0u8; 16];
    getrandom::fill(&mut bytes).ok()?;
    Some(bytes)
}

/// A secret made of random bytes.
pub fn secret_of(bytes: &[u8; 16]) -> (r: String)
    ensures
        r@ == hex_text(bytes@),
{
    hex_encode(bytes.as_slice())
}

/// The secret that the outcome of asking for random bytes gives: there is one exactly where there
/// are bytes.
pub open spec fn secret_text(bytes: Option<[u8; 16]>) -> Option<Seq<char>> {
    match bytes {
        Some(b) => Some(hex_text(b@)),
        None => None,
    }
}

/// The secret that the outcome of asking for random bytes gives.
pub fn secret_from(bytes: Option<[u8; 16]>) -> (r: Option<String>)
    ensures
        opt_text(r) == secret_text(bytes),
{
    match bytes {
        Some(b) => Some(secret_of(&b)),
        None => None,
    }
}

/// Makes a random secret, for when none is configured. Tokens signed with it do not survive a
/// restart. There is none where the system gives no random bytes; when that is, and which bytes it
/// gives, depends on the system alone.
pub fn gen_secret() -> (r: Option<String>)
    ensures
        exists|bytes: Option<[u8; 16]>| opt_text(r) == #[trigger] secret_text(bytes),
{
    secret_from(random_bytes())
}

/// Whether no secret is configured.
pub open spec fn lacks_secret(env: Environment, file: FileConfig) -> bool {
    env.token_secret is None && file.token_secret is None
}

/// Whether no secret is configured, so that a random one has to be made.
pub fn needs_secret(env: &Environment, file: &FileConfig) -> (r: bool)
    ensures
        r == lacks_secret(*env, *file),
{
    env.token_secret.is_none() && file.token_secret.is_none()
}

// ------------------------------------------------------------------------------------------
// Loading
// ------------------------------------------------------------------------------------------

/// The target setting, as a text.
pub open spec fn target_setting(env: Environment, file: FileConfig) -> Seq<char> {
    text_setting(env.target, file.target, "http://localhost:3011"@)
}

/// The setting `challenge_all`.
pub open spec fn challenge_all_setting(env: Environment, file: FileConfig) -> Option<bool> {
    bool_setting(env.challenge_all, file.challenge_all, false)
}

/// The setting `difficulty`.
pub open spec fn difficulty_setting(env: Environment, file: FileConfig) -> Option<int> {
    number_setting(
        env.difficulty,
        match file.difficulty {
            Some(d) => Some(d as int),
            None => None,
        },
        DEFAULT_DIFFICULTY as int,
        u32::MAX as int,
    )
}

/// The setting `token_lifetime`.
pub open spec fn token_lifetime_setting(env: Environment, file: FileConfig) -> Option<int> {
    number_setting(
        env.token_lifetime,
        match file.token_lifetime {
            Some(l) => Some(l as int),
            None => None,
        },
        DEFAULT_TOKEN_LIFETIME as int,
        u64::MAX as int,
    )
}

/// Whether a configuration is the one that the environment and the file give, with a random secret
/// where none is configured. The whitelist is left aside.
pub open spec fn is_configured(
    env: Environment,
    file: FileConfig,
    generated: Option<Seq<char>>,
    c: Config,
) -> bool {
    &&& uri_of_text(target_setting(env, file)) == Some((c.target@, Some(c.target_authority@)))
    &&& c.bind@ == text_setting(env.bind, file.bind, "0.0.0.0:8011"@)
    &&& c.access_log == (if env.access_log is Some {
        env.access_log
    } else {
        file.access_log
    })
    &&& c.circuit_breaker == breaker_settings(file.circuit_breaker)
    &&& Some(c.challenge_all) == challenge_all_setting(env, file)
    &&& Some(c.difficulty as int) == difficulty_setting(env, file)
    &&& if lacks_secret(env, file) {
        generated == Some(c.token_secret@)
    } else {
        c.token_secret@ == text_setting(env.token_secret, file.token_secret, Seq::empty())
    }
    &&& Some(c.token_lifetime as int) == token_lifetime_setting(env, file)
}

/// The outcome of loading the configuration. Of several faults the first one counts, in the order
/// of the cases here.
pub open spec fn loads(
    env: Environment,
    file: FileConfig,
    generated: Option<Seq<char>>,
    r: Result<Config, ConfigError>,
) -> bool {
    let breaker = breaker_settings(file.circuit_breaker);
    let uri = uri_of_text(target_setting(env, file));
    if uri is None || uri.unwrap().1 is None {
        r matches Err(ConfigError::InvalidTarget)
    } else if !greater(breaker.trip_above, breaker.reset_below) {
        r matches Err(ConfigError::InvalidThresholds { reset_below, trip_above }) && reset_below
            == breaker.reset_below && trip_above == breaker.trip_above
    } else if challenge_all_setting(env, file) is None {
        r matches Err(ConfigError::InvalidValue(Variable::ChallengeAll, value)) && Some(value)
            == env.challenge_all
    } else if difficulty_setting(env, file) is None {
        r matches Err(ConfigError::InvalidValue(Variable::Difficulty, value)) && Some(value)
            == env.difficulty
    } else if lacks_secret(env, file) && generated is None {
        r matches Err(ConfigError::NoRandomSecret)
    } else if token_lifetime_setting(env, file) is None {
        r matches Err(ConfigError::InvalidValue(Variable::TokenLifetime, value)) && Some(value)
            == env.token_lifetime
    } else {
        let paths = texts(file_paths(file.whitelist));
        let ips = texts(file_ips(file.whitelist));
        match r {
            Ok(c) => compiles_to(paths, ips, Ok(c.whitelist)) && is_configured(
                env,
                file,
                generated,
                c,
            ),
            Err(ConfigError::InvalidWhitelist(e)) => compiles_to(paths, ips, Err(e)),
            Err(_) => false,
        }
    }
}

/// Loads the configuration, with the given secret for where none is configured.
pub fn load_with(env: Environment, file: FileConfig, generated: Option<String>) -> (r: Result<
    Config,
    ConfigError,
>)
    ensures
        loads(env, file, opt_text(generated), r),
{
    let lacking = needs_secret(&env, &file);
    let target = resolve_text(env.target, file.target, "http://localhost:3011");
    let (target, target_authority) = match target_of(parse_uri(target.as_str())) {
        Some(parts) => parts,
        None => {
            return Err(ConfigError::InvalidTarget);
        },
    };
    let circuit_breaker = resolve_breaker(file.circuit_breaker);
    if !is_greater(circuit_breaker.trip_above, circuit_breaker.reset_below) {
        return Err(
            ConfigError::InvalidThresholds {
                reset_below: circuit_breaker.reset_below,
                trip_above: circuit_breaker.trip_above,
            },
        );
    }
    let bind = resolve_text(env.bind, file.bind, "0.0.0.0:8011");
    let access_log = match env.access_log {
        Some(path) => Some(path),
        None => file.access_log,
    };
    let challenge_all = match resolve_bool(env.challenge_all, file.challenge_all, false) {
        Ok(b) => b,
        Err(value) => {
            return Err(ConfigError::InvalidValue(Variable::ChallengeAll, value));
        },
    };
    let difficulty = match resolve_u32(env.difficulty, file.difficulty, DEFAULT_DIFFICULTY) {
        Ok(d) => d,
        Err(value) => {
            return Err(ConfigError::InvalidValue(Variable::Difficulty, value));
        },
    };
    let token_secret = if lacking {
        match generated {
            Some(secret) => secret,
            None => {
                return Err(ConfigError::NoRandomSecret);
            },
        }
    } else {
        resolve_text(env.token_secret, file.token_secret, "")
    };
    let token_lifetime = match resolve_u64(
        env.token_lifetime,
        file.token_lifetime,
        DEFAULT_TOKEN_LIFETIME,
    ) {
        Ok(l) => l,
        Err(value) => {
            return Err(ConfigError::InvalidValue(Variable::TokenLifetime, value));
        },
    };
    let whitelist = match Whitelist::from_config(file.whitelist) {
        Ok(w) => w,
        Err(e) => {
            return Err(ConfigError::InvalidWhitelist(e));
        },
    };
    Ok(
        Config {
            bind,
            target,
            target_authority,
            access_log,
            circuit_breaker,
            challenge_all,
            difficulty,
            token_secret,
            token_lifetime,
            whitelist,
        },
    )
}

/// Loads the configuration.
///
/// Environment variables take precedence over the file, which takes precedence over the defaults.
/// Where no secret is configured, a random one is made.
pub fn load(env: Environment, file: FileConfig) -> (r: Result<Config, ConfigError>)
    ensures
        exists|generated: Option<Seq<char>>| #[trigger]
            loads(env, file, generated, r) && (generated matches Some(secret) ==> exists|
                bytes: [u8; 16],
            | secret == #[trigger] hex_text(bytes@)),
{
    let generated = if needs_secret(&env, &file) {
        gen_secret()
    } else {
        None
    };
    let ghost text = opt_text(generated);
    let r = load_with(env, file, generated);
    assert(loads(env, file, text, r));
    r
}

// ------------------------------------------------------------------------------------------
// Laws
// ------------------------------------------------------------------------------------------

/// An environment variable decides alone: whatever the file says, a configuration that loads has
/// the setting of the variable.
pub proof fn law_environment_decides(
    env: Environment,
    file: FileConfig,
    other: FileConfig,
    generated: Option<Seq<char>>,
    c: Config,
    d: Config,
)
    requires
        loads(env, file, generated, Ok(c)),
        loads(env, other, generated, Ok(d)),
    ensures
        env.target is Some ==> c.target@ == d.target@ && c.target_authority@
            == d.target_authority@,
        env.bind matches Some(v) ==> c.bind@ == v@ && d.bind@ == v@,
        env.access_log is Some ==> c.access_log == env.access_log && d.access_log == env.access_log,
        env.challenge_all matches Some(v) ==> bool_of(v@) == Some(c.challenge_all) && bool_of(v@)
            == Some(d.challenge_all),
        env.difficulty matches Some(v) ==> number(v@, 10, u32::MAX as int) == Some(
            c.difficulty as int,
        ) && c.difficulty == d.difficulty,
        env.token_secret matches Some(v) ==> c.token_secret@ == v@ && d.token_secret@ == v@,
        env.token_lifetime matches Some(v) ==> number(v@, 10, u64::MAX as int) == Some(
            c.token_lifetime as int,
        ) && c.token_lifetime == d.token_lifetime,
{
}

/// Where no variable is set, the file decides, and the default counts only where the file has
/// nothing either.
pub proof fn law_file_goes_before_default(
    env: Environment,
    file: FileConfig,
    generated: Option<Seq<char>>,
    c: Config,
)
    requires
        loads(env, file, generated, Ok(c)),
    ensures
        env.bind is None ==> c.bind@ == match file.bind {
            Some(v) => v@,
            None => "0.0.0.0:8011"@,
        },
        env.access_log is None ==> c.access_log == file.access_log,
        env.challenge_all is None ==> c.challenge_all == match file.challenge_all {
            Some(v) => v,
            None => false,
        },
        env.difficulty is None ==> c.difficulty == match file.difficulty {
            Some(v) => v,
            None => DEFAULT_DIFFICULTY,
        },
        env.token_secret is None ==> c.token_secret@ == match file.token_secret {
            Some(v) => v@,
            None => generated.unwrap(),
        },
        env.token_lifetime is None ==> c.token_lifetime == match file.token_lifetime {
            Some(v) => v,
            None => DEFAULT_TOKEN_LIFETIME,
        },
{
}

/// Every configuration that loads has the threshold for resetting below that for tripping.
pub proof fn law_loaded_thresholds_are_apart(
    env: Environment,
    file: FileConfig,
    generated: Option<Seq<char>>,
    c: Config,
)
    requires
        loads(env, file, generated, Ok(c)),
    ensures
        greater(c.circuit_breaker.trip_above, c.circuit_breaker.reset_below),
{
}

/// A whitelist without path patterns is no hindrance where its blocks are in CIDR notation: with
/// nothing else wrong, the configuration loads.
pub proof fn law_loads_without_patterns(
    env: Environment,
    file: FileConfig,
    generated: Option<Seq<char>>,
    r: Result<Config, ConfigError>,
)
    requires
        loads(env, file, generated, r),
        uri_of_text(target_setting(env, file)) matches Some((_, authority)) && authority is Some,
        greater(
            breaker_settings(file.circuit_breaker).trip_above,
            breaker_settings(file.circuit_breaker).reset_below,
        ),
        challenge_all_setting(env, file) is Some,
        difficulty_setting(env, file) is Some,
        lacks_secret(env, file) ==> generated is Some,
        token_lifetime_setting(env, file) is Some,
        file_paths(file.whitelist).len() == 0,
        all_cidr(texts(file_ips(file.whitelist)), file_ips(file.whitelist).len() as int),
    ensures
        r is Ok,
{
}

/// The default thresholds are apart, so a configuration without a breaker section is not refused
/// for it.
pub proof fn law_default_thresholds_are_apart()
    ensures
        greater(breaker_settings(None).trip_above, breaker_settings(None).reset_below),
{
}

/// When a configuration is refused, and for what: a target without a host first, then thresholds
/// that are not apart, then a value of `CHALLENGE_ALL` that is neither `true` nor `false`, then a
/// value of `DIFFICULTY` that is no number of 32 bits, then a secret that is neither configured nor
/// made, then a value of `TOKEN_LIFETIME` that is no number of 64 bits, and last the whitelist. A
/// value that is refused is told. Where none of this holds, the configuration loads.
pub proof fn law_faults_are_refused(
    env: Environment,
    file: FileConfig,
    generated: Option<String>,
    r: Result<Config, ConfigError>,
    whitelist: Result<Whitelist, WhitelistError>,
)
    requires
        call_ensures(load_with, (env, file, generated), r),
        call_ensures(Whitelist::from_config, (file.whitelist,), whitelist),
    ensures
        ({
            let target = match env.target {
                Some(v) => v@,
                None => match file.target {
                    Some(v) => v@,
                    None => "http://localhost:3011"@,
                },
            };
            let trip_above = match file.circuit_breaker {
                Some(FileCircuitBreaker { trip_above: Some(v), .. }) => v,
                _ => 0x3fe0_0000_0000_0000u64,
            };
            let reset_below = match file.circuit_breaker {
                Some(FileCircuitBreaker { reset_below: Some(v), .. }) => v,
                _ => 0x3fd0_0000_0000_0000u64,
            };
            let no_target = uri_of_text(target) is None || uri_of_text(target).unwrap().1 is None;
            let no_gap = !greater(trip_above, reset_below);
            let no_truth = env.challenge_all matches Some(v) && v@ != "true"@ && v@ != "false"@;
            let no_difficulty = env.difficulty matches Some(v) && number(
                v@,
                10,
                0xffff_ffff,
            ) is None;
            let no_secret = env.token_secret is None && file.token_secret is None
                && generated is None;
            let no_lifetime = env.token_lifetime matches Some(v) && number(
                v@,
                10,
                0xffff_ffff_ffff_ffff,
            ) is None;
            let e1 = no_target;
            let e2 = e1 || no_gap;
            let e3 = e2 || no_truth;
            let e4 = e3 || no_difficulty;
            let e5 = e4 || no_secret;
            let e6 = e5 || no_lifetime;
            &&& (r matches Err(ConfigError::InvalidTarget)) <==> e1
            &&& (r matches Err(ConfigError::InvalidThresholds { .. })) <==> !e1 && no_gap
            &&& r matches Err(ConfigError::InvalidThresholds { reset_below: low, trip_above: high })
                ==> low == reset_below && high == trip_above
            &&& (r matches Err(ConfigError::InvalidValue(Variable::ChallengeAll, _))) <==> !e2
                && no_truth
            &&& r matches Err(ConfigError::InvalidValue(Variable::ChallengeAll, v)) ==> Some(v)
                == env.challenge_all
            &&& (r matches Err(ConfigError::InvalidValue(Variable::Difficulty, _))) <==> !e3
                && no_difficulty
            &&& r matches Err(ConfigError::InvalidValue(Variable::Difficulty, v)) ==> Some(v)
                == env.difficulty
            &&& (r matches Err(ConfigError::NoRandomSecret)) <==> !e4 && no_secret
            &&& (r matches Err(ConfigError::InvalidValue(Variable::TokenLifetime, _))) <==> !e5
                && no_lifetime
            &&& r matches Err(ConfigError::InvalidValue(Variable::TokenLifetime, v)) ==> Some(v)
                == env.token_lifetime
            &&& (r matches Err(ConfigError::InvalidWhitelist(_))) <==> !e6 && whitelist is Err
            &&& r is Ok <==> !e6 && whitelist is Ok
        }),
{
    lemma_one_outcome(
        texts(file_paths(file.whitelist)),
        texts(file_ips(file.whitelist)),
        whitelist,
        match r {
            Ok(c) => Ok(c.whitelist),
            Err(ConfigError::InvalidWhitelist(e)) => Err(e),
            _ => whitelist,
        },
    );
}

/// Rules either compile or do not.
proof fn lemma_one_outcome(
    paths: Seq<Seq<char>>,
    ips: Seq<Seq<char>>,
    one: Result<Whitelist, WhitelistError>,
    other: Result<Whitelist, WhitelistError>,
)
    requires
        compiles_to(paths, ips, one),
        compiles_to(paths, ips, other),
    ensures
        one is Ok <==> other is Ok,
{
}

/// What a configuration that loads holds: of each setting the variable, or else what the file says,
/// or else the default.
pub proof fn law_settings_are_resolved(
    env: Environment,
    file: FileConfig,
    generated: Option<String>,
    c: Config,
)
    requires
        call_ensures(load_with, (env, file, generated), Ok(c)),
    ensures
        ({
            let target = match env.target {
                Some(v) => v@,
                None => match file.target {
                    Some(v) => v@,
                    None => "http://localhost:3011"@,
                },
            };
            uri_of_text(target) == Some((c.target@, Some(c.target_authority@)))
        }),
        c.bind@ == match env.bind {
            Some(v) => v@,
            None => match file.bind {
                Some(v) => v@,
                None => "0.0.0.0:8011"@,
            },
        },
        c.access_log == match env.access_log {
            Some(v) => Some(v),
            None => file.access_log,
        },
        c.challenge_all == match env.challenge_all {
            Some(v) => v@ == "true"@,
            None => match file.challenge_all {
                Some(v) => v,
                None => false,
            },
        },
        Some(c.difficulty as int) == match env.difficulty {
            Some(v) => number(v@, 10, 0xffff_ffff),
            None => match file.difficulty {
                Some(v) => Some(v as int),
                None => Some(20),
            },
        },
        c.token_secret@ == match env.token_secret {
            Some(v) => v@,
            None => match file.token_secret {
                Some(v) => v@,
                None => generated.unwrap()@,
            },
        },
        Some(c.token_lifetime as int) == match env.token_lifetime {
            Some(v) => number(v@, 10, 0xffff_ffff_ffff_ffff),
            None => match file.token_lifetime {
                Some(v) => Some(v as int),
                None => Some(604800),
            },
        },
        ({
            let f = match file.circuit_breaker {
                Some(f) => f,
                None => FileCircuitBreaker {
                    trip_above: None,
                    reset_below: None,
                    smoothing: None,
                    min_open_duration: None,
                    backoff_half_life: None,
                },
            };
            &&& f.trip_above matches Some(v) ==> c.circuit_breaker.trip_above == v
            &&& f.trip_above is None ==> c.circuit_breaker.trip_above == 0x3fe0_0000_0000_0000
            &&& f.reset_below matches Some(v) ==> c.circuit_breaker.reset_below == v
            &&& f.reset_below is None ==> c.circuit_breaker.reset_below == 0x3fd0_0000_0000_0000
            &&& f.smoothing matches Some(v) ==> c.circuit_breaker.smoothing == v
            &&& f.smoothing is None ==> c.circuit_breaker.smoothing == 0x4049_0000_0000_0000
            &&& f.min_open_duration matches Some(v) ==> c.circuit_breaker.min_open_duration == v
            &&& f.min_open_duration is None ==> c.circuit_breaker.min_open_duration
                == 0x404e_0000_0000_0000
            &&& f.backoff_half_life matches Some(v) ==> c.circuit_breaker.backoff_half_life == v
            &&& f.backoff_half_life is None ==> c.circuit_breaker.backoff_half_life
                == 0x404e_0000_0000_0000
        }),
        compiles_to(
            texts(
                match file.whitelist {
                    Some(FileWhitelist { path: Some(list), .. }) => list@,
                    _ => Seq::empty(),
                },
            ),
            texts(
                match file.whitelist {
                    Some(FileWhitelist { ip: Some(list), .. }) => list@,
                    _ => Seq::empty(),
                },
            ),
            Ok(c.whitelist),
        ),
{
    reveal_strlit("true");
    reveal_strlit("false");
    assert("true"@.len() != "false"@.len());
}

/// Loading asks for a random secret where none is configured, and otherwise does what loading with
/// one does; a secret is made of random bytes, two digits for each; and the smaller parts of
/// loading do what they say.
pub proof fn law_loading_makes_a_secret(
    env: Environment,
    file: FileConfig,
    r: Result<Config, ConfigError>,
    needed: bool,
    bytes: [u8; 16],
    outcome: Option<[u8; 16]>,
    secret: String,
    made: Option<String>,
    variable: Option<String>,
    path: String,
    text: &str,
    truth: Option<bool>,
    parsed: Option<(String, Option<String>)>,
    target: Option<(String, String)>,
)
    requires
        call_ensures(load, (env, file), r),
        call_ensures(needs_secret, (&env, &file), needed),
        call_ensures(secret_of, (&bytes,), secret),
        call_ensures(secret_from, (outcome,), made),
        call_ensures(config_path, (variable,), path),
        call_ensures(parse_bool, (text,), truth),
        call_ensures(target_of, (parsed,), target),
    ensures
        exists|generated: Option<Seq<char>>| #[trigger]
            loads(env, file, generated, r) && (generated matches Some(s) ==> exists|b: [u8; 16]|
                s == #[trigger] hex_text(b@)),
        needed <==> env.token_secret is None && file.token_secret is None,
        secret@ == hex_text(bytes@),
        outcome matches Some(b) ==> made is Some && made.unwrap()@ == hex_text(b@),
        outcome is None ==> made is None,
        variable matches Some(v) ==> path@ == v@,
        variable is None ==> path@ == "/etc/heavy/config.toml"@,
        truth is Some <==> text@ == "true"@ || text@ == "false"@,
        truth matches Some(b) ==> (b <==> text@ == "true"@),
        target is Some <==> parsed is Some && parsed.unwrap().1 is Some,
        target matches Some((uri, authority)) ==> parsed == Some((uri, Some(authority))),
{
    reveal_strlit("true");
    reveal_strlit("false");
    assert("true"@.len() != "false"@.len());
}

} // verus!
