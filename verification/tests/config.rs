use heavy::config::{
    config_path, gen_secret, load, load_with, needs_secret, parse_bool, secret_from, secret_of, target_of,
    Config, ConfigError, Environment, FileCircuitBreaker, FileConfig, Variable,
};
use heavy::ip::IpAddr;
use heavy::whitelist::{FileWhitelist, WhitelistError};

fn no_env() -> Environment {
    Environment {
        target: None,
        bind: None,
        access_log: None,
        challenge_all: None,
        difficulty: None,
        token_secret: None,
        token_lifetime: None,
    }
}

fn no_file() -> FileConfig {
    FileConfig {
        bind: None,
        target: None,
        access_log: None,
        challenge_all: None,
        difficulty: None,
        token_secret: None,
        token_lifetime: None,
        circuit_breaker: None,
        whitelist: None,
    }
}

fn full_file() -> FileConfig {
    FileConfig {
        bind: Some("127.0.0.1:1".into()),
        target: Some("https://file.example:81/base?q".into()),
        access_log: Some("/var/log/file".into()),
        challenge_all: Some(true),
        difficulty: Some(7),
        token_secret: Some("file secret".into()),
        token_lifetime: Some(70),
        circuit_breaker: Some(FileCircuitBreaker {
            trip_above: Some(2.0_f64.to_bits()),
            reset_below: Some(1.0_f64.to_bits()),
            smoothing: Some(10.0_f64.to_bits()),
            min_open_duration: Some(30.0_f64.to_bits()),
            backoff_half_life: Some(20.0_f64.to_bits()),
        }),
        whitelist: Some(FileWhitelist {
            path: Some(vec!["^/free$".into()]),
            ip: None,
            includes: None,
        }),
    }
}

fn loaded(env: Environment, file: FileConfig) -> Config {
    match load_with(env, file, None) {
        Ok(config) => config,
        Err(e) => panic!("{e:?}"),
    }
}

fn refused(env: Environment, file: FileConfig, generated: Option<String>) -> ConfigError {
    match load_with(env, file, generated) {
        Ok(_) => panic!("loaded"),
        Err(e) => e,
    }
}

#[test]
fn defaults_apply() {
    let config = match load_with(no_env(), no_file(), Some("random".into())) {
        Ok(config) => config,
        Err(e) => panic!("{e:?}"),
    };
    assert_eq!(config.bind, "0.0.0.0:8011");
    assert_eq!(config.target, "http://localhost:3011/");
    assert_eq!(config.target_authority, "localhost:3011");
    assert_eq!(config.access_log, None);
    assert!(!config.challenge_all);
    assert_eq!(config.difficulty, 20);
    assert_eq!(config.token_secret, "random");
    assert_eq!(config.token_lifetime, 60 * 60 * 24 * 7);
    let breaker = config.circuit_breaker;
    assert_eq!(f64::from_bits(breaker.trip_above), 0.500);
    assert_eq!(f64::from_bits(breaker.reset_below), 0.250);
    assert_eq!(f64::from_bits(breaker.smoothing), 50.0);
    assert_eq!(f64::from_bits(breaker.min_open_duration), 60.0);
    assert_eq!(f64::from_bits(breaker.backoff_half_life), 60.0);
    assert!(!config.whitelist.is_exempt("/", IpAddr::V4([127, 0, 0, 1])));
}

#[test]
fn file_goes_before_defaults() {
    let config = loaded(no_env(), full_file());
    assert_eq!(config.bind, "127.0.0.1:1");
    assert_eq!(config.target, "https://file.example:81/base?q");
    assert_eq!(config.target_authority, "file.example:81");
    assert_eq!(config.access_log, Some("/var/log/file".to_string()));
    assert!(config.challenge_all);
    assert_eq!(config.difficulty, 7);
    assert_eq!(config.token_secret, "file secret");
    assert_eq!(config.token_lifetime, 70);
    let breaker = config.circuit_breaker;
    assert_eq!(f64::from_bits(breaker.trip_above), 2.0);
    assert_eq!(f64::from_bits(breaker.reset_below), 1.0);
    assert_eq!(f64::from_bits(breaker.smoothing), 10.0);
    assert_eq!(f64::from_bits(breaker.min_open_duration), 30.0);
    assert_eq!(f64::from_bits(breaker.backoff_half_life), 20.0);
    assert!(config.whitelist.is_exempt("/free", IpAddr::V4([127, 0, 0, 1])));
}

#[test]
fn environment_goes_before_file() {
    let env = Environment {
        target: Some("http://user@env.example:82".into()),
        bind: Some("[::]:2".into()),
        access_log: Some("/var/log/env".into()),
        challenge_all: Some("false".into()),
        difficulty: Some("+08".into()),
        token_secret: Some(String::new()),
        token_lifetime: Some("18446744073709551615".into()),
    };
    let config = loaded(env, full_file());
    assert_eq!(config.bind, "[::]:2");
    assert_eq!(config.target_authority, "user@env.example:82");
    assert_eq!(config.access_log, Some("/var/log/env".to_string()));
    assert!(!config.challenge_all);
    assert_eq!(config.difficulty, 8);
    assert_eq!(config.token_secret, "");
    assert_eq!(config.token_lifetime, u64::MAX);
}

#[test]
fn invalid_targets_are_refused() {
    for target in ["", "/only/a/path", "http://", "not a uri", "http://a b"] {
        let env = Environment { target: Some(target.into()), ..no_env() };
        assert!(
            matches!(refused(env, full_file(), None), ConfigError::InvalidTarget),
            "{target:?}"
        );
    }
    assert!(target_of(None).is_none());
    assert!(target_of(Some(("/".into(), None))).is_none());
    assert_eq!(
        target_of(Some(("http://h/".into(), Some("h".into())))),
        Some(("http://h/".to_string(), "h".to_string()))
    );
}

#[test]
fn thresholds_have_to_be_apart() {
    for (reset, trip) in [(1.0, 1.0), (2.0, 1.0), (f64::NAN, 1.0), (1.0, f64::NAN)] {
        let file = FileConfig {
            circuit_breaker: Some(FileCircuitBreaker {
                reset_below: Some(reset.to_bits()),
                trip_above: Some(trip.to_bits()),
                ..FileCircuitBreaker::default()
            }),
            ..full_file()
        };
        match refused(no_env(), file, None) {
            ConfigError::InvalidThresholds { reset_below, trip_above } => {
                assert_eq!(reset_below, reset.to_bits());
                assert_eq!(trip_above, trip.to_bits());
            }
            e => panic!("{e:?}"),
        }
    }
}

#[test]
fn invalid_values_are_refused() {
    let check = |env: Environment, variable: Variable, text: &str| {
        match refused(env, full_file(), None) {
            ConfigError::InvalidValue(v, value) => {
                assert_eq!(v, variable);
                assert_eq!(value, text);
            }
            e => panic!("{e:?}"),
        }
    };
    for text in ["", "True", "1", "true "] {
        let env = Environment { challenge_all: Some(text.into()), ..no_env() };
        check(env, Variable::ChallengeAll, text);
    }
    for text in ["", "+", "-1", "4294967296", "2O", " 7"] {
        let env = Environment { difficulty: Some(text.into()), ..no_env() };
        check(env, Variable::Difficulty, text);
    }
    for text in ["", "18446744073709551616", "1h"] {
        let env = Environment { token_lifetime: Some(text.into()), ..no_env() };
        check(env, Variable::TokenLifetime, text);
    }
}

#[test]
fn first_fault_counts() {
    let env = || Environment {
        target: Some("nowhere at all".into()),
        challenge_all: Some("maybe".into()),
        difficulty: Some("hard".into()),
        token_lifetime: Some("long".into()),
        ..no_env()
    };
    let file = || FileConfig {
        token_secret: None,
        whitelist: Some(FileWhitelist { path: Some(vec!["(".into()]), ip: None, includes: None }),
        ..full_file()
    };
    assert!(matches!(refused(env(), file(), None), ConfigError::InvalidTarget));
    let env = || Environment { target: None, ..env() };
    assert!(matches!(
        refused(env(), file(), None),
        ConfigError::InvalidValue(Variable::ChallengeAll, _)
    ));
    let env = || Environment { challenge_all: None, ..env() };
    assert!(matches!(
        refused(env(), file(), None),
        ConfigError::InvalidValue(Variable::Difficulty, _)
    ));
    let env = || Environment { difficulty: None, ..env() };
    assert!(matches!(refused(env(), file(), None), ConfigError::NoRandomSecret));
    assert!(matches!(
        refused(env(), file(), Some("s".into())),
        ConfigError::InvalidValue(Variable::TokenLifetime, _)
    ));
    let env = || Environment { token_lifetime: None, ..env() };
    assert!(matches!(
        refused(env(), file(), Some("s".into())),
        ConfigError::InvalidWhitelist(WhitelistError::InvalidPath(_))
    ));
}

#[test]
fn secrets_are_made_where_none_is_configured() {
    assert!(needs_secret(&no_env(), &no_file()));
    assert!(!needs_secret(&no_env(), &full_file()));
    let env = Environment { token_secret: Some("s".into()), ..no_env() };
    assert!(!needs_secret(&env, &no_file()));

    let secret = gen_secret().unwrap();
    assert_eq!(secret.len(), 32);
    assert!(secret.bytes().all(|b| matches!(b, b'0'..=b'9' | b'a'..=b'f')));
    assert_ne!(secret, gen_secret().unwrap());
    assert_ne!(secret, "00".repeat(16));

    let config = load(no_env(), no_file()).ok().unwrap();
    assert_eq!(config.token_secret.len(), 32);
    assert_eq!(load(no_env(), full_file()).ok().unwrap().token_secret, "file secret");
}

#[test]
fn secret_is_hexadecimal() {
    let bytes = [0, 1, 0x7f, 0x80, 0xff, 0xab, 6, 7, 8, 9, 10, 11, 12, 13, 14, 15];
    assert_eq!(secret_of(&bytes), "00017f80ffab060708090a0b0c0d0e0f");
    assert_eq!(secret_from(Some(bytes)), Some(secret_of(&bytes)));
    assert_eq!(secret_from(None), None);
}

#[test]
fn truth_values() {
    assert_eq!(parse_bool("true"), Some(true));
    assert_eq!(parse_bool("false"), Some(false));
    assert_eq!(parse_bool("yes"), None);
}

#[test]
fn path_of_the_file() {
    assert_eq!(config_path(None), "/etc/heavy/config.toml");
    assert_eq!(config_path(Some("/tmp/c.toml".into())), "/tmp/c.toml");
}
