use ferrite_sfu::config::{Config, ConfigError, Environment};
use ferrite_sfu::net::{Endpoint, Ip};

fn bare() -> Environment {
    Environment {
        bind_http: None,
        bind_udp: None,
        public_ip: None,
        shared_secret: Some(" s3cret ".to_string()),
        webhook_url: None,
        webhook_secret: None,
        ice_lite: None,
        max_room_peers: None,
    }
}

fn endpoint(port: u16) -> Endpoint {
    Endpoint { ip: Ip::V4([0, 0, 0, 0]), port }
}

const PUBLIC: Ip = Ip::V4([203, 0, 113, 7]);

fn resolve(env: &Environment) -> Result<Config, ConfigError> {
    Config::from_env(env, Some(endpoint(7898)), Some(endpoint(7899)), Some(PUBLIC))
}

#[test]
fn defaults_apply() {
    let env = bare();
    assert_eq!(env.http_address(), "0.0.0.0:7898");
    assert_eq!(env.udp_address(), "0.0.0.0:7899");
    assert!(env.public_address().is_none());
    let config = resolve(&env).expect("resolves");
    assert_eq!(config.http_bind, endpoint(7898));
    assert_eq!(config.udp_bind, endpoint(7899));
    assert_eq!(config.public_ip, PUBLIC);
    assert_eq!(config.shared_secret, "s3cret");
    assert_eq!(config.webhook_secret, "s3cret");
    assert_eq!(config.webhook_url, None);
    assert!(!config.ice_lite);
    assert_eq!(config.max_room_peers, 16);
}

#[test]
fn stated_values_are_trimmed() {
    let mut env = bare();
    env.bind_http = Some(" 127.0.0.1:80 ".to_string());
    env.public_ip = Some("\t203.0.113.7\n".to_string());
    env.webhook_url = Some(" https://example.com/hook ".to_string());
    env.webhook_secret = Some(" hook ".to_string());
    assert_eq!(env.http_address(), "127.0.0.1:80");
    assert_eq!(env.public_address().as_deref(), Some("203.0.113.7"));
    let config = resolve(&env).expect("resolves");
    assert_eq!(config.webhook_url.as_deref(), Some("https://example.com/hook"));
    assert_eq!(config.webhook_secret, "hook");
}

#[test]
fn blank_values_count_as_unset() {
    let mut env = bare();
    env.public_ip = Some("  ".to_string());
    env.webhook_url = Some("".to_string());
    env.webhook_secret = Some(" ".to_string());
    assert!(env.public_address().is_none());
    let config = resolve(&env).expect("resolves");
    assert_eq!(config.webhook_url, None);
    assert_eq!(config.webhook_secret, "s3cret");
}

#[test]
fn switches_are_read_loosely() {
    for on in ["1", "true", "TRUE", " Yes "] {
        let mut env = bare();
        env.ice_lite = Some(on.to_string());
        assert!(resolve(&env).expect("resolves").ice_lite, "{on}");
    }
    for off in ["0", "no", "on", ""] {
        let mut env = bare();
        env.ice_lite = Some(off.to_string());
        assert!(!resolve(&env).expect("resolves").ice_lite, "{off}");
    }
}

#[test]
fn the_room_limit_stays_within_bounds() {
    let cases = [("2", 2), (" 64 ", 64), ("+8", 8), ("1", 16), ("65", 16), ("many", 16), ("", 16), ("-3", 16)];
    for (text, limit) in cases {
        let mut env = bare();
        env.max_room_peers = Some(text.to_string());
        assert_eq!(resolve(&env).expect("resolves").max_room_peers, limit, "{text}");
    }
}

#[test]
fn the_first_thing_amiss_is_reported() {
    let mut env = bare();
    env.bind_http = Some("nonsense".to_string());
    env.bind_udp = Some(" also ".to_string());
    env.public_ip = Some("nowhere".to_string());
    env.shared_secret = Some("  ".to_string());
    let error = Config::from_env(&env, None, None, None).unwrap_err();
    assert_eq!(error.message(), "nonsense is not a valid socket address");
    let error = Config::from_env(&env, Some(endpoint(1)), None, None).unwrap_err();
    assert_eq!(error.message(), " also  is not a valid socket address");
    let error = Config::from_env(&env, Some(endpoint(1)), Some(endpoint(2)), None).unwrap_err();
    assert!(matches!(error, ConfigError::Missing("SFU_SHARED_SECRET")));
    assert_eq!(error.message(), "SFU_SHARED_SECRET is required");
    env.shared_secret = Some("s".to_string());
    let error = Config::from_env(&env, Some(endpoint(1)), Some(endpoint(2)), None).unwrap_err();
    assert!(matches!(&error, ConfigError::Invalid(value, "IP address") if value == "nowhere"));
}

#[test]
fn browsers_are_told_the_public_address_and_the_bound_port() {
    let config = resolve(&bare()).expect("resolves");
    let bound = Endpoint { ip: Ip::V4([0, 0, 0, 0]), port: 40_000 };
    assert_eq!(config.advertised_udp(bound), Endpoint { ip: PUBLIC, port: 40_000 });
}

#[test]
fn the_health_probe_asks_the_signaling_port() {
    let mut env = bare();
    assert_eq!(env.health_port(), "7898");
    env.bind_http = Some("[::1]:9000".to_string());
    assert_eq!(env.health_port(), "9000");
    env.bind_http = Some("9001".to_string());
    assert_eq!(env.health_port(), "9001");
}
