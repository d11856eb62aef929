use atp_tools::config::{default_config_path, resolve_config_path, AppConfig, ConfigError};

#[test]
fn starts_from_defaults() {
    let config = AppConfig::default();
    assert_eq!(config.identity.identifier, "did:plc:xg2vq45muivyy3xwatcehspu");
    assert_eq!(config.services.public_api_base, "https://public.api.bsky.app");
    assert_eq!(config.services.plc_directory_base, "https://plc.directory");
    assert_eq!(
        AppConfig::field_names(),
        [
            "identity.identifier",
            "link-digest.follow-poll-cron",
            "link-digest.limit",
            "link-digest.min-score",
            "link-digest.min-shares",
            "services.public-api-base",
            "services.plc-directory-base",
        ]
    );
    assert_eq!(config.link_digest.follow_poll_cron, "0 * * * *");
    assert_eq!(config.link_digest.limit, 20);
    assert_eq!(config.link_digest.min_score, 0);
    assert_eq!(config.link_digest.min_shares, 1);
}

#[test]
fn reads_back_what_was_set() {
    let mut config = AppConfig::default();
    config.set_field("services.public-api-base", "https://api.test".to_string()).unwrap();
    assert_eq!(config.get_field("services.public-api-base").unwrap(), "https://api.test");
    assert_eq!(config.get_field("identity.identifier").unwrap(), "did:plc:xg2vq45muivyy3xwatcehspu");
    config.set_field("identity.identifier", "alice.test".to_string()).unwrap();
    assert_eq!(config.identity.identifier, "alice.test");
}

#[test]
fn refuses_unknown_fields() {
    let mut config = AppConfig::default();
    match config.set_field("link-digest.max", "5".to_string()) {
        Err(ConfigError::UnknownField(field)) => assert_eq!(field, "link-digest.max"),
        other => panic!("unexpected {other:?}"),
    }
    assert_eq!(config.services.plc_directory_base, "https://plc.directory");
    let error = config.get_field("nope").unwrap_err();
    assert_eq!(error.message(), "unknown config field \"nope\"");
}

#[test]
fn finds_the_config_file() {
    assert_eq!(
        default_config_path(Some("/xdg"), Some("/home/u")),
        Some("/xdg/atproto-tools/config.toml".to_string())
    );
    assert_eq!(
        default_config_path(None, Some("/home/u")),
        Some("/home/u/.config/atproto-tools/config.toml".to_string())
    );
    assert_eq!(default_config_path(None, None), None);
    assert_eq!(resolve_config_path(Some("my.toml".to_string()), None, None), Some("my.toml".to_string()));
    assert_eq!(resolve_config_path(None, None, Some("/h")), Some("/h/.config/atproto-tools/config.toml".to_string()));
}

#[test]
fn describes_each_config_error() {
    assert_eq!(
        ConfigError::MissingPath.message(),
        "could not determine config path; pass --config PATH or set XDG_CONFIG_HOME/HOME"
    );
    let located = |prefix: &str| format!("{prefix} /c/config.toml: denied");
    let read = ConfigError::Read { path: "/c/config.toml".to_string(), message: "denied".to_string() };
    assert_eq!(read.message(), located("failed to read config at"));
    let dir = ConfigError::CreateDir { path: "/c/config.toml".to_string(), message: "denied".to_string() };
    assert_eq!(dir.message(), located("failed to create config directory at"));
    let write = ConfigError::Write { path: "/c/config.toml".to_string(), message: "denied".to_string() };
    assert_eq!(write.message(), located("failed to write config at"));
    let parse = ConfigError::Parse { path: "/c/config.toml".to_string(), message: "denied".to_string() };
    assert_eq!(parse.message(), located("failed to parse config at"));
    assert_eq!(ConfigError::Serialize("bad".to_string()).message(), "failed to serialize config: bad");
}

#[test]
fn a_second_set_replaces_the_first() {
    let mut twice = AppConfig::default();
    twice.set_field("services.plc-directory-base", "https://one.test".to_string()).unwrap();
    twice.set_field("services.plc-directory-base", "https://two.test".to_string()).unwrap();
    let mut once = AppConfig::default();
    once.set_field("services.plc-directory-base", "https://two.test".to_string()).unwrap();
    assert_eq!(twice.get_field("services.plc-directory-base").unwrap(), "https://two.test");
    assert_eq!(twice.services.plc_directory_base, once.services.plc_directory_base);
    assert_eq!(twice.services.public_api_base, once.services.public_api_base);
    assert_eq!(twice.identity.identifier, once.identity.identifier);
}

#[test]
fn sets_the_link_digest_fields() {
    let mut config = AppConfig::default();
    config.set_field("link-digest.limit", "20".to_string()).unwrap();
    assert_eq!(config.get_field("link-digest.limit").unwrap(), "20");
    config.set_field("link-digest.limit", "+007".to_string()).unwrap();
    assert_eq!(config.link_digest.limit, 7);
    assert_eq!(config.get_field("link-digest.limit").unwrap(), "7");
    config.set_field("link-digest.min-score", "-5".to_string()).unwrap();
    assert_eq!(config.get_field("link-digest.min-score").unwrap(), "-5");
    config.set_field("link-digest.min-shares", "3".to_string()).unwrap();
    assert_eq!(config.link_digest.min_shares, 3);
    config.set_field("link-digest.follow-poll-cron", "*/15 * * * *".to_string()).unwrap();
    assert_eq!(config.get_field("link-digest.follow-poll-cron").unwrap(), "*/15 * * * *");
    assert_eq!(config.get_field("identity.identifier").unwrap(), "did:plc:xg2vq45muivyy3xwatcehspu");
}

#[test]
fn refuses_values_that_are_not_numbers() {
    let mut config = AppConfig::default();
    for (field, value) in [
        ("link-digest.limit", "twenty"),
        ("link-digest.limit", ""),
        ("link-digest.limit", "-1"),
        ("link-digest.limit", "+"),
        ("link-digest.min-shares", "99999999999999999999999"),
        ("link-digest.min-score", "9223372036854775808"),
        ("link-digest.min-score", "-"),
        ("link-digest.min-score", "1.5"),
    ] {
        match config.set_field(field, value.to_string()) {
            Err(ConfigError::InvalidNumber { field: f, value: v }) => {
                assert_eq!(f, field);
                assert_eq!(v, value);
            }
            other => panic!("unexpected {other:?} for {field} = {value}"),
        }
    }
    config.set_field("link-digest.min-score", "-9223372036854775808".to_string()).unwrap();
    assert_eq!(config.link_digest.min_score, i64::MIN);
    assert_eq!(config.link_digest.limit, 20);
    let error = ConfigError::InvalidNumber { field: "link-digest.limit".to_string(), value: "x".to_string() };
    assert_eq!(error.message(), "invalid value \"x\" for link-digest.limit: expected a whole number in range");
}
