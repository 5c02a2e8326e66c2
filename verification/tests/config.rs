use sglaz::config::{
    clamp_interval, config_path, default_interval, initial_interval, missing_config_message,
    next_interval, Config, ConfigPath, MIN_INTERVAL,
};

#[test]
fn intervals_have_a_floor_of_three_seconds() {
    assert_eq!(MIN_INTERVAL, 3);
    assert_eq!(clamp_interval(0), 3);
    assert_eq!(clamp_interval(2), 3);
    assert_eq!(clamp_interval(3), 3);
    assert_eq!(clamp_interval(60), 60);
    assert_eq!(clamp_interval(u64::MAX), u64::MAX);
}

#[test]
fn the_default_interval_is_fifteen_seconds() {
    assert_eq!(default_interval(), 15);
}

#[test]
fn the_daemon_starts_with_the_configured_interval() {
    let mut cfg = Config::default();
    cfg.poll_interval_secs = 15;
    assert_eq!(initial_interval(&cfg), 15);
    cfg.poll_interval_secs = 0;
    assert_eq!(initial_interval(&cfg), 3);
}

#[test]
fn a_failed_poll_keeps_the_interval() {
    assert_eq!(next_interval(20, None), 20);
    assert_eq!(next_interval(20, Some(30)), 30);
    assert_eq!(next_interval(20, Some(1)), 3);
}

#[test]
fn the_environment_overrides_the_config_path() {
    assert_eq!(
        config_path(Some("/etc/sglaz/config.yaml".to_string()), true),
        Ok(ConfigPath::At("/etc/sglaz/config.yaml".to_string()))
    );
    assert_eq!(config_path(Some(String::new()), false), Ok(ConfigPath::At(String::new())));
    assert_eq!(
        config_path(None, true),
        Ok(ConfigPath::InProjectDir("config.yaml".to_string()))
    );
}

#[test]
fn a_host_without_a_config_dir_is_an_error() {
    assert_eq!(
        config_path(None, false),
        Err("could not determine a config directory for this OS".to_string())
    );
}

#[test]
fn a_missing_config_names_its_path() {
    assert_eq!(
        missing_config_message("/c.yaml"),
        "no config at /c.yaml \u{2014} run `sglaz -connect <code>` first"
    );
}
