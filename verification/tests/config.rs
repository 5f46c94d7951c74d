use liaozhai::config::{load, AppConfig, Overrides};
use liaozhai::constants;

#[test]
fn default_config_values() {
    let cfg = AppConfig::default();
    assert_eq!(cfg.server.port, 4444);
    assert_eq!(cfg.server.bind_address, "127.0.0.1");
    assert_eq!(cfg.server.max_connections, 100);
    assert_eq!(cfg.logging.default_filter, "info");
}

#[test]
fn load_without_file_returns_defaults() {
    let cfg = load(None, Overrides::default());
    assert_eq!(cfg.server.port, constants::DEFAULT_PORT);
}

#[test]
fn cli_port_override() {
    let cfg = load(None, Overrides { port: Some(5555), ..Overrides::default() });
    assert_eq!(cfg.server.port, 5555);
}

#[test]
fn cli_bind_override() {
    let cfg = load(None, Overrides { bind_address: Some("0.0.0.0".into()), ..Overrides::default() });
    assert_eq!(cfg.server.bind_address, "0.0.0.0");
}

#[test]
fn file_values_survive_without_overrides() {
    let mut file = AppConfig::default();
    file.server.port = 9999;
    file.server.bind_address = "10.0.0.1".into();
    file.logging.default_filter = "debug".into();
    let cfg = load(Some(file), Overrides::default());
    assert_eq!(cfg.server.port, 9999);
    assert_eq!(cfg.server.bind_address, "10.0.0.1");
    assert_eq!(cfg.logging.default_filter, "debug");
    assert_eq!(cfg.auth.db_path, "./data/accounts.db");
}

#[test]
fn overrides_beat_the_file() {
    let mut file = AppConfig::default();
    file.server.port = 9999;
    let cfg = load(Some(file), Overrides { port: Some(1), bind_address: Some("::".into()) });
    assert_eq!(cfg.server.port, 1);
    assert_eq!(cfg.server.bind_address, "::");
}

#[test]
fn auth_section_defaults_and_params() {
    let cfg = AppConfig::default();
    assert_eq!(cfg.auth.max_login_attempts, 3);
    assert_eq!(cfg.auth.rate_limit_window_secs, 60);
    assert_eq!(cfg.auth.rate_limit_max_failures, 10);
    assert_eq!(cfg.worlds.registry_path, "./data/worlds.toml");
    let p = cfg.auth.argon2_params();
    assert_eq!((p.m_cost, p.t_cost, p.p_cost), (19_456, 2, 1));
    assert_eq!(cfg.auth.rate_limit_window(), std::time::Duration::from_secs(60));
}
