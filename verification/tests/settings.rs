use codex_trace::auth::{AuthMode, KeySource};
use codex_trace::settings::{
    build_settings_response, config_root_from, default_dir_for, settings_path, Settings,
};

#[test]
fn default_settings_has_no_sessions_dir() {
    let s = Settings::default();
    assert!(s.sessions_dir.is_none());
}

#[test]
fn default_settings_has_no_allowed_origins() {
    assert!(Settings::default().allowed_origins.is_empty());
}

#[test]
fn the_override_wins_when_it_is_not_blank() {
    assert_eq!(
        config_root_from(Some("  /tmp/cfg ".into()), Some("/home/u/.config".into())).as_deref(),
        Some("/tmp/cfg")
    );
    assert_eq!(
        config_root_from(Some("   ".into()), Some("/home/u/.config".into())).as_deref(),
        Some("/home/u/.config/codex-trace")
    );
    assert_eq!(config_root_from(None, None), None);
    assert_eq!(settings_path("/tmp/cfg"), "/tmp/cfg/settings.json");
}

#[test]
fn the_default_sessions_dir_is_under_the_home() {
    assert_eq!(default_dir_for(Some("/home/u".into())), "/home/u/.codex/sessions");
    assert_eq!(default_dir_for(None), "");
}

#[test]
fn the_response_reports_the_settings_and_the_mode() {
    let settings = Settings {
        sessions_dir: Some("/s".into()),
        allowed_origins: vec!["https://a.example".into()],
    };
    let mode = AuthMode::Enabled { key: vec![1; 32], source: KeySource::File };
    let r = build_settings_response(&settings, &mode, vec![]);
    assert_eq!(r.sessions_dir.as_deref(), Some("/s"));
    assert_eq!(r.allowed_origins, vec!["https://a.example"]);
    assert!(r.api_auth_enabled);
    assert_eq!(r.api_auth_source, "file");
    assert!(r.clients.is_empty());
    let off = build_settings_response(&Settings::default(), &AuthMode::Disabled, vec![]);
    assert!(!off.api_auth_enabled);
    assert_eq!(off.api_auth_source, "disabled");
}
