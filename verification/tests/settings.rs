//! Settings laid over the environment.
use votport_store::kinds::SettingWrite;
use votport_store::records::{Config, Tenant};
use votport_store::store::Store;

fn test_config() -> Config {
    Config {
        smtp_host: Some("https://env.example/hook".to_owned()),
        smtp_port: 587,
        smtp_starttls: true,
        smtp_username: None,
        smtp_password: None,
        smtp_from: None,
        audit_retention_days: 400,
        upload_retention_days: 0,
        default_max_total_bytes: None,
        default_max_links: None,
        default_max_sessions: None,
        public_password_login: true,
        sso_session_secs: 7 * 24 * 3600,
        scim_token: None,
        replica_token: None,
        require_provisioning: false,
    }
}

fn set(store: &mut Store, key: &str, value: &str) {
    store
        .put_settings("local", &[(key.to_owned(), SettingWrite::Put(value.to_owned()))])
        .unwrap();
}

#[test]
fn empty_settings_table_follows_env() {
    let store = Store::new();
    let overlay = store.overlay(&test_config()).unwrap();
    assert_eq!(overlay.smtp_host.as_deref(), Some("https://env.example/hook"));
    assert_eq!(overlay.smtp_host_source, "env");
    assert_eq!(overlay.resolved.audit_retention_days, 400);
    assert_eq!(overlay.audit_retention_days_source, "env");
    assert_eq!(overlay.resolved.upload_retention_days, 0);
    assert!(overlay.resolved.default_max_total_bytes.is_none());
    assert!(overlay.resolved.public_password_login);
}

#[test]
fn written_key_wins_unwritten_keys_keep_env() {
    let mut store = Store::new();
    set(&mut store, "smtp_host", "https://db.example/hook");
    let overlay = store.overlay(&test_config()).unwrap();
    assert_eq!(overlay.smtp_host.as_deref(), Some("https://db.example/hook"));
    assert_eq!(overlay.smtp_host_source, "db");
    assert_eq!(overlay.resolved.audit_retention_days, 400);
    assert_eq!(overlay.audit_retention_days_source, "env");
}

#[test]
fn empty_string_disables_url_despite_env() {
    let mut store = Store::new();
    set(&mut store, "smtp_host", "");
    let overlay = store.overlay(&test_config()).unwrap();
    assert_eq!(overlay.smtp_host, None);
    assert_eq!(overlay.smtp_host_source, "db");
}

#[test]
fn reset_deletes_the_row_and_env_applies() {
    let mut store = Store::new();
    set(&mut store, "smtp_host", "https://db.example/hook");
    store.put_settings("local", &[("smtp_host".to_owned(), SettingWrite::Reset)]).unwrap();
    let overlay = store.overlay(&test_config()).unwrap();
    assert_eq!(overlay.smtp_host.as_deref(), Some("https://env.example/hook"));
    assert_eq!(overlay.smtp_host_source, "env");
    assert!(store.setting("smtp_host").unwrap().is_none());
}

#[test]
fn invalid_stored_days_skip_to_env() {
    let mut store = Store::new();
    set(&mut store, "audit_retention_days", "nope");
    let overlay = store.overlay(&test_config()).unwrap();
    assert_eq!(overlay.resolved.audit_retention_days, 400);
    assert_eq!(overlay.audit_retention_days_source, "env");
}

#[test]
fn db_retention_is_what_the_sweeper_would_read() {
    let mut store = Store::new();
    set(&mut store, "audit_retention_days", "7");
    assert_eq!(store.resolved_settings(&test_config()).unwrap().audit_retention_days, 7);
}

#[test]
fn smtp_is_none_without_host() {
    let store = Store::new();
    let mut config = test_config();
    config.smtp_host = None;
    config.smtp_from = Some("votport@example.com".to_owned());
    assert!(store.resolved_settings(&config).unwrap().smtp.is_none());
}

#[test]
fn smtp_is_none_without_from() {
    let store = Store::new();
    let mut config = test_config();
    config.smtp_host = Some("smtp.example.com".to_owned());
    config.smtp_from = None;
    assert!(store.resolved_settings(&config).unwrap().smtp.is_none());
}

#[test]
fn smtp_assembles_when_host_and_from_resolve() {
    let mut store = Store::new();
    set(&mut store, "smtp_host", "db.example.com");
    let mut config = test_config();
    config.smtp_from = Some("votport@example.com".to_owned());
    let smtp = store
        .resolved_settings(&config)
        .unwrap()
        .smtp
        .expect("host from DB plus sender from env");
    assert_eq!(smtp.host, "db.example.com");
    assert_eq!(smtp.from, "votport@example.com");
    assert_eq!(smtp.port, 587);
    assert!(smtp.starttls);
    assert!(smtp.password.is_none());
}

#[test]
fn invalid_smtp_port_skips_to_env() {
    let mut store = Store::new();
    set(&mut store, "smtp_port", "nope");
    let overlay = store.overlay(&test_config()).unwrap();
    assert_eq!(overlay.smtp_port, 587);
    assert_eq!(overlay.smtp_port_source, "env");
}

#[test]
fn smtp_texts_lose_the_white_space_at_their_ends() {
    let mut store = Store::new();
    set(&mut store, "smtp_host", "\u{2003} mail.example.com\n");
    set(&mut store, "smtp_from", "\tme@example.com ");
    set(&mut store, "smtp_username", " \u{a0}");
    set(&mut store, "smtp_password", " kept ");
    set(&mut store, "smtp_port", "+25");
    set(&mut store, "smtp_starttls", "0");
    let smtp = store.resolved_settings(&test_config()).unwrap().smtp.unwrap();
    assert_eq!(smtp.host, "mail.example.com");
    assert_eq!(smtp.from, "me@example.com");
    assert_eq!(smtp.username, None);
    assert_eq!(smtp.password.as_deref(), Some(" kept "));
    assert_eq!(smtp.port, 25);
    assert!(!smtp.starttls);
}

#[test]
fn out_of_range_numbers_are_passed_over() {
    let mut store = Store::new();
    for (key, value) in [
        ("smtp_port", "0"),
        ("default_max_links", "0"),
        ("default_max_sessions", "5"),
        ("sso_session_secs", "0"),
        ("upload_retention_days", "18446744073709551616"),
        ("public_password_login", "true"),
        ("require_provisioning", "1"),
        ("draining", "1"),
        ("scim_token_previous", "old"),
    ] {
        set(&mut store, key, value);
    }
    let overlay = store.overlay(&test_config()).unwrap();
    assert_eq!(overlay.smtp_port, 587);
    assert_eq!(overlay.resolved.default_max_links, None);
    assert_eq!(overlay.resolved.default_max_sessions, Some(5));
    assert_eq!(overlay.default_max_sessions_source, "db");
    assert_eq!(overlay.resolved.sso_session_secs, 7 * 24 * 3600);
    assert_eq!(overlay.sso_session_secs_source, "env");
    assert_eq!(overlay.resolved.upload_retention_days, 0);
    assert!(overlay.resolved.public_password_login);
    assert!(overlay.resolved.require_provisioning);
    assert!(overlay.resolved.draining);
    assert_eq!(overlay.draining_source, "db");
    assert!(overlay.scim_token_previous_set);
    assert_eq!(store.settings_generation(), 9);
}

#[test]
fn a_write_changes_its_own_key_only() {
    let mut store = Store::new();
    store
        .put_settings_at(
            "admin",
            &[
                ("a".to_owned(), SettingWrite::Put("1".to_owned())),
                ("b".to_owned(), SettingWrite::Put("2".to_owned())),
                ("a".to_owned(), SettingWrite::Put("3".to_owned())),
            ],
            99,
        )
        .unwrap();
    assert_eq!(store.setting("a").unwrap().as_deref(), Some("3"));
    assert_eq!(store.setting("b").unwrap().as_deref(), Some("2"));
    assert_eq!(
        store.settings_map().unwrap(),
        [("a".to_owned(), "3".to_owned()), ("b".to_owned(), "2".to_owned())]
    );
    assert_eq!(store.settings[0].updated_at, 99);
    assert_eq!(store.settings[0].updated_by, "admin");
    store.put_settings_at("other", &[("b".to_owned(), SettingWrite::Reset)], 100).unwrap();
    assert_eq!(store.setting("a").unwrap().as_deref(), Some("3"));
    assert_eq!(store.setting("b").unwrap(), None);
    assert_eq!(store.settings_generation(), 2);
}

#[test]
fn quotas_are_the_tenants_own_or_the_defaults() {
    let mut store = Store::new();
    set(&mut store, "default_max_links", "3");
    let tenant = Tenant {
        key: "acme".to_owned(),
        incarnation: String::new(),
        label: String::new(),
        admin_group: None,
        max_total_bytes: Some(10),
        max_links: None,
        max_sessions: Some(2),
        created_at: 0,
    };
    store.insert_tenant(tenant, "i".to_owned()).unwrap();
    assert_eq!(store.quotas_for("", &test_config()).unwrap(), (None, Some(3), None));
    assert_eq!(store.quotas_for("acme", &test_config()).unwrap(), (Some(10), None, Some(2)));
    assert_eq!(store.quotas_for("none", &test_config()).unwrap(), (None, None, None));
}
