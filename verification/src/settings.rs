//! Settings: what the database sets, laid over the environment's values.
use vstd::prelude::*;

use crate::clock::{clock_gave, now_unix, time_of};
use crate::columns::{column_or_zero, to_column_or_zero};
use crate::decimal::{parse_number, parsed};
use crate::grants::read_first;
use crate::kinds::SettingWrite;
use crate::links::tenant_is;
use crate::records::{
    Config, ConfigView, ResolvedSettings, ResolvedSettingsView, ResolvedSmtp, ResolvedSmtpView,
    SettingsOverlay, SettingsOverlayView,
};
use crate::rows::{MetaRow, MetaRowView, SettingRow, SettingRowView};
use crate::store::{Store, StoreView};
use crate::table::{
    any, append_row, delete_where, dup_option, exists_where, find, first, outcome, project,
    update_where, updated,
};
use crate::tenants::tenant_of;
use crate::text::{same, trim, trimmed};

verus! {

/// The caps that apply to a namespace: total bytes, links and concurrent
/// sessions; `None` is unlimited.
pub type Quotas = (Option<u64>, Option<u64>, Option<u64>);

// ------------------------------------------------------------ specifications
/// The setting under a key.
pub open spec fn setting_is(key: Seq<char>) -> spec_fn(SettingRowView) -> bool {
    |r: SettingRowView| r.key == key
}

/// The other settings.
pub open spec fn other_setting(key: Seq<char>) -> spec_fn(SettingRowView) -> bool {
    |r: SettingRowView| r.key != key
}

/// What the database sets for a key.
pub open spec fn set_to(rows: Seq<SettingRowView>, key: Seq<char>) -> Option<Seq<char>> {
    match first(rows, setting_is(key)) {
        Some(r) => Some(r.value),
        None => None,
    }
}

/// A text setting: an empty row disables it.
pub open spec fn text_setting(
    rows: Seq<SettingRowView>,
    key: Seq<char>,
    env: Option<Seq<char>>,
) -> (Option<Seq<char>>, Seq<char>) {
    match set_to(rows, key) {
        None => (env, "env"@),
        Some(value) => if value.len() == 0 {
            (None, "db"@)
        } else {
            (Some(value), "db"@)
        },
    }
}

/// A number setting.
pub open spec fn number_setting(rows: Seq<SettingRowView>, key: Seq<char>, env: u64) -> (
    u64,
    Seq<char>,
) {
    match set_to(rows, key) {
        None => (env, "env"@),
        Some(value) => match parsed(value, u64::MAX as int) {
            Some(n) => (n as u64, "db"@),
            None => (env, "env"@),
        },
    }
}

/// A limit setting: a positive number.
pub open spec fn limit_setting(rows: Seq<SettingRowView>, key: Seq<char>, env: Option<u64>) -> (
    Option<u64>,
    Seq<char>,
) {
    match set_to(rows, key) {
        None => (env, "env"@),
        Some(value) => match parsed(value, u64::MAX as int) {
            Some(n) => if n > 0 {
                (Some(n as u64), "db"@)
            } else {
                (env, "env"@)
            },
            None => (env, "env"@),
        },
    }
}

/// A port setting.
pub open spec fn port_setting(rows: Seq<SettingRowView>, key: Seq<char>, env: u16) -> (
    u16,
    Seq<char>,
) {
    match set_to(rows, key) {
        None => (env, "env"@),
        Some(value) => match parsed(value, u16::MAX as int) {
            Some(n) => if n >= 1 {
                (n as u16, "db"@)
            } else {
                (env, "env"@)
            },
            None => (env, "env"@),
        },
    }
}

/// A switch setting: "1" or "0".
pub open spec fn switch_setting(rows: Seq<SettingRowView>, key: Seq<char>, env: bool) -> (
    bool,
    Seq<char>,
) {
    match set_to(rows, key) {
        None => (env, "env"@),
        Some(value) => if value == "1"@ {
            (true, "db"@)
        } else if value == "0"@ {
            (false, "db"@)
        } else {
            (env, "env"@)
        },
    }
}

/// The length of a sign-in: a number other than zero.
pub open spec fn session_setting(rows: Seq<SettingRowView>, env: u64) -> (u64, Seq<char>) {
    let (secs, source) = number_setting(rows, "sso_session_secs"@, env);
    if secs == 0 {
        (env, "env"@)
    } else {
        (secs, source)
    }
}

/// A text without the white space at its ends, if anything is left of it.
pub open spec fn kept_text(value: Option<Seq<char>>) -> Option<Seq<char>> {
    match value {
        Some(raw) => if trimmed(raw).len() > 0 {
            Some(trimmed(raw))
        } else {
            None
        },
        None => None,
    }
}

/// The SMTP channel, if host and sender are there.
pub open spec fn smtp_channel(
    host: Option<Seq<char>>,
    port: u16,
    starttls: bool,
    username: Option<Seq<char>>,
    password: Option<Seq<char>>,
    from: Option<Seq<char>>,
) -> Option<ResolvedSmtpView> {
    match (kept_text(host), kept_text(from)) {
        (Some(host), Some(from)) => Some(
            ResolvedSmtpView {
                host,
                port,
                starttls,
                username: kept_text(username),
                password,
                from,
            },
        ),
        _ => None,
    }
}

/// The settings in force and their sources.
pub open spec fn overlaid(rows: Seq<SettingRowView>, env: ConfigView) -> SettingsOverlayView {
    let host = text_setting(rows, "smtp_host"@, env.smtp_host);
    let port = port_setting(rows, "smtp_port"@, env.smtp_port);
    let starttls = switch_setting(rows, "smtp_starttls"@, env.smtp_starttls);
    let username = text_setting(rows, "smtp_username"@, env.smtp_username);
    let password = text_setting(rows, "smtp_password"@, env.smtp_password);
    let from = text_setting(rows, "smtp_from"@, env.smtp_from);
    let audit = number_setting(rows, "audit_retention_days"@, env.audit_retention_days);
    let upload = number_setting(rows, "upload_retention_days"@, env.upload_retention_days);
    let bytes = limit_setting(rows, "default_max_total_bytes"@, env.default_max_total_bytes);
    let links = limit_setting(rows, "default_max_links"@, env.default_max_links);
    let sessions = limit_setting(rows, "default_max_sessions"@, env.default_max_sessions);
    let login = switch_setting(rows, "public_password_login"@, env.public_password_login);
    let secs = session_setting(rows, env.sso_session_secs);
    let scim = text_setting(rows, "scim_token"@, env.scim_token);
    let previous = text_setting(rows, "scim_token_previous"@, None);
    let replica = text_setting(rows, "replica_token"@, env.replica_token);
    let provisioning = switch_setting(rows, "require_provisioning"@, env.require_provisioning);
    let draining = switch_setting(rows, "draining"@, false);
    SettingsOverlayView {
        resolved: ResolvedSettingsView {
            smtp: smtp_channel(host.0, port.0, starttls.0, username.0, password.0, from.0),
            audit_retention_days: audit.0,
            upload_retention_days: upload.0,
            default_max_total_bytes: bytes.0,
            default_max_links: links.0,
            default_max_sessions: sessions.0,
            public_password_login: login.0,
            sso_session_secs: secs.0,
            scim_token: scim.0,
            scim_token_previous: previous.0,
            replica_token: replica.0,
            require_provisioning: provisioning.0,
            draining: draining.0,
        },
        smtp_host: host.0,
        smtp_host_source: host.1,
        smtp_port: port.0,
        smtp_port_source: port.1,
        smtp_starttls: starttls.0,
        smtp_starttls_source: starttls.1,
        smtp_username: username.0,
        smtp_username_source: username.1,
        smtp_password_set: password.0 is Some,
        smtp_password_source: password.1,
        smtp_from: from.0,
        smtp_from_source: from.1,
        audit_retention_days_source: audit.1,
        upload_retention_days_source: upload.1,
        default_max_total_bytes_source: bytes.1,
        default_max_links_source: links.1,
        default_max_sessions_source: sessions.1,
        public_password_login_source: login.1,
        sso_session_secs_source: secs.1,
        scim_token_set: scim.0 is Some,
        scim_token_source: scim.1,
        scim_token_previous_set: previous.0 is Some,
        replica_token_set: replica.0 is Some,
        replica_token_source: replica.1,
        require_provisioning_source: provisioning.1,
        draining_source: draining.1,
    }
}

/// What is written to a setting: a text, or nothing.
pub open spec fn written_value(w: SettingWrite) -> Option<Seq<char>> {
    match w {
        SettingWrite::Put(value) => Some(value@),
        SettingWrite::Reset => None,
    }
}

/// What is written to which settings.
pub open spec fn writes_of(s: Seq<(String, SettingWrite)>) -> Seq<(Seq<char>, Option<Seq<char>>)> {
    s.map_values(|w: (String, SettingWrite)| (w.0@, written_value(w.1)))
}

/// A setting with another value.
pub open spec fn resettled(value: Seq<char>, at: i64, actor: Seq<char>) -> spec_fn(
    SettingRowView,
) -> SettingRowView {
    |r: SettingRowView| SettingRowView { value, updated_at: at, updated_by: actor, ..r }
}

/// The settings after one write.
pub open spec fn after_write(
    rows: Seq<SettingRowView>,
    key: Seq<char>,
    value: Option<Seq<char>>,
    at: i64,
    actor: Seq<char>,
) -> Seq<SettingRowView> {
    match value {
        None => rows.filter(other_setting(key)),
        Some(value) => if any(rows, setting_is(key)) {
            updated(rows, setting_is(key), resettled(value, at, actor))
        } else {
            rows.push(SettingRowView { key, value, updated_at: at, updated_by: actor })
        },
    }
}

/// The settings after writes, one by one.
pub open spec fn after_writes(
    rows: Seq<SettingRowView>,
    writes: Seq<(Seq<char>, Option<Seq<char>>)>,
    at: i64,
    actor: Seq<char>,
) -> Seq<SettingRowView>
    decreases writes.len(),
{
    if writes.len() == 0 {
        rows
    } else {
        after_write(
            after_writes(rows, writes.drop_last(), at, actor),
            writes.last().0,
            writes.last().1,
            at,
            actor,
        )
    }
}

/// The store after settings were written at time `now`.
pub open spec fn settings_written(
    s: StoreView,
    actor: Seq<char>,
    writes: Seq<(Seq<char>, Option<Seq<char>>)>,
    now: u64,
) -> StoreView {
    StoreView {
        settings: after_writes(s.settings, writes, column_or_zero(now), actor),
        settings_generation: next_generation(s.settings_generation),
        ..s
    }
}

/// The generation behind another; it starts over at its end.
pub open spec fn next_generation(n: u64) -> u64 {
    if n == u64::MAX {
        0
    } else {
        (n + 1) as u64
    }
}

/// Key and value of a setting.
pub open spec fn key_and_value() -> spec_fn(SettingRowView) -> (Seq<char>, Seq<char>) {
    |r: SettingRowView| (r.key, r.value)
}

/// The row of `meta` under a key.
pub open spec fn meta_is(key: Seq<char>) -> spec_fn(MetaRowView) -> bool {
    |m: MetaRowView| m.key == key
}

/// A row of `meta` with another value.
pub open spec fn meta_set(value: Seq<char>) -> spec_fn(MetaRowView) -> MetaRowView {
    |m: MetaRowView| MetaRowView { value, ..m }
}

/// The caps that apply to a namespace.
pub open spec fn caps_of(s: StoreView, tenant: Seq<char>, env: ConfigView) -> Result<
    Quotas,
    Seq<char>,
> {
    if tenant.len() == 0 {
        let settings = overlaid(s.settings, env).resolved;
        Ok(
            (
                settings.default_max_total_bytes,
                settings.default_max_links,
                settings.default_max_sessions,
            ),
        )
    } else {
        match read_first(first(s.tenants, tenant_is(tenant)), tenant_of()) {
            Err(e) => Err(e),
            Ok(None) => Ok((None, None, None)),
            Ok(Some(t)) => Ok((t.max_total_bytes, t.max_links, t.max_sessions)),
        }
    }
}

// ---------------------------------------------------------------------- laws
proof fn lemma_other_first(rows: Seq<SettingRowView>, key: Seq<char>, other: Seq<char>)
    requires
        key != other,
    ensures
        first(rows.filter(other_setting(key)), setting_is(other)) == first(
            rows,
            setting_is(other),
        ),
    decreases rows.len(),
{
    if rows.len() > 0 {
        crate::files::lemma_filter_head(rows, other_setting(key));
        lemma_other_first(rows.skip(1), key, other);
        let f = rows.filter(other_setting(key));
        if rows[0].key != key {
            assert(f.skip(1) =~= rows.skip(1).filter(other_setting(key)));
        }
    } else {
        reveal(Seq::filter);
        assert(rows.filter(other_setting(key)) =~= rows);
    }
}

proof fn lemma_gone(rows: Seq<SettingRowView>, key: Seq<char>)
    ensures
        first(rows.filter(other_setting(key)), setting_is(key)) is None,
{
    crate::table::lemma_filter_any_of(rows, other_setting(key));
    let f = rows.filter(other_setting(key));
    crate::table::lemma_first_found(f, setting_is(key));
    if any(f, setting_is(key)) {
        let i = choose|i: int| 0 <= i < f.len() && setting_is(key)(#[trigger] f[i]);
        assert(other_setting(key)(f[i]));
    }
}

proof fn lemma_first_updated(
    rows: Seq<SettingRowView>,
    key: Seq<char>,
    value: Seq<char>,
    at: i64,
    actor: Seq<char>,
    other: Seq<char>,
)
    ensures
        set_to(updated(rows, setting_is(key), resettled(value, at, actor)), other) == if other
            == key && any(rows, setting_is(key)) {
            Some(value)
        } else {
            set_to(rows, other)
        },
    decreases rows.len(),
{
    let u = updated(rows, setting_is(key), resettled(value, at, actor));
    if rows.len() > 0 {
        let t = rows.skip(1);
        lemma_first_updated(t, key, value, at, actor, other);
        assert(u.skip(1) =~= updated(t, setting_is(key), resettled(value, at, actor)));
        if setting_is(key)(rows[0]) {
            assert(any(rows, setting_is(key)));
        } else {
            assert(any(rows, setting_is(key)) == any(t, setting_is(key))) by {
                if any(rows, setting_is(key)) {
                    let i = choose|i: int|
                        0 <= i < rows.len() && setting_is(key)(#[trigger] rows[i]);
                    assert(setting_is(key)(t[i - 1]));
                }
                if any(t, setting_is(key)) {
                    let i = choose|i: int| 0 <= i < t.len() && setting_is(key)(#[trigger] t[i]);
                    assert(setting_is(key)(rows[i + 1]));
                }
            }
        }
    }
}

proof fn lemma_first_pushed(rows: Seq<SettingRowView>, row: SettingRowView, other: Seq<char>)
    ensures
        set_to(rows.push(row), other) == match set_to(rows, other) {
            Some(value) => Some(value),
            None => if row.key == other {
                Some(row.value)
            } else {
                None
            },
        },
    decreases rows.len(),
{
    if rows.len() > 0 {
        lemma_first_pushed(rows.skip(1), row, other);
        assert(rows.push(row).skip(1) =~= rows.skip(1).push(row));
    } else {
        assert(first(rows.push(row).skip(1), setting_is(other)) is None);
    }
}

/// A write sets its own key and leaves every other setting as it was.
pub proof fn a_write_touches_one_setting(
    rows: Seq<SettingRowView>,
    key: Seq<char>,
    value: Option<Seq<char>>,
    at: i64,
    actor: Seq<char>,
    other: Seq<char>,
)
    ensures
        set_to(after_write(rows, key, value, at, actor), other) == if other == key {
            value
        } else {
            set_to(rows, other)
        },
{
    match value {
        None => {
            if other == key {
                lemma_gone(rows, key);
            } else {
                lemma_other_first(rows, key, other);
            }
        },
        Some(v) => {
            crate::table::lemma_first_found(rows, setting_is(key));
            if any(rows, setting_is(key)) {
                lemma_first_updated(rows, key, v, at, actor, other);
            } else {
                lemma_first_pushed(
                    rows,
                    SettingRowView { key, value: v, updated_at: at, updated_by: actor },
                    other,
                );
            }
        },
    }
}

/// Without a row, every setting is the environment's, and told to be; there is no earlier
/// token for provisioning, and the server is not draining.
pub proof fn absent_rows_follow_the_environment(env: ConfigView)
    ensures
        ({
            let o = overlaid(Seq::empty(), env);
            &&& o.resolved.smtp == smtp_channel(
                env.smtp_host,
                env.smtp_port,
                env.smtp_starttls,
                env.smtp_username,
                env.smtp_password,
                env.smtp_from,
            )
            &&& o.smtp_host == env.smtp_host
            &&& o.smtp_port == env.smtp_port
            &&& o.smtp_starttls == env.smtp_starttls
            &&& o.smtp_username == env.smtp_username
            &&& o.smtp_from == env.smtp_from
            &&& o.smtp_password_set == env.smtp_password is Some
            &&& o.resolved.audit_retention_days == env.audit_retention_days
            &&& o.resolved.upload_retention_days == env.upload_retention_days
            &&& o.resolved.default_max_total_bytes == env.default_max_total_bytes
            &&& o.resolved.default_max_links == env.default_max_links
            &&& o.resolved.default_max_sessions == env.default_max_sessions
            &&& o.resolved.public_password_login == env.public_password_login
            &&& o.resolved.sso_session_secs == env.sso_session_secs
            &&& o.resolved.scim_token == env.scim_token
            &&& o.resolved.replica_token == env.replica_token
            &&& o.resolved.require_provisioning == env.require_provisioning
            &&& o.scim_token_set == env.scim_token is Some
            &&& o.replica_token_set == env.replica_token is Some
            &&& o.resolved.scim_token_previous is None && !o.scim_token_previous_set
            &&& !o.resolved.draining
            &&& o.smtp_host_source == "env"@
            &&& o.smtp_port_source == "env"@
            &&& o.smtp_starttls_source == "env"@
            &&& o.smtp_username_source == "env"@
            &&& o.smtp_password_source == "env"@
            &&& o.smtp_from_source == "env"@
            &&& o.audit_retention_days_source == "env"@
            &&& o.upload_retention_days_source == "env"@
            &&& o.default_max_total_bytes_source == "env"@
            &&& o.default_max_links_source == "env"@
            &&& o.default_max_sessions_source == "env"@
            &&& o.public_password_login_source == "env"@
            &&& o.sso_session_secs_source == "env"@
            &&& o.scim_token_source == "env"@
            &&& o.replica_token_source == "env"@
            &&& o.require_provisioning_source == "env"@
            &&& o.draining_source == "env"@
        }),
{
}

// ---------------------------------------------------------------- operations
fn value_of<'a>(rows: &'a Vec<SettingRow>, key: &str) -> (r: Option<&'a String>)
    ensures
        r.deep_view() == set_to(rows.deep_view(), key@),
{
    let hit = |r: &SettingRow| -> (b: bool)
        ensures
            b == setting_is(key@)(r@),
    {
        same(r.key.as_str(), key)
    };
    match find(rows, hit, Ghost(setting_is(key@))) {
        Some(found) => Some(&rows[found].value),
        None => None,
    }
}

/// A text setting: an empty row disables it.
pub fn overlay_text(rows: &Vec<SettingRow>, key: &str, env: &Option<String>) -> (r: (
    Option<String>,
    &'static str,
))
    ensures
        (r.0.deep_view(), r.1@) == text_setting(rows.deep_view(), key@, env.deep_view()),
{
    match value_of(rows, key) {
        None => (dup_option(env), "env"),
        Some(value) => if value.as_str().unicode_len() == 0 {
            (None, "db")
        } else {
            (Some(value.clone()), "db")
        },
    }
}

/// A number setting; a row that is not valid is passed over.
pub fn overlay_u64(rows: &Vec<SettingRow>, key: &str, env: u64) -> (r: (u64, &'static str))
    ensures
        (r.0, r.1@) == number_setting(rows.deep_view(), key@, env),
{
    match value_of(rows, key) {
        None => (env, "env"),
        Some(value) => match parse_number(value.as_str(), u64::MAX) {
            Some(n) => (n, "db"),
            None => (env, "env"),
        },
    }
}

/// A limit setting; a row that is not valid is passed over.
pub fn overlay_positive(rows: &Vec<SettingRow>, key: &str, env: Option<u64>) -> (r: (
    Option<u64>,
    &'static str,
))
    ensures
        (r.0, r.1@) == limit_setting(rows.deep_view(), key@, env),
{
    match value_of(rows, key) {
        None => (env, "env"),
        Some(value) => match parse_number(value.as_str(), u64::MAX) {
            Some(n) => if n > 0 {
                (Some(n), "db")
            } else {
                (env, "env")
            },
            None => (env, "env"),
        },
    }
}

/// A port setting; a row that is not valid is passed over.
pub fn overlay_port(rows: &Vec<SettingRow>, key: &str, env: u16) -> (r: (u16, &'static str))
    ensures
        (r.0, r.1@) == port_setting(rows.deep_view(), key@, env),
{
    match value_of(rows, key) {
        None => (env, "env"),
        Some(value) => match parse_number(value.as_str(), u16::MAX as u64) {
            Some(n) => if n >= 1 {
                (n as u16, "db")
            } else {
                (env, "env")
            },
            None => (env, "env"),
        },
    }
}

/// A switch setting; a row that is not valid is passed over.
pub fn overlay_bool(rows: &Vec<SettingRow>, key: &str, env: bool) -> (r: (bool, &'static str))
    ensures
        (r.0, r.1@) == switch_setting(rows.deep_view(), key@, env),
{
    match value_of(rows, key) {
        None => (env, "env"),
        Some(value) => if same(value.as_str(), "1") {
            (true, "db")
        } else if same(value.as_str(), "0") {
            (false, "db")
        } else {
            (env, "env")
        },
    }
}

/// A text without the white space at its ends, if anything is left of it.
pub fn trimmed_option(value: &Option<String>) -> (r: Option<String>)
    ensures
        r.deep_view() == kept_text(value.deep_view()),
{
    match value {
        Some(raw) => {
            let kept = trim(raw.as_str());
            if kept.as_str().unicode_len() > 0 {
                Some(kept)
            } else {
                None
            }
        },
        None => None,
    }
}

/// The SMTP channel, if host and sender are there.
pub fn assemble_smtp(
    host: &Option<String>,
    port: u16,
    starttls: bool,
    username: &Option<String>,
    password: &Option<String>,
    from: &Option<String>,
) -> (r: Option<ResolvedSmtp>)
    ensures
        r.deep_view() == smtp_channel(
            host.deep_view(),
            port,
            starttls,
            username.deep_view(),
            password.deep_view(),
            from.deep_view(),
        ),
{
    match (trimmed_option(host), trimmed_option(from)) {
        (Some(host), Some(from)) => Some(
            ResolvedSmtp {
                host,
                port,
                starttls,
                username: trimmed_option(username),
                password: dup_option(password),
                from,
            },
        ),
        _ => None,
    }
}

/// The settings in force and their sources.
pub fn overlay_rows(rows: &Vec<SettingRow>, config: &Config) -> (r: SettingsOverlay)
    ensures
        r@ == overlaid(rows.deep_view(), config@),
{
    let host = overlay_text(rows, "smtp_host", &config.smtp_host);
    let port = overlay_port(rows, "smtp_port", config.smtp_port);
    let starttls = overlay_bool(rows, "smtp_starttls", config.smtp_starttls);
    let username = overlay_text(rows, "smtp_username", &config.smtp_username);
    let password = overlay_text(rows, "smtp_password", &config.smtp_password);
    let from = overlay_text(rows, "smtp_from", &config.smtp_from);
    let smtp = assemble_smtp(&host.0, port.0, starttls.0, &username.0, &password.0, &from.0);
    let audit = overlay_u64(rows, "audit_retention_days", config.audit_retention_days);
    let upload = overlay_u64(rows, "upload_retention_days", config.upload_retention_days);
    let bytes = overlay_positive(rows, "default_max_total_bytes", config.default_max_total_bytes);
    let links = overlay_positive(rows, "default_max_links", config.default_max_links);
    let sessions = overlay_positive(rows, "default_max_sessions", config.default_max_sessions);
    let login = overlay_bool(rows, "public_password_login", config.public_password_login);
    let secs = overlay_u64(rows, "sso_session_secs", config.sso_session_secs);
    let secs = if secs.0 == 0 {
        (config.sso_session_secs, "env")
    } else {
        secs
    };
    let scim = overlay_text(rows, "scim_token", &config.scim_token);
    let previous = overlay_text(rows, "scim_token_previous", &None);
    let replica = overlay_text(rows, "replica_token", &config.replica_token);
    let provisioning = overlay_bool(rows, "require_provisioning", config.require_provisioning);
    let draining = overlay_bool(rows, "draining", false);
    SettingsOverlay {
        smtp_password_set: password.0.is_some(),
        scim_token_set: scim.0.is_some(),
        scim_token_previous_set: previous.0.is_some(),
        replica_token_set: replica.0.is_some(),
        resolved: ResolvedSettings {
            smtp,
            audit_retention_days: audit.0,
            upload_retention_days: upload.0,
            default_max_total_bytes: bytes.0,
            default_max_links: links.0,
            default_max_sessions: sessions.0,
            public_password_login: login.0,
            sso_session_secs: secs.0,
            scim_token: scim.0,
            scim_token_previous: previous.0,
            replica_token: replica.0,
            require_provisioning: provisioning.0,
            draining: draining.0,
        },
        smtp_host: host.0,
        smtp_host_source: host.1,
        smtp_port: port.0,
        smtp_port_source: port.1,
        smtp_starttls: starttls.0,
        smtp_starttls_source: starttls.1,
        smtp_username: username.0,
        smtp_username_source: username.1,
        smtp_password_source: password.1,
        smtp_from: from.0,
        smtp_from_source: from.1,
        audit_retention_days_source: audit.1,
        upload_retention_days_source: upload.1,
        default_max_total_bytes_source: bytes.1,
        default_max_links_source: links.1,
        default_max_sessions_source: sessions.1,
        public_password_login_source: login.1,
        sso_session_secs_source: secs.1,
        scim_token_source: scim.1,
        replica_token_source: replica.1,
        require_provisioning_source: provisioning.1,
        draining_source: draining.1,
    }
}

fn write_setting(
    rows: &mut Vec<SettingRow>,
    key: &str,
    write: &SettingWrite,
    at: i64,
    actor: &str,
)
    ensures
        final(rows).deep_view() == after_write(
            old(rows).deep_view(),
            key@,
            written_value(*write),
            at,
            actor@,
        ),
{
    let hit = |r: &SettingRow| -> (b: bool)
        ensures
            b == setting_is(key@)(r@),
    {
        same(r.key.as_str(), key)
    };
    match write {
        SettingWrite::Put(value) => {
            let change = |r: &SettingRow| -> (r2: SettingRow)
                ensures
                    r2@ == resettled(value@, at, actor@)(r@),
            {
                SettingRow {
                    key: r.key.clone(),
                    value: value.clone(),
                    updated_at: at,
                    updated_by: actor.to_owned(),
                }
            };
            if exists_where(rows, hit, Ghost(setting_is(key@))) {
                update_where(
                    rows,
                    hit,
                    change,
                    Ghost(setting_is(key@)),
                    Ghost(resettled(value@, at, actor@)),
                );
            } else {
                append_row(
                    rows,
                    SettingRow {
                        key: key.to_owned(),
                        value: value.clone(),
                        updated_at: at,
                        updated_by: actor.to_owned(),
                    },
                );
            }
        },
        SettingWrite::Reset => {
            delete_where(rows, hit, Ghost(setting_is(key@)), Ghost(other_setting(key@)));
        },
    }
}

impl Store {
    /// What the database sets for a key.
    pub fn setting(&self, key: &str) -> (r: Result<Option<String>, String>)
        ensures
            outcome(r) == Ok::<Option<Seq<char>>, Seq<char>>(set_to(self@.settings, key@)),
    {
        match value_of(&self.settings, key) {
            Some(value) => Ok(Some(value.clone())),
            None => Ok(None),
        }
    }

    /// Every setting with its value.
    pub fn settings_map(&self) -> (r: Result<Vec<(String, String)>, String>)
        ensures
            outcome(r) == Ok::<Seq<(Seq<char>, Seq<char>)>, Seq<char>>(
                crate::ground::settings_told(self@),
            ),
    {
        let pair = |r: &SettingRow| -> (p: (String, String))
            ensures
                p.deep_view() == key_and_value()(r@),
        {
            (r.key.clone(), r.value.clone())
        };
        Ok(project(&self.settings, pair, Ghost(key_and_value())))
    }

    /// Writes settings now.
    pub fn put_settings(&mut self, actor: &str, writes: &[(String, SettingWrite)]) -> (r: Result<
        (),
        String,
    >)
        ensures
            r is Ok,
            exists|reading: Option<u64>| #[trigger]
                clock_gave(reading) && final(self)@ == settings_written(
                    old(self)@,
                    actor@,
                    writes_of(writes@),
                    time_of(reading),
                ),
    {
        let now: u64 = now_unix();
        self.put_settings_at(actor, writes, now)
    }

    /// Writes settings at time `now`.
    pub fn put_settings_at(&mut self, actor: &str, writes: &[(String, SettingWrite)], now: u64) -> (r: Result<
        (),
        String,
    >)
        ensures
            r is Ok,
            final(self)@ == settings_written(old(self)@, actor@, writes_of(writes@), now),
    {
        let at: i64 = to_column_or_zero(now);
        let ghost before = self@;
        let ghost all = writes_of(writes@);
        let mut i: usize = 0;
        assert(all.take(0) =~= Seq::<(Seq<char>, Option<Seq<char>>)>::empty());
        while i < writes.len()
            invariant
                i <= writes.len(),
                all == writes_of(writes@),
                self@ == (StoreView {
                    settings: after_writes(before.settings, all.take(i as int), at, actor@),
                    ..before
                }),
            decreases writes.len() - i,
        {
            proof {
                assert(all.take(i + 1).drop_last() =~= all.take(i as int));
                assert(all.take(i + 1).last() == (
                    writes@[i as int].0@,
                    written_value(writes@[i as int].1),
                ));
            }
            write_setting(&mut self.settings, writes[i].0.as_str(), &writes[i].1, at, actor);
            i += 1;
        }
        assert(all.take(i as int) =~= all);
        if self.settings_generation == u64::MAX {
            self.settings_generation = 0;
        } else {
            self.settings_generation = self.settings_generation + 1;
        }
        Ok(())
    }

    /// Counts changes of the settings.
    pub fn settings_generation(&self) -> (n: u64)
        ensures
            n == self@.settings_generation,
    {
        self.settings_generation
    }

    /// The settings in force and their sources.
    pub fn overlay(&self, config: &Config) -> (r: Result<SettingsOverlay, String>)
        ensures
            outcome(r) == Ok::<SettingsOverlayView, Seq<char>>(overlaid(self@.settings, config@)),
    {
        Ok(overlay_rows(&self.settings, config))
    }

    /// The settings in force.
    pub fn resolved_settings(&self, config: &Config) -> (r: Result<ResolvedSettings, String>)
        ensures
            outcome(r) == Ok::<ResolvedSettingsView, Seq<char>>(
                overlaid(self@.settings, config@).resolved,
            ),
    {
        Ok(overlay_rows(&self.settings, config).resolved)
    }

    /// The caps that apply to a namespace: the tenant's own, or the defaults for
    /// the default tenant.
    pub fn quotas_for(&self, tenant_key: &str, config: &Config) -> (r: Result<Quotas, String>)
        ensures
            outcome(r) == caps_of(self@, tenant_key@, config@),
    {
        if tenant_key.unicode_len() == 0 {
            let settings = overlay_rows(&self.settings, config).resolved;
            return Ok(
                (
                    settings.default_max_total_bytes,
                    settings.default_max_links,
                    settings.default_max_sessions,
                ),
            );
        }
        match self.tenant(tenant_key) {
            Ok(Some(tenant)) => Ok((tenant.max_total_bytes, tenant.max_links, tenant.max_sessions)),
            Ok(None) => Ok((None, None, None)),
            Err(error) => Err(error),
        }
    }

    /// The digest of the administrator's password.
    pub fn admin_password_hash(&self) -> (r: Result<Option<String>, String>)
        ensures
            outcome(r) == Ok::<Option<Seq<char>>, Seq<char>>(crate::answers::password_told(self@)),
    {
        let hit = |m: &MetaRow| -> (b: bool)
            ensures
                b == meta_is("admin_password_hash"@)(m@),
        {
            same(m.key.as_str(), "admin_password_hash")
        };
        match find(&self.meta, hit, Ghost(meta_is("admin_password_hash"@))) {
            Some(found) => Ok(Some(self.meta[found].value.clone())),
            None => Ok(None),
        }
    }

    /// Sets the digest of the administrator's password.
    pub fn set_admin_password_hash(&mut self, hash: String) -> (r: Result<(), String>)
        ensures
            r is Ok,
            final(self)@ == crate::answers::with_password(old(self)@, hash@),
    {
        let hit = |m: &MetaRow| -> (b: bool)
            ensures
                b == meta_is("admin_password_hash"@)(m@),
        {
            same(m.key.as_str(), "admin_password_hash")
        };
        let change = |m: &MetaRow| -> (r: MetaRow)
            ensures
                r@ == meta_set(hash@)(m@),
        {
            MetaRow { key: m.key.clone(), value: hash.clone() }
        };
        if exists_where(&self.meta, hit, Ghost(meta_is("admin_password_hash"@))) {
            update_where(
                &mut self.meta,
                hit,
                change,
                Ghost(meta_is("admin_password_hash"@)),
                Ghost(meta_set(hash@)),
            );
        } else {
            append_row(
                &mut self.meta,
                MetaRow { key: "admin_password_hash".to_owned(), value: hash.clone() },
            );
        }
        Ok(())
    }
}

} // verus!
