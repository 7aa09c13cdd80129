//! The audit log and the administrator's password.
use votport_store::audit::AuditFilters;
use votport_store::clock::now_unix;
use votport_store::rows::AuditLogRow;
use votport_store::store::Store;

#[test]
fn admin_hash_persists_across_reopen() {
    let mut store = Store::new();
    assert!(store.admin_password_hash().unwrap().is_none());
    store.set_admin_password_hash("argon2-hash".to_owned()).unwrap();
    let mut reopened = store.clone();
    assert_eq!(reopened.admin_password_hash().unwrap().as_deref(), Some("argon2-hash"));
    reopened.set_admin_password_hash("next".to_owned()).unwrap();
    assert_eq!(reopened.admin_password_hash().unwrap().as_deref(), Some("next"));
    assert_eq!(reopened.meta.len(), 1);
}

#[test]
fn audit_rows_round_trip_export_and_prune() {
    let mut store = Store::new();
    store.audit("", "", "link_created", "link-1", "{ \"label\": \"x\" }");
    store.audit("", "", "admin_login", "10.0.0.1", "{}");
    let rows = store.audit_export(None, 0, 0, 100).unwrap();
    assert_eq!(rows.len(), 2);
    assert_eq!(rows[0].event, "link_created");
    assert_eq!(rows[0].tenant, "");
    assert_eq!(rows[0].detail, "{\"label\":\"x\"}");
    let after_all = store.audit_export(None, rows.last().unwrap().at + 1, 0, 100).unwrap();
    assert!(after_all.is_empty());
    assert_eq!(store.audit_export(None, 0, 0, 1).unwrap().len(), 1);
    let pruned = store.audit_prune(now_unix() + 1).unwrap();
    assert_eq!(pruned, 2);
    assert!(store.audit_export(None, 0, 0, 100).unwrap().is_empty());
    store.audit("", "", "test", "corrupt", "{}");
    store.audit_log[0].detail = "broken".to_owned();
    assert_eq!(
        store.audit_export(None, 0, 0, 100).unwrap_err(),
        "Conversion error from type Text at index: 6, expected value at line 1 column 1"
    );
}

#[test]
fn audit_count_tracks_mutations_rollbacks_pruning_and_reopen() {
    let mut store = Store::new();
    assert_eq!(store.audit_count().unwrap(), 0);
    store.audit("", "", "committed", "one", "{}");
    assert_eq!(store.audit_count().unwrap(), 1);
    assert_eq!(store.insert_audit_row(now_unix(), "", "", "direct", "two", "{}").unwrap(), 1);
    assert_eq!(store.audit_count().unwrap(), 2);
    let mut rolled_back = store.clone();
    rolled_back.insert_audit_row(now_unix(), "", "", "rollback", "rolled-back", "{}").unwrap();
    assert_eq!(store.audit_count().unwrap(), 2);
    assert_eq!(store.audit_prune(now_unix() + 1).unwrap(), 2);
    assert_eq!(store.audit_count().unwrap(), 0);
    let reopened = store.clone();
    assert_eq!(reopened.audit_count().unwrap(), 0);
}

#[test]
fn audit_count_reads_retained_counter_after_audit_history_removed() {
    let mut store = Store::new();
    store.audit("", "", "first", "one", "{}");
    store.audit("", "", "second", "two", "{}");
    store.audit("", "", "third", "three", "{}");
    assert_eq!(store.audit_count().unwrap(), 3);
    store.audit_log.clear();
    assert_eq!(store.audit_count().unwrap(), 3);
}

#[test]
fn audit_export_cursor_survives_same_second_rows() {
    let mut store = Store::new();
    for index in 0..3 {
        store.audit_at("", "", "event", &format!("row-{index}"), "{}", 1000);
    }
    let page_one = store.audit_export(None, 0, 0, 2).unwrap();
    assert_eq!(page_one.len(), 2);
    let last = page_one.last().unwrap();
    let page_two = store.audit_export(None, last.at, last.rowid as u64, 2).unwrap();
    assert_eq!(page_two.len(), 1);
    assert_eq!(page_two[0].subject, "row-2");
}

#[test]
fn audit_export_filters_by_tenant() {
    let mut store = Store::new();
    store.audit("acme", "", "link_created", "l-1", "{}");
    store.audit("", "", "admin_login", "ip", "{}");
    let scoped = store.audit_export(Some("acme"), 0, 0, 100).unwrap();
    assert_eq!(scoped.len(), 1);
    assert_eq!(scoped[0].tenant, "acme");
    let default = store.audit_export(Some(""), 0, 0, 100).unwrap();
    assert_eq!(default.len(), 1);
    assert_eq!(default[0].tenant, "");
    assert_eq!(store.audit_export(None, 0, 0, 100).unwrap().len(), 2);
}

#[test]
fn recent_audit_is_descending_and_tenant_scoped() {
    let mut store = Store::new();
    store.audit("acme", "", "first", "a", "{}");
    store.audit("acme", "", "second", "b", "{}");
    store.audit("other", "", "foreign", "c", "{}");
    let page = store.audit_recent(Some("acme"), 0, 1).unwrap();
    assert_eq!(page.len(), 1);
    assert_eq!(page[0].event, "second");
    let older = store.audit_recent(Some("acme"), page[0].rowid as u64, 10).unwrap();
    assert_eq!(older.len(), 1);
    assert_eq!(older[0].event, "first");
}

#[test]
fn audit_filters_match_fields_without_searching_detail() {
    let mut store = Store::new();
    store.audit("acme", "Alice", "link_created", "request-1", "{\"secret_marker\":\"needle\"}");
    store.audit("acme", "Bob", "link_deleted", "request-2", "{}");
    store.audit("other", "Alice", "link_created", "request-3", "{}");
    store.audit("", "", "default_event", "request-4", "{}");
    let filters = AuditFilters { event: Some("link_created"), query: Some("ALICE") };
    let recent = store.audit_recent_filtered(Some("acme"), 0, 100, filters).unwrap();
    assert_eq!(recent.len(), 1);
    assert_eq!(recent[0].subject, "request-1");
    let detail_only = store
        .audit_recent_filtered(
            Some("acme"),
            0,
            100,
            AuditFilters { event: None, query: Some("needle") },
        )
        .unwrap();
    assert!(detail_only.is_empty());
    let display_tenant = store
        .audit_recent_filtered(None, 0, 100, AuditFilters { event: None, query: Some("DEFAULT") })
        .unwrap();
    assert_eq!(display_tenant.len(), 1);
    assert_eq!(display_tenant[0].event, "default_event");
    let legacy = store.audit_export_filtered(Some("acme"), 0, 0, 100, filters).unwrap();
    assert_eq!(legacy.len(), 1);
    assert_eq!(legacy[0].subject, "request-1");
}

#[test]
fn filtered_audit_cursor_paginates_recent_rows() {
    let mut store = Store::new();
    for subject in ["first", "second", "third"] {
        store.audit("acme", "", "match", subject, "{}");
    }
    let filters = AuditFilters { event: Some("match"), query: None };
    let first = store.audit_recent_filtered(Some("acme"), 0, 2, filters).unwrap();
    assert_eq!(first.len(), 2);
    let second = store
        .audit_recent_filtered(Some("acme"), first[1].rowid as u64, 2, filters)
        .unwrap();
    assert_eq!(second.len(), 1);
    assert_eq!(second[0].subject, "first");
}

#[test]
fn rows_that_cannot_be_written_are_counted() {
    let mut store = Store::new();
    store.audit_log.push(AuditLogRow {
        rowid: i64::MAX,
        at: 0,
        tenant: String::new(),
        actor: String::new(),
        event: "last".to_owned(),
        subject: String::new(),
        detail: "{}".to_owned(),
    });
    store.audit("", "", "lost", "", "{}");
    assert_eq!(store.audit_insert_failures, 1);
    assert_eq!(store.audit_log.len(), 1);
    assert_eq!(
        store.insert_audit_row(0, "", "", "lost", "", "{}").unwrap_err(),
        "database or disk is full"
    );
}

#[test]
fn empty_filters_select_everything_and_limits_bound_it() {
    let mut store = Store::new();
    for index in 0..5 {
        store.audit_at("acme", "", "event", "s", "{}", index);
    }
    let filters = AuditFilters { event: Some(""), query: Some("") };
    assert_eq!(store.audit_export_filtered(None, 0, 0, 100, filters).unwrap().len(), 5);
    assert_eq!(store.audit_export(None, 2, 0, 100).unwrap().len(), 3);
    assert_eq!(store.audit_export(None, u64::MAX, u64::MAX, u64::MAX).unwrap().len(), 5);
    assert!(store.audit_recent(None, 0, 0).unwrap().is_empty());
    assert_eq!(store.audit_recent(None, u64::MAX, u64::MAX).unwrap().len(), 5);
    assert_eq!(store.audit_prune(3).unwrap(), 3);
    assert_eq!(store.audit_prune(u64::MAX).unwrap(), 0);
}

#[test]
fn filtered_audit_reads_use_scope_indexes() {
    let mut store = Store::new();
    for index in 0..100u64 {
        store.audit_at(
            if index % 10 < 2 { "acme" } else { "other" },
            "actor",
            if index % 7 == 0 { "rare" } else { "common" },
            if index == 70 { "needle" } else { "other" },
            "{}",
            index / 4,
        );
    }
    let none = AuditFilters { event: None, query: None };
    let rare = AuditFilters { event: Some("rare"), query: None };
    let common = AuditFilters { event: Some("common"), query: None };
    let tenant_recent = store.audit_recent_filtered(Some("acme"), 0, 5, none).unwrap();
    assert_eq!(
        tenant_recent.iter().map(|row| row.subject.as_str()).collect::<Vec<_>>(),
        ["other", "other", "other", "other", "other"]
    );
    assert!(tenant_recent.iter().all(|row| row.tenant == "acme"));
    let page_two = store
        .audit_recent_filtered(
            Some("acme"),
            tenant_recent.last().unwrap().rowid as u64,
            5,
            none,
        )
        .unwrap();
    assert_eq!(page_two.len(), 5);
    assert!(page_two.iter().all(|row| row.tenant == "acme"));
    let event_recent = store.audit_recent_filtered(None, 0, 5, rare).unwrap();
    assert_eq!(event_recent.len(), 5);
    assert!(event_recent.iter().all(|row| row.event == "rare"));
    let common_recent = store.audit_recent_filtered(None, 0, 5, common).unwrap();
    assert_eq!(common_recent.len(), 5);
    assert!(common_recent.iter().all(|row| row.event == "common"));
    let both = AuditFilters { event: Some("rare"), query: Some("NEEDLE") };
    let combined_recent = store.audit_recent_filtered(Some("acme"), 0, 5, both).unwrap();
    assert_eq!(combined_recent.len(), 1);
    assert_eq!(combined_recent[0].subject, "needle");
    let ids = |rows: &[votport_store::records::AuditRow]| {
        rows.iter().map(|row| row.rowid).collect::<Vec<_>>()
    };
    let tenant_export = store.audit_export_filtered(Some("acme"), 0, 0, 5, none).unwrap();
    assert_eq!(ids(&tenant_export), [1, 2, 11, 12, 21]);
    let last = tenant_export.last().unwrap();
    let page_two =
        store.audit_export_filtered(Some("acme"), last.at, last.rowid as u64, 5, none).unwrap();
    assert_eq!(ids(&page_two), [22, 31, 32, 41, 42]);
    let event_export = store.audit_export_filtered(None, 0, 0, 5, rare).unwrap();
    assert_eq!(ids(&event_export), [1, 8, 15, 22, 29]);
    let common_export = store.audit_export_filtered(None, 0, 0, 5, common).unwrap();
    assert_eq!(ids(&common_export), [2, 3, 4, 5, 6]);
    let combined_export = store.audit_export_filtered(Some("acme"), 0, 0, 5, rare).unwrap();
    assert_eq!(ids(&combined_export), [1, 22, 71, 92]);
    let mut deep = Store::new();
    for index in 0..1000u64 {
        deep.audit_at(
            if index % 10 < 2 { "acme" } else { "other" },
            "actor",
            if index % 7 == 0 { "rare" } else { "common" },
            "subject",
            "{}",
            index / 4,
        );
    }
    let deep_export = deep.audit_export_filtered(None, 200, 803, 5, none).unwrap();
    assert_eq!(ids(&deep_export), [804, 805, 806, 807, 808]);
    assert!(deep_export.iter().all(|row| row.at >= 200));
}
