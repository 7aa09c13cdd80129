//! Request links and the uploads that came in through them.
use votport_store::kinds::InsertLinkError;
use votport_store::records::{
    FileRecord, HeaderMembers, Link, LinkCursor, LogEvent, ObjectId, SessionEvent, Tenant,
    UploadRecord,
};
use votport_store::rows::{AuditLogRow, FileRow, InboundRouteRow, TradeEndpointRow, UploadRow};
use votport_store::store::Store;
use votport_store::uploads::UploadHooks;

fn test_link(id: &str) -> Link {
    Link {
        id: id.to_owned(),
        tenant: String::new(),
        label: "test".to_owned(),
        dest: String::new(),
        password_hash: None,
        created_at: 0,
        expires_at: None,
        max_bytes: None,
        active: true,
        legal_hold: false,
        notifications: None,
        uploads: Vec::new(),
        events: Vec::new(),
    }
}

fn link_in(tenant: &str, id: &str) -> Link {
    Link { tenant: tenant.to_owned(), ..test_link(id) }
}

fn test_tenant(key: &str) -> Tenant {
    Tenant {
        incarnation: String::new(),
        key: key.to_owned(),
        label: key.to_owned(),
        admin_group: None,
        max_total_bytes: None,
        max_links: None,
        max_sessions: None,
        created_at: 0,
    }
}

fn upload(id: &str) -> UploadRecord {
    UploadRecord {
        id: id.to_owned(),
        started_at: 1,
        completed_at: 2,
        replayed_chunks: 0,
        rejected_chunks: 0,
        transport: None,
        package_root: "package".to_owned(),
        total_bytes: 1,
        files: Vec::new(),
        partial: false,
        log: Vec::new(),
    }
}

fn received(path: &str, stored_as: &str, bytes: u64, root: &str, receipt: bool) -> FileRecord {
    FileRecord {
        path: path.to_owned(),
        stored_as: stored_as.to_owned(),
        bytes,
        suite: "blake3".to_owned(),
        root: root.to_owned(),
        receipt,
        deleted: false,
    }
}

fn hooks() -> UploadHooks {
    UploadHooks { queued: Ok(()), routed: Ok(()) }
}

fn paths(list: &[&str]) -> Vec<String> {
    list.iter().map(|path| (*path).to_owned()).collect()
}

fn split(bytes: u64) -> (i64, i64) {
    ((bytes >> 32) as i64, (bytes & 0xffff_ffff) as i64)
}

fn no_members() -> HeaderMembers {
    HeaderMembers {
        completed_at: None,
        completed_part: None,
        completed_rest: 0,
        completed_order: 0,
        completed_text: None,
        partial: false,
        total_bytes: None,
        total_error: None,
    }
}

#[test]
fn delivered_candidates_match_full_identity_and_seek_past_aliases() {
    let mut store = Store::new();
    let suite_name = |suite: u16| if suite == 1 { "sha256" } else { "blake3" };
    for suite in [1u16, 2] {
        for length in [0, u64::from(u32::MAX), 1_u64 << 32, u64::MAX] {
            let object = ObjectId { suite, root: [7; 32], length };
            store.files.clear();
            for variant in 0..8 {
                let (hi, lo) = split(if variant == 5 {
                    length ^ (1_u64 << 32)
                } else if variant == 6 {
                    length ^ 1
                } else {
                    length
                });
                store.files.push(FileRow {
                    tenant: if variant == 1 { "other" } else { "tenant" }.to_owned(),
                    link_id: if variant == 2 { "other" } else { "link" }.to_owned(),
                    upload_id: variant.to_string(),
                    file_index: 0,
                    bytes_hi: hi,
                    bytes_lo: lo,
                    deleted: variant == 7,
                    stored_as: format!("candidate-{variant}"),
                    path: "original".to_owned(),
                    suite: suite_name(if variant == 3 { 3 - suite } else { suite }).to_owned(),
                    root: if variant == 4 { "08" } else { "07" }.repeat(32),
                    receipt: true,
                });
            }
            let name = suite_name(suite);
            assert_eq!(
                store.delivered_candidates("tenant", "link", &object, name, "").unwrap(),
                [("candidate-0".to_owned(), true)]
            );
            assert!(store
                .delivered_candidates("tenant", "link", &object, name, "candidate-0")
                .unwrap()
                .is_empty());
            let (hi, lo) = split(length);
            for i in 0..128 * 2 + 1 {
                store.files.push(FileRow {
                    tenant: "tenant".to_owned(),
                    link_id: "link".to_owned(),
                    upload_id: format!("alias-{i}"),
                    file_index: 0,
                    bytes_hi: hi,
                    bytes_lo: lo,
                    deleted: false,
                    stored_as: "a-alias".to_owned(),
                    path: "original".to_owned(),
                    suite: name.to_owned(),
                    root: "07".repeat(32),
                    receipt: false,
                });
            }
            let page = store.delivered_candidates("tenant", "link", &object, name, "").unwrap();
            assert_eq!(page.len(), 128);
            assert!(page.iter().all(|row| row == &("a-alias".to_owned(), false)));
            assert_eq!(
                store
                    .delivered_candidates("tenant", "link", &object, name, &page.last().unwrap().0)
                    .unwrap(),
                [("candidate-0".to_owned(), true)]
            );
        }
    }
}

#[test]
fn uploads_since_preserves_u64_max_and_saturates_sum_overflow() {
    let mut store = Store::new();
    let done = |id: &str, total_bytes| UploadRecord {
        completed_at: 10,
        package_root: String::new(),
        total_bytes,
        ..upload(id)
    };
    let mut first = test_link("first");
    first.uploads = vec![done("max", u64::MAX)];
    store.insert_link(first).unwrap();
    assert_eq!(store.uploads_since("", 0).unwrap(), (1, u64::MAX));
    let mut second = test_link("second");
    second.uploads = vec![done("one", 1)];
    store.insert_link(second).unwrap();
    assert_eq!(store.uploads_since("", 0).unwrap(), (2, u64::MAX));
}

#[test]
fn legal_hold_rolls_back_when_audit_fails() {
    let mut store = Store::new();
    store.insert_link(test_link("held")).unwrap();
    store.audit_log.push(AuditLogRow {
        rowid: i64::MAX,
        at: 0,
        tenant: String::new(),
        actor: String::new(),
        event: "last".to_owned(),
        subject: String::new(),
        detail: "{}".to_owned(),
    });
    assert!(store.set_link_legal_hold("", "held", true, "admin").is_err());
    assert!(!store.link("", "held").unwrap().unwrap().legal_hold);
    store.audit_log.clear();
    assert!(store.set_link_legal_hold("", "held", true, "admin").unwrap());
    assert!(store.link("", "held").unwrap().unwrap().legal_hold);
    assert_eq!(store.audit_log[0].event, "link_legal_hold_changed");
    assert_eq!(store.audit_log[0].detail, "{\"legal_hold\":true}");
    assert!(!store.set_link_legal_hold("other", "held", true, "admin").unwrap());
}

#[test]
fn link_upload_extracts_one_record_without_the_full_history() {
    let mut store = Store::new();
    let mut link = test_link("link-1");
    for index in 0..3 {
        link.uploads.push(UploadRecord {
            package_root: format!("root-{index}"),
            total_bytes: 5,
            ..upload(&format!("up-{index}"))
        });
    }
    store.insert_link(link).unwrap();
    let found = store.link_upload("", "link-1", "up-1").unwrap().unwrap();
    assert_eq!(found.id, "up-1");
    assert_eq!(found.package_root, "root-1");
    assert!(store.link_upload("", "link-1", "up-9").unwrap().is_none());
    assert!(store.link_upload("other", "link-1", "up-1").unwrap().is_none());
}

#[test]
fn links_round_trip_with_uploads_and_events() {
    let mut store = Store::new();
    let mut link = test_link("link-1");
    link.uploads.push(UploadRecord {
        replayed_chunks: 3,
        rejected_chunks: 4,
        package_root: "aa".to_owned(),
        total_bytes: 5,
        files: vec![received("a.txt", "a.txt", 5, "bb", true)],
        ..upload("up-1")
    });
    link.events.push(SessionEvent {
        at: 3,
        started_at: 1,
        outcome: "cancelled".to_owned(),
        detail: "by sender".to_owned(),
        received_bytes: 6,
        expected_bytes: 7,
        replayed_chunks: 8,
        rejected_chunks: 9,
    });
    store.insert_link(link.clone()).unwrap();
    let loaded = store.link("", "link-1").unwrap().unwrap();
    assert_eq!(loaded, link);
    assert_eq!(loaded.uploads.len(), 1);
    assert!(loaded.uploads[0].files[0].receipt);
    assert_eq!(loaded.events[0].outcome, "cancelled");
    assert_eq!(store.links("").unwrap().len(), 1);
    let upload_link = store.upload_link("link-1").unwrap().unwrap();
    assert!(upload_link.uploads.is_empty());
    assert!(upload_link.events.is_empty());
    assert_eq!(store.uploads_by_id("link-1").unwrap().unwrap().len(), 1);
    assert!(store.upload_link("missing").unwrap().is_none());
    assert!(store.uploads_by_id("missing").unwrap().is_none());
    store.uploads[0].header_error = Some("expected value at line 1 column 1".to_owned());
    assert!(store.uploads_by_id("link-1").is_err());
    assert!(store.link("", "link-1").is_err());
    store.uploads.clear();
    store.links[0].events_error = Some("expected value at line 1 column 1".to_owned());
    assert!(store.uploads_by_id("link-1").is_err());
    assert!(store.link("", "link-1").is_err());
}

#[test]
fn update_and_remove_report_presence() {
    let mut store = Store::new();
    store.insert_link(test_link("link-1")).unwrap();
    let found = store
        .update_link("", "link-1", |link| Link { active: false, ..link })
        .unwrap();
    assert!(found);
    assert!(!store.link("", "link-1").unwrap().unwrap().active);
    assert!(!store.update_link("", "missing", |link| link).unwrap());
    assert!(store.remove_link("", "link-1", false).unwrap());
    assert!(!store.remove_link("", "link-1", false).unwrap());
    assert!(store.link("", "link-1").unwrap().is_none());
}

#[test]
fn tombstones_do_not_decode_upload_headers() {
    let mut store = Store::new();
    let mut link = test_link("link");
    link.uploads.push(UploadRecord {
        files: vec![received("display", "stored", 1, "aa", true)],
        ..upload("upload")
    });
    let mut alias = link.uploads[0].clone();
    alias.id = "alias".into();
    link.uploads.push(alias);
    let mut unrelated = link.uploads[0].clone();
    unrelated.id = "unrelated".into();
    unrelated.files[0].stored_as = "other".into();
    link.uploads.push(unrelated);
    store.insert_link(link).unwrap();
    for row in &mut store.uploads {
        row.header_error = Some("missing field `id` at line 1 column 2".to_owned());
    }
    let live = |store: &Store| store.files.iter().filter(|row| !row.deleted).count();
    assert_eq!(store.tenant_received_bytes("").unwrap(), 2);
    assert!(!store.tombstone_files("other-tenant", "link", &paths(&["stored"])).unwrap());
    assert_eq!(store.tenant_received_bytes("").unwrap(), 2);
    assert_eq!(live(&store), 3);
    assert!(store.link_upload("", "link", "upload").is_err());
    assert!(store.tombstone_files("", "link", &paths(&["stored"])).unwrap());
    assert_eq!(store.tenant_live_files("").unwrap(), vec![("other".to_owned(), 1)]);
    assert!(store.link_upload("", "link", "upload").is_err());
    assert!(store.link_upload("", "link", "unrelated").is_err());
}

#[test]
fn upload_headers_stay_small_and_typed_files_round_trip() {
    let mut store = Store::new();
    let mut link = test_link("link");
    let full = UploadRecord {
        started_at: 11,
        completed_at: 22,
        replayed_chunks: 3,
        rejected_chunks: 4,
        transport: Some("native".into()),
        package_root: "aa".repeat(32),
        total_bytes: u64::MAX,
        partial: true,
        log: vec![LogEvent {
            at: 22,
            kind: "interrupted".into(),
            path: None,
            bytes: Some(u64::MAX),
            secs: Some(5),
            count: Some(2048),
        }],
        files: (0..2048)
            .map(|index| FileRecord {
                path: format!("folder/\u{7d0d}\u{54c1}-{index}.mov"),
                stored_as: format!("stored/{index}.mov"),
                bytes: if index == 0 { u64::MAX } else { index },
                suite: if index % 2 == 0 { "sha256" } else { "blake3" }.into(),
                root: format!("{index:064x}"),
                receipt: index % 2 == 0,
                deleted: index % 2 != 0,
            })
            .collect(),
        ..upload("upload")
    };
    link.uploads.push(full.clone());
    let mut empty = full.clone();
    empty.id = "empty".into();
    empty.files.clear();
    empty.total_bytes = 0;
    link.uploads.push(empty.clone());
    store.insert_link(link).unwrap();
    let row = store.uploads.iter().find(|row| row.upload_id == "upload").unwrap();
    assert!(row.header.files.is_empty());
    assert_eq!(row.file_count, 2048);
    let store = store.clone();
    assert_eq!(store.link_upload("", "link", "upload").unwrap().unwrap(), full);
    assert_eq!(store.link_upload("", "link", "empty").unwrap().unwrap(), empty);
    assert_eq!(store.uploads_by_id("link").unwrap().unwrap(), vec![full, empty]);
    let result = store.search("", "\u{7d0d}\u{54c1}-0.mov", 10).unwrap();
    assert_eq!(result.files.len(), 1);
    assert_eq!(result.files[0].bytes, u64::MAX);
    assert_eq!(result.files[0].upload_id, "upload");
    assert!(store.search("", "\u{7d0d}\u{54c1}-1.mov", 10).unwrap().files.is_empty());
}

#[test]
fn full_upload_reads_refuse_missing_or_misindexed_file_records() {
    let mut store = Store::new();
    let mut link = test_link("link");
    link.uploads.push(UploadRecord {
        total_bytes: 2,
        files: (0..2)
            .map(|i| received(&format!("file-{i}"), &format!("stored-{i}"), 1, "aa", true))
            .collect(),
        ..upload("upload")
    });
    store.insert_link(link).unwrap();
    let refused = |store: &Store| {
        store.link_upload("", "link", "upload").unwrap_err().contains("do not match")
    };
    store.files[0].file_index = 2;
    assert!(refused(&store));
    store.files[0].file_index = 0;
    for count in [-1, 1, 3] {
        store.uploads[0].file_count = count;
        assert!(refused(&store));
    }
    store.uploads[0].file_count = 2;
    store.files.retain(|row| row.file_index != 0);
    assert!(refused(&store));
    assert!(store.uploads_by_id("link").is_err());
}

#[test]
fn link_policy_updates_do_not_decode_upload_history() {
    let mut store = Store::new();
    store.insert_link(test_link("link")).unwrap();
    store.uploads.push(UploadRow {
        link_id: "link".to_owned(),
        tenant: String::new(),
        upload_id: "bad".to_owned(),
        header: upload("bad"),
        header_error: Some("missing field `id` at line 1 column 2".to_owned()),
        members: Some(no_members()),
        file_count: 0,
    });
    assert!(store.update_link("", "link", |link| Link { active: false, ..link }).unwrap());
    assert!(!store.upload_link("link").unwrap().unwrap().active);
    assert!(store.uploads_by_id("link").is_err());
}

#[test]
fn upload_mutations_preserve_other_records_and_rollback_together() {
    let mut store = Store::new();
    let record = |id: &str, path: &str, partial| UploadRecord {
        partial,
        files: vec![received(path, path, 1, "aa", false)],
        ..upload(id)
    };
    let mut link = test_link("history");
    link.uploads = vec![
        record("first", "shared", true),
        record("second", "shared", true),
        record("third", "other", false),
    ];
    store.insert_link(link).unwrap();
    let third = store.uploads.iter().find(|row| row.upload_id == "third").unwrap().clone();
    assert!(!store.remove_upload("other", "history", "first", false).unwrap());
    assert!(!store.remove_upload("", "history", "missing", false).unwrap());
    assert!(store
        .remove_upload("", "history", "first", true)
        .unwrap_err()
        .contains("incoming workflows still use this history"));
    assert!(store.link_upload("", "history", "first").unwrap().is_some());
    assert!(store.remove_upload("", "history", "first", false).unwrap());
    store.update_link("", "history", |link| Link { active: false, ..link }).unwrap();
    assert!(!store.link_upload("", "history", "second").unwrap().unwrap().files[0].deleted);
    assert_eq!(store.tenant_received_bytes("").unwrap(), 2);
    store.tombstone_files("", "history", &paths(&["shared"])).unwrap();
    let mut recovered = record("second", "shared", true);
    recovered.files[0].receipt = true;
    recovered.files.push(record("extra", "extra", true).files.remove(0));
    store.append_upload("", "history", recovered.clone(), &hooks()).unwrap();
    let known = store.clone();
    store.append_upload("", "history", recovered.clone(), &hooks()).unwrap();
    assert_eq!(store, known, "unchanged recovery must not rewrite file rows");
    let second = store.link_upload("", "history", "second").unwrap().unwrap();
    assert!(second.files[0].deleted && second.files[0].receipt);
    assert_eq!(second.files[1].stored_as, "extra");
    assert!(!second.files[1].deleted);
    assert_eq!(second.total_bytes, 2);
    assert_eq!(store.tenant_received_bytes("").unwrap(), 2);
    recovered.files[0].root = "changed".into();
    assert!(store
        .append_upload("", "history", recovered.clone(), &hooks())
        .unwrap_err()
        .contains("file identity"));
    recovered.package_root = "changed".into();
    assert!(store
        .append_upload("", "history", recovered, &hooks())
        .unwrap_err()
        .contains("upload identity"));
    assert_eq!(store.link_upload("", "history", "second").unwrap().unwrap(), second);
    let full = record("third", "other", false);
    store.append_upload("", "history", full.clone(), &hooks()).unwrap();
    let mut conflicting = full;
    conflicting.files[0].root = "different".into();
    assert!(store
        .append_upload("", "history", conflicting, &hooks())
        .unwrap_err()
        .contains("upload identity"));
    let refusal = UploadHooks { queued: Err("fixture insert failure".to_owned()), routed: Ok(()) };
    assert!(store
        .append_upload("", "history", record("last", "last", false), &refusal)
        .is_err());
    assert!(store.link_upload("", "history", "last").unwrap().is_none());
    store.append_upload("", "history", record("aaa", "last", false), &hooks()).unwrap();
    assert_eq!(
        store.uploads.iter().find(|row| row.upload_id == "third").unwrap(),
        &third
    );
    let mut files: Vec<(String, i64, bool)> = store
        .files
        .iter()
        .map(|row| (row.upload_id.clone(), row.file_index, row.deleted))
        .collect();
    files.sort();
    assert_eq!(
        files,
        [
            ("aaa".to_owned(), 0, false),
            ("second".to_owned(), 0, true),
            ("second".to_owned(), 1, false),
            ("third".to_owned(), 0, false)
        ]
    );
    let ids: Vec<String> = store
        .uploads_by_id("history")
        .unwrap()
        .unwrap()
        .into_iter()
        .map(|upload| upload.id)
        .collect();
    assert_eq!(ids, ["second", "third", "aaa"]);
    assert_eq!(store.tenant_received_bytes("").unwrap(), 3);
    assert!(store.remove_link("", "history", false).unwrap());
    assert!(store.uploads.is_empty());
}

#[test]
fn links_preserve_insertion_order() {
    let mut store = Store::new();
    store.insert_link(test_link("b")).unwrap();
    store.insert_link(test_link("a")).unwrap();
    let ids: Vec<String> = store.links("").unwrap().into_iter().map(|link| link.id).collect();
    assert_eq!(ids, ["b", "a"]);
}

#[test]
fn optional_columns_round_trip() {
    let mut store = Store::new();
    let mut link = test_link("link-1");
    link.password_hash = Some("argon2".to_owned());
    link.expires_at = Some(12345);
    link.max_bytes = Some(999);
    store.insert_link(link).unwrap();
    let mut reopened = store.clone();
    let loaded = reopened.link("", "link-1").unwrap().unwrap();
    assert_eq!(loaded.password_hash.as_deref(), Some("argon2"));
    assert_eq!(loaded.expires_at, Some(12345));
    assert_eq!(loaded.max_bytes, Some(999));
    let mut bare = test_link("link-2");
    bare.expires_at = None;
    reopened.insert_link(bare).unwrap();
    assert_eq!(reopened.link("", "link-2").unwrap().unwrap().expires_at, None);
}

#[test]
fn links_are_invisible_across_tenants() {
    let mut store = Store::new();
    store.insert_tenant(test_tenant("acme"), "i1".to_owned()).unwrap();
    store.insert_link(link_in("acme", "secret-link")).unwrap();
    store.insert_link(link_in("", "default-link")).unwrap();
    assert!(store.link("acme", "secret-link").unwrap().is_some());
    assert!(store.link("", "secret-link").unwrap().is_none());
    assert!(!store.update_link("", "secret-link", |link| link).unwrap());
    assert!(!store.remove_link("", "secret-link", false).unwrap());
    assert_eq!(store.links("acme").unwrap().len(), 1);
    assert_eq!(store.links("").unwrap().len(), 1);
}

#[test]
fn projection_keeps_the_link_history_of_other_links() {
    let mut store = Store::new();
    let mut first = test_link("first");
    first.uploads = vec![UploadRecord {
        files: vec![received("a", "a", 7, "aa", false)],
        ..upload("one")
    }];
    let mut second = test_link("second");
    second.uploads = vec![UploadRecord {
        files: vec![received("b", "b", 9, "bb", false)],
        ..upload("one")
    }];
    store.insert_link(first.clone()).unwrap();
    store.insert_link(second).unwrap();
    assert_eq!(store.tenant_received_bytes("").unwrap(), 16);
    assert!(store.remove_link("", "second", false).unwrap());
    assert_eq!(store.link("", "first").unwrap().unwrap(), first);
    assert_eq!(store.tenant_received_bytes("").unwrap(), 7);
}

#[test]
fn links_are_refused_once_and_without_their_tenant() {
    let mut store = Store::new();
    store.insert_link(test_link("a")).unwrap();
    assert_eq!(
        store.insert_link(test_link("a")).unwrap_err(),
        InsertLinkError::Store("UNIQUE constraint failed: links.id".to_owned())
    );
    assert_eq!(
        store.insert_link(link_in("gone", "b")).unwrap_err(),
        InsertLinkError::NamedTenantGone
    );
    assert_eq!(
        store
            .insert_link_with_workflow(test_link("c"), Some(Err("workflow refused".to_owned())))
            .unwrap_err(),
        InsertLinkError::Store("workflow refused".to_owned())
    );
    assert_eq!(store.links("").unwrap().len(), 1);
}

#[test]
fn route_eligible_pages_leave_out_links_in_use() {
    let mut store = Store::new();
    for id in ["open", "password", "inactive", "history", "endpoint", "route"] {
        let mut link = test_link(id);
        if id == "password" {
            link.password_hash = Some("argon2".to_owned());
        }
        link.active = id != "inactive";
        if id == "history" {
            link.uploads = vec![upload("one")];
        }
        store.insert_link(link).unwrap();
    }
    store.trade_endpoints.push(TradeEndpointRow {
        id: "endpoint".to_owned(),
        tenant: String::new(),
    });
    store.inbound_routes.push(InboundRouteRow {
        id: "r".to_owned(),
        tenant: String::new(),
        link_id: "route".to_owned(),
    });
    let page = store.links_page("", 10, None::<&LinkCursor>, "", "all", 0, true).unwrap();
    let ids: Vec<String> = page.links.into_iter().map(|link| link.id).collect();
    assert_eq!(ids, ["open"]);
}

#[test]
fn all_links_spans_tenants() {
    let mut store = Store::new();
    store.insert_link(test_link("default-link")).unwrap();
    store.insert_tenant(test_tenant("acme"), "i1".to_owned()).unwrap();
    store.insert_link(link_in("acme", "scoped-link")).unwrap();
    assert_eq!(store.all_links().unwrap().len(), 2);
}

#[test]
fn retention_link_ids_page_is_bounded_and_spans_tenants() {
    let mut store = Store::new();
    store.insert_link(test_link("a-link")).unwrap();
    store.insert_link(test_link("b-link")).unwrap();
    store.insert_tenant(test_tenant("acme"), "i1".to_owned()).unwrap();
    store.insert_link(link_in("acme", "c-link")).unwrap();
    store.links[0].events_error = Some("EOF while parsing an object".to_owned());
    let first = store.retention_link_ids(None, 2).unwrap();
    assert_eq!(
        first,
        vec![(String::new(), "a-link".to_owned()), (String::new(), "b-link".to_owned())]
    );
    let second = store.retention_link_ids(Some(&first.last().unwrap().1), 2).unwrap();
    assert_eq!(second, vec![("acme".to_owned(), "c-link".to_owned())]);
    assert!(store.retention_link_ids(Some(&second.last().unwrap().1), 2).unwrap().is_empty());
    assert!(store.retention_link_ids(None, 0).unwrap().is_empty());
}

#[test]
fn link_by_id_spans_tenants_for_the_public_protocol() {
    let mut store = Store::new();
    store.insert_tenant(test_tenant("acme"), "i1".to_owned()).unwrap();
    store.insert_link(link_in("acme", "scoped")).unwrap();
    assert!(store.link_by_id("scoped").unwrap().is_some());
    assert!(store.link_by_id("missing").unwrap().is_none());
}

#[test]
fn links_page_is_stable_literal_filtered_and_tenant_scoped() {
    let mut store = Store::new();
    let mut newest = link_in("", "z-link");
    newest.created_at = 100;
    newest.label = "Hundred% match".to_owned();
    newest.dest = "incoming".to_owned();
    let mut middle = link_in("", "m-link");
    middle.created_at = 100;
    middle.label = "100X match".to_owned();
    let mut oldest = link_in("", "a-link");
    oldest.created_at = 100;
    oldest.active = false;
    store.insert_link(newest).unwrap();
    store.insert_link(middle).unwrap();
    store.insert_link(oldest).unwrap();
    store.insert_tenant(test_tenant("acme"), "i1".to_owned()).unwrap();
    store.insert_link(link_in("acme", "foreign")).unwrap();
    let ids = |links: &[Link]| links.iter().map(|link| link.id.clone()).collect::<Vec<_>>();

    let first = store.links_page("", 2, None, "HUNDRED%", "all", 1000, false).unwrap();
    assert_eq!(ids(&first.links), vec!["z-link"]);
    let first = store.links_page("", 2, None, "", "all", 1000, false).unwrap();
    assert_eq!(ids(&first.links), vec!["z-link", "m-link"]);
    let cursor = first.next_cursor.unwrap();
    let second = store.links_page("", 2, Some(&cursor), "", "all", 1000, false).unwrap();
    assert_eq!(second.links[0].id, "a-link");
    assert!(second.next_cursor.is_none());
    assert!(store
        .links_page("", 2, None, "", "all", 1000, false)
        .unwrap()
        .links
        .iter()
        .all(|link| link.tenant.is_empty()));
    let open = store.links_page("", 10, None, "", "open", 1000, false).unwrap();
    assert_eq!(open.links.len(), 2);
    let closed = store.links_page("", 10, None, "", "closed", 1000, false).unwrap();
    assert_eq!(closed.links.len(), 1);
}

#[test]
fn links_are_usable_until_they_expire() {
    let open = test_link("open");
    assert!(Link { active: true, expires_at: None, ..open.clone() }.usable_at(u64::MAX));
    let dated = Link { active: true, expires_at: Some(10), ..open.clone() };
    assert!(dated.usable_at(9));
    assert!(!dated.usable_at(10));
    assert!(!dated.usable_now());
    let closed = Link { active: false, expires_at: None, ..open.clone() };
    assert!(!closed.usable_at(0));
    assert!(!closed.usable_now());
    assert!(Link { active: true, expires_at: Some(u64::MAX), ..open }.usable_now());
}

#[test]
fn headers_that_are_no_records_are_read_as_json() {
    let mut store = Store::new();
    let mut link = test_link("link");
    link.uploads = vec![UploadRecord { completed_at: 50, total_bytes: 7, ..upload("good") }];
    link.uploads[0].files = vec![received("a.bin", "a.bin", 3, "aa", false)];
    link.uploads[0].partial = false;
    store.insert_link(link).unwrap();
    assert_eq!(store.uploads_since("", 50), Ok((1, 7)));
    store.uploads[0].header_error = Some("missing field `id` at line 1 column 2".to_owned());
    store.uploads[0].members = Some(no_members());
    assert_eq!(store.uploads_since("", 0), Ok((0, 0)));
    assert_eq!(
        store.search("", "a.bin", 10).unwrap_err(),
        "Invalid column type Null at index: 6, name: json_extract(upload.document, '$.completed_at')"
    );
    let told = |change: fn(&mut HeaderMembers)| {
        let mut members = no_members();
        change(&mut members);
        let mut store = store.clone();
        store.uploads[0].members = Some(members);
        store
    };
    let timed = told(|members| members.completed_at = Some(9));
    assert_eq!(timed.uploads_since("", 9), Ok((1, 0)));
    assert_eq!(timed.uploads_since("", 10), Ok((0, 0)));
    assert_eq!(timed.search("", "a.bin", 10).unwrap().files[0].completed_at, 9);
    let partial = told(|members| {
        members.completed_at = Some(9);
        members.partial = true;
    });
    assert_eq!(partial.uploads_since("", 0), Ok((0, 0)));
    let counted = told(|members| {
        members.completed_part = Some(9);
        members.total_bytes = Some(5);
    });
    assert_eq!(counted.uploads_since("", 9), Ok((1, 5)));
    assert!(counted.search("", "a.bin", 10).unwrap_err().contains("type Real"));
    let worded = told(|members| {
        members.completed_text = Some("today".to_owned());
        members.total_error = Some("invalid type: string".to_owned());
    });
    assert_eq!(worded.uploads_since("", u64::MAX).unwrap_err(), "invalid type: string");
    assert!(worded.search("", "a.bin", 10).unwrap_err().contains("type Text"));
    store.uploads[0].members = None;
    assert_eq!(store.uploads_since("", 0).unwrap_err(), "malformed JSON");
    assert_eq!(store.search("", "a.bin", 10).unwrap_err(), "malformed JSON");
    assert_eq!(store.search("", "a.bin", 0).unwrap().files.len(), 0);
    assert_eq!(store.uploads_since("other", 0), Ok((0, 0)));
}

fn completed_at_real(at: f64) -> HeaderMembers {
    HeaderMembers {
        completed_part: Some(at.floor() as i64),
        completed_rest: if at.fract() == 0.0 { 0 } else { 1 },
        completed_order: if at.fract() == 0.0 { 0 } else { at.to_bits() as i64 },
        ..no_members()
    }
}

#[test]
fn files_of_uploads_with_real_times_are_ordered_by_them() {
    let mut store = Store::new();
    let mut link = test_link("link");
    link.uploads = vec![
        UploadRecord { completed_at: 5, ..upload("first") },
        UploadRecord { completed_at: 3, ..upload("second") },
    ];
    for upload in &mut link.uploads {
        let path = format!("{}/a.bin", upload.id);
        upload.files = vec![received(&path, &path, 3, "aa", false)];
    }
    store.insert_link(link).unwrap();
    let found = store.search("", "a.bin", 10).unwrap();
    assert_eq!(found.files.iter().map(|file| file.completed_at).collect::<Vec<_>>(), [5, 3]);
    store.uploads[1].header_error = Some("invalid type: floating point `5.5`".to_owned());
    for (at, is_first) in [(5.5, true), (4.5, false), (4.0, false), (6.0, true)] {
        store.uploads[1].members = Some(completed_at_real(at));
        let found = store.search("", "a.bin", 1);
        if is_first {
            assert!(found.unwrap_err().contains("type Real"), "{at}");
        } else {
            assert_eq!(found.unwrap().files[0].completed_at, 5, "{at}");
        }
    }
    store.uploads[0].header_error = store.uploads[1].header_error.clone();
    store.uploads[0].members = Some(HeaderMembers { completed_at: Some(-1), ..no_members() });
    for (at, text) in [(f64::from(-1) - 0.25, "Integer"), (f64::from(-1) + 0.25, "Real")] {
        store.uploads[1].members = Some(HeaderMembers {
            completed_order: -(at.abs().to_bits() as i64),
            ..completed_at_real(at)
        });
        let refused = store.search("", "a.bin", 1);
        match text {
            "Real" => assert!(refused.unwrap_err().contains("type Real")),
            _ => assert_eq!(refused.unwrap().files[0].completed_at, 0),
        }
    }
}

#[test]
fn patterns_of_too_many_bytes_are_refused_where_there_is_something_to_search() {
    let refusal = "LIKE or GLOB pattern too complex";
    let mut store = Store::new();
    let longest = "a".repeat(49_998);
    let longer = "a".repeat(49_999);
    let search = |store: &Store, word: &str, limit: u64| {
        store.search("", word, limit).map(|found| found.requests.len())
    };
    let page = |store: &Store, word: &str, cursor: Option<&LinkCursor>| {
        store.links_page("", 5, cursor, word, "all", 0, false).map(|page| page.links.len())
    };
    assert_eq!(search(&store, &longer, 5), Ok(0));
    assert_eq!(page(&store, &longer, None), Ok(0));
    store.insert_tenant(test_tenant("acme"), "i1".to_owned()).unwrap();
    store.insert_link(link_in("acme", "other")).unwrap();
    assert_eq!(search(&store, &longer, 5), Ok(0));
    assert_eq!(page(&store, &longer, None), Ok(0));
    store.insert_link(Link { created_at: 7, ..test_link("link") }).unwrap();
    assert_eq!(search(&store, &longest, 5), Ok(0));
    assert_eq!(search(&store, &longer, 5).unwrap_err(), refusal);
    assert_eq!(search(&store, &longer, 0), Ok(0));
    assert_eq!(search(&store, &"%".repeat(25_000), 5).unwrap_err(), refusal);
    assert_eq!(search(&store, &"\u{e9}".repeat(25_000), 5).unwrap_err(), refusal);
    assert_eq!(page(&store, &longest, None), Ok(0));
    assert_eq!(page(&store, &longer, None).unwrap_err(), refusal);
    let past = LinkCursor { created_at: 7, id: "link".to_owned() };
    assert_eq!(page(&store, &longer, Some(&past)), Ok(0));
    let before = LinkCursor { created_at: 8, id: "link".to_owned() };
    assert_eq!(page(&store, &longer, Some(&before)).unwrap_err(), refusal);
}

#[test]
fn a_word_is_searched_up_to_its_first_zero() {
    let mut store = Store::new();
    store.insert_link(Link { label: "red cars".to_owned(), ..test_link("a") }).unwrap();
    store.insert_link(Link { label: "red".to_owned(), ..test_link("b") }).unwrap();
    store.insert_link(Link { label: "red\0cars".to_owned(), ..test_link("c") }).unwrap();
    let ids = |word: &str| {
        let mut ids = store
            .links_page("", 9, None, word, "all", 0, false)
            .unwrap()
            .links
            .into_iter()
            .map(|link| link.id)
            .collect::<Vec<_>>();
        ids.sort();
        ids
    };
    assert_eq!(ids("cars"), ["a"]);
    assert_eq!(ids("red"), ["a", "b", "c"]);
    assert_eq!(ids("red\0cars"), ["b", "c"]);
    assert_eq!(ids("\0"), ["a", "b", "c"]);
}

#[test]
fn pages_of_links_together_are_all_of_them() {
    let mut store = Store::new();
    store.insert_tenant(test_tenant("acme"), "i1".to_owned()).unwrap();
    for (id, created_at) in [("c", 5), ("a", 7), ("e", 5), ("b", 9), ("d", 5), ("f", 7)] {
        store.insert_link(Link { created_at, ..link_in("", id) }).unwrap();
    }
    store.insert_link(Link { created_at: 6, ..link_in("acme", "x") }).unwrap();
    for limit in 1..8 {
        let mut ids = Vec::new();
        let mut cursor: Option<LinkCursor> = None;
        loop {
            let page = store.links_page("", limit, cursor.as_ref(), "", "all", 0, false).unwrap();
            assert!(page.links.len() as u64 <= limit);
            ids.extend(page.links.into_iter().map(|link| link.id));
            match page.next_cursor {
                Some(next) => cursor = Some(next),
                None => break,
            }
        }
        assert_eq!(ids, ["b", "f", "a", "e", "d", "c"]);
    }
}
