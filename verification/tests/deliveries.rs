//! Download links: issuing, reading, fetching, rotating, extending, sweeping.
use votport_store::downloads::OUTBOUND_DOWNLOAD_LIMIT_REACHED;
use votport_store::issue::GrantChecks;
use votport_store::kinds::{Bearer, OutboundDownloadResult};
use votport_store::records::{FetchTicket, JobRelease, OutboundGrant, OutboundGrantFile};
use votport_store::rows::{FileRow, GrantManifestRow, JobRow, TicketRow};
use votport_store::schema::SCHEMA_VERSION;
use votport_store::store::Store;
use votport_store::usage::backfill_quota_usage;

fn test_outbound_grant(id: &str, tenant: &str, file_index: usize) -> OutboundGrant {
    OutboundGrant {
        id: id.to_owned(),
        token_hash: format!("hash-{id}"),
        password_hash: None,
        tenant: tenant.to_owned(),
        link_id: "link".to_owned(),
        upload_id: "upload".to_owned(),
        package_root: "package".to_owned(),
        name: "file.bin".to_owned(),
        suite: "blake3".to_owned(),
        root: format!("root-{id}"),
        file_index,
        bytes: u64::MAX,
        label: "download".to_owned(),
        created_at: 10,
        expires_at: 20,
        revoked_at: None,
        downloads: 0,
        max_downloads: None,
        notifications: None,
        first_download_at: None,
        last_download_at: None,
        files: Vec::new(),
    }
}

fn file(source: &str, name: &str, suite: &str, root: &str, bytes: u64, receipt: &str) -> OutboundGrantFile {
    OutboundGrantFile {
        source: source.to_owned(),
        name: name.to_owned(),
        suite: suite.to_owned(),
        root: root.to_owned(),
        bytes,
        receipt_b64: receipt.to_owned(),
        downloads: 0,
        first_download_at: None,
        last_download_at: None,
    }
}

fn checks() -> GrantChecks {
    GrantChecks { names: Ok(()), digest: "digest".to_owned(), creation: Ok(()), finished: None }
}

fn issue(store: &mut Store, grant: OutboundGrant) {
    store.insert_outbound_grant(grant, &checks()).unwrap();
}

fn hash(token: &str) -> String {
    format!("digest of {token}")
}

fn share_token(store: &Store, tenant: &str, id: &str) -> Option<String> {
    let (token, _) = store.stored_share_token(tenant, id)?;
    store.outbound_share_token(tenant, id, &hash(&token)).unwrap()
}

#[test]
fn grant_insertion_refuses_ambiguous_and_nonportable_names() {
    let mut store = Store::new();
    let mut grant = test_outbound_grant("ambiguous", "", 0);
    for name in ["XML:EDL/file.mov", "CON.txt", "clip.mov."] {
        grant.name = name.into();
        assert_eq!(grant.names_to_admit(), [name]);
        let refused = GrantChecks { names: Err(format!("{name} is not portable")), ..checks() };
        assert!(store
            .insert_outbound_grant(grant.clone(), &refused)
            .unwrap_err()
            .contains("not portable"));
    }
    grant.files = ["Caf\u{e9}.mov", "Cafe\u{301}.mov"]
        .into_iter()
        .map(|name| file(name, name, "blake3", &"00".repeat(32), 1, ""))
        .collect();
    assert_eq!(grant.names_to_admit(), ["Caf\u{e9}.mov", "Cafe\u{301}.mov"]);
    let refused = GrantChecks { names: Err("names collide".to_owned()), ..checks() };
    assert!(store
        .insert_outbound_grant(grant.clone(), &refused)
        .unwrap_err()
        .contains("collide"));
    assert!(store.outbound_grants("").unwrap().is_empty());
    grant.files[1].name = "second.mov".into();
    issue(&mut store, grant.clone());
    assert_eq!(store.outbound_grants("").unwrap(), vec![grant]);
}

#[test]
fn outbound_grants_round_trip_full_byte_range() {
    let mut store = Store::new();
    assert_eq!(SCHEMA_VERSION, 44);
    let grant = test_outbound_grant("g1", "acme", 3);
    issue(&mut store, grant.clone());
    assert_eq!(store.outbound_grants("acme").unwrap(), vec![grant]);
}

#[test]
fn outbound_summary_counts_open_links_deliveries_and_active_downloads() {
    let mut store = Store::new();
    let open = test_outbound_grant("open", "acme", 1);
    let mut used = test_outbound_grant("used", "acme", 1);
    used.downloads = 2;
    used.max_downloads = Some(2);
    let mut revoked = test_outbound_grant("gone", "acme", 1);
    revoked.revoked_at = Some(5);
    let other = test_outbound_grant("other", "beta", 1);
    for grant in [open.clone(), used, revoked, other] {
        issue(&mut store, grant);
    }
    let active = vec![open.token_hash.clone(), "hash-other".to_owned()];
    let summary = store.outbound_summary("acme", 10, &active).unwrap();
    assert_eq!(summary.open_grants, 1, "used and revoked are not open");
    assert_eq!(summary.deliveries, 2);
    assert_eq!(summary.active, 1, "the other tenant's download is not ours");
    assert_eq!(store.outbound_active_count("acme", &active).unwrap(), 1);
    let expired = store.outbound_summary("acme", 25, &[]).unwrap();
    assert_eq!(expired.open_grants, 0);
    assert_eq!(expired.active, 0);
}

#[test]
fn outbound_grants_round_trip_multiple_library_files() {
    let mut store = Store::new();
    let mut grant = test_outbound_grant("library", "acme", 0);
    grant.files = vec![
        file("objects/a", "a.txt", "blake3", "aa", 3, "receipt-a"),
        file("objects/b", "b.txt", "sha256", "bb", u64::MAX, "receipt-b"),
    ];
    issue(&mut store, grant.clone());
    assert_eq!(store.outbound_grant_by_token_hash("hash-library").unwrap(), Some(grant));
    store.record_outbound_download("library", &[0], 30).unwrap();
    assert_eq!(store.grants[0].file_count, 2);
    let page = store.outbound_grants_page("acme", 10, 0, 2).unwrap().0;
    assert_eq!(page[0].0.files[0].downloads, 1);
}

#[test]
fn normalized_file_lookup_and_download_do_not_parse_or_rewrite_manifest() {
    let mut store = Store::new();
    let mut grant = test_outbound_grant("normalized", "acme", 0);
    grant.files = (0..3)
        .map(|index| {
            file(
                &format!("objects/{index}"),
                &format!("file-{index}"),
                "blake3",
                &format!("root-{index}"),
                if index == 2 { u64::MAX } else { index + 1 },
                &format!("receipt-{index}"),
            )
        })
        .collect();
    issue(&mut store, grant.clone());
    let original = store.grants[0].files.clone();
    store.grants[0].files = Vec::new();
    store.grants[0].files_error = Some("expected value at line 1 column 1".to_owned());
    let (_, file) =
        store.outbound_grant_file_by_token_hash("hash-normalized", 2).unwrap().unwrap();
    assert_eq!(file.unwrap().bytes, u64::MAX);
    store.record_outbound_download("normalized", &[2], 30).unwrap();
    assert!(store.grants[0].files_error.is_some());
    assert!(store.outbound_grant_by_token_hash("hash-normalized").is_err());
    store.grants[0].files = original;
    store.grants[0].files_error = None;
    let full = store.outbound_grant_by_token_hash("hash-normalized").unwrap().unwrap();
    assert_eq!(full.files[2].downloads, 1);
    for row in store.grant_files.iter_mut().filter(|row| row.file_index == 2) {
        row.downloads = 9223372036854775807;
    }
    store.record_outbound_download("normalized", &[2], 31).unwrap();
    let saturated =
        store.grant_files.iter().find(|row| row.file_index == 2).unwrap().downloads;
    assert_eq!(saturated, i64::MAX);
}

#[test]
fn legacy_file_lookup_allows_only_scalar_index_zero() {
    let mut store = Store::new();
    issue(&mut store, test_outbound_grant("legacy-lookup", "acme", 0));
    let (grant, found) =
        store.outbound_grant_file_by_token_hash("hash-legacy-lookup", 0).unwrap().unwrap();
    assert_eq!(grant.id, "legacy-lookup");
    assert!(found.is_none());
    assert!(store.outbound_grant_file_by_token_hash("hash-legacy-lookup", 1).unwrap().is_none());

    let mut normalized = test_outbound_grant("missing-child", "acme", 0);
    normalized.files = vec![file("objects/only", "only", "blake3", "root", 1, "")];
    issue(&mut store, normalized);
    store.grant_files.retain(|row| row.grant_id != "missing-child");
    assert!(store.outbound_grant_file_by_token_hash("hash-missing-child", 0).unwrap().is_none());
    let page = store
        .outbound_grant_files_page_by_token_hash("hash-missing-child", 0, 100)
        .unwrap()
        .unwrap();
    assert!(page.files.is_empty());
}

#[test]
fn protected_outbound_grant_password_round_trips() {
    let mut store = Store::new();
    let mut grant = test_outbound_grant("protected", "acme", 0);
    grant.password_hash = Some("argon2id-hash".to_owned());
    issue(&mut store, grant.clone());
    assert_eq!(store.outbound_grant_by_token_hash("hash-protected").unwrap(), Some(grant));
}

#[test]
fn outbound_grants_are_tenant_scoped_and_hash_lookup_is_global() {
    let mut store = Store::new();
    issue(&mut store, test_outbound_grant("g1", "acme", 0));
    issue(&mut store, test_outbound_grant("g2", "other", 1));
    assert_eq!(store.outbound_grants("acme").unwrap().len(), 1);
    assert_eq!(store.outbound_grant_by_token_hash("hash-g1").unwrap().unwrap().id, "g1");
}

#[test]
fn active_library_grants_match_source_with_tenant_and_lifecycle_scope() {
    let mut store = Store::new();
    let mut active = test_outbound_grant("active", "acme", 0);
    active.files = vec![file("project/file.bin", "file.bin", "blake3", "root", 1, "receipt")];
    issue(&mut store, active);
    let mut other = test_outbound_grant("other", "other", 0);
    other.files = vec![file("other/file.bin", "file.bin", "blake3", "root", 1, "receipt")];
    issue(&mut store, other);
    for (id, revoked_at, expires_at, downloads, max_downloads) in [
        ("expired", None, Some(14), 0, None),
        ("revoked", Some(12), Some(20), 0, None),
        ("spent", None, Some(20), 1, Some(1)),
    ] {
        let mut grant = test_outbound_grant(id, "acme", 0);
        grant.files = vec![file("ignored/file.bin", "file.bin", "blake3", "root", 1, "receipt")];
        grant.revoked_at = revoked_at;
        grant.expires_at = expires_at.unwrap();
        grant.downloads = downloads;
        grant.max_downloads = max_downloads;
        issue(&mut store, grant);
    }
    assert!(store.has_active_library_grant("acme", "project/file.bin", 15).unwrap());
    assert!(!store.has_active_library_grant("other", "project/file.bin", 15).unwrap());
    assert!(!store.has_active_library_grant("acme", "ignored/file.bin", 15).unwrap());
}

#[test]
fn outbound_grants_page_is_newest_first_bounded_and_tenant_scoped() {
    let mut store = Store::new();
    for id in ["g1", "g2", "g3"] {
        issue(&mut store, test_outbound_grant(id, "acme", 0));
    }
    issue(&mut store, test_outbound_grant("other", "other", 0));
    let page = store.outbound_grants_page("acme", 2, 0, 64).unwrap();
    assert_eq!(page.1, 3);
    assert_eq!(
        page.0.into_iter().map(|(grant, _)| grant.id).collect::<Vec<_>>(),
        ["g3", "g2"]
    );
    assert_eq!(
        store
            .outbound_grants_page("acme", 2, 2, 64)
            .unwrap()
            .0
            .into_iter()
            .map(|(grant, _)| grant.id)
            .collect::<Vec<_>>(),
        ["g1"]
    );
    assert!(store.outbound_grants_page("acme", 2, 3, 64).unwrap().0.is_empty());
    assert_eq!(store.outbound_grants_page("other", 2, 0, 64).unwrap().1, 1);
}

#[test]
fn outbound_grants_page_reports_counts_and_bounds_file_previews() {
    let mut store = Store::new();
    issue(&mut store, test_outbound_grant("legacy", "acme", 0));
    for (id, count) in [("small", 2), ("large", 3)] {
        let mut grant = test_outbound_grant(id, "acme", 0);
        grant.files = (0..count)
            .map(|index| {
                file(
                    &format!("{id}-{index}"),
                    &format!("{id}-{index}.txt"),
                    "blake3",
                    &format!("{id}-root-{index}"),
                    index + 1,
                    "receipt",
                )
            })
            .collect();
        issue(&mut store, grant);
    }
    let mut counts: Vec<(String, i64)> =
        store.grants.iter().map(|row| (row.id.clone(), row.file_count)).collect();
    counts.sort();
    assert_eq!(
        counts,
        [("large".to_owned(), 3), ("legacy".to_owned(), 1), ("small".to_owned(), 2)]
    );
    let page = store.outbound_grants_page("acme", 10, 0, 2).unwrap().0;
    let find = |id: &str| page.iter().find(|(grant, _)| grant.id == id).unwrap();
    let (legacy, legacy_count) = find("legacy");
    assert_eq!(*legacy_count, 1);
    assert!(legacy.files.is_empty());
    let (small, small_count) = find("small");
    assert_eq!(*small_count, 2);
    assert_eq!(small.files.len(), 2);
    let (large, large_count) = find("large");
    assert_eq!(*large_count, 3);
    assert!(large.files.is_empty());
}

#[test]
fn outbound_grant_expiry_and_revoke_control_active_state() {
    let mut store = Store::new();
    issue(&mut store, test_outbound_grant("g1", "acme", 0));
    assert!(store.has_active_outbound_grant("acme", "link", "upload", 0, 19).unwrap());
    assert!(!store.has_active_outbound_grant("acme", "link", "upload", 0, 20).unwrap());
    assert!(store.revoke_outbound_grant("acme", "g1", 12).unwrap());
    assert!(!store.revoke_outbound_grant("acme", "g1", 13).unwrap());
    assert!(!store.has_active_outbound_grant("acme", "link", "upload", 0, 11).unwrap());
}

fn ticket_row(token_id: &str, grant_id: &str, root: &str, expires_at: i64) -> TicketRow {
    TicketRow {
        token_id: token_id.to_owned(),
        grant_id: grant_id.to_owned(),
        manifest_root: root.to_owned(),
        expires_at,
        delivered_at: None,
        holder: String::new(),
        grant_token_hash: String::new(),
        policy_revision: 0,
        admitted_at: None,
    }
}

#[test]
fn serve_prune_queries_preserve_expiry_revoke_and_ticket_retention() {
    let mut store = Store::new();
    let mut open = test_outbound_grant("open", "acme", 0);
    open.expires_at = 200;
    let mut expired = test_outbound_grant("expired", "acme", 0);
    expired.expires_at = 10;
    let mut revoked = test_outbound_grant("revoked", "acme", 0);
    revoked.expires_at = 200;
    revoked.revoked_at = Some(3);
    let mut exhausted = test_outbound_grant("exhausted", "acme", 0);
    exhausted.expires_at = 200;
    exhausted.max_downloads = Some(1);
    exhausted.downloads = 1;
    for grant in [open, expired, revoked, exhausted] {
        issue(&mut store, grant);
    }
    for (grant_id, root) in [
        ("open", "root-open"),
        ("expired", "root-expired"),
        ("revoked", "root-revoked"),
        ("exhausted", "root-exhausted"),
    ] {
        store.grant_manifests.push(GrantManifestRow {
            grant_id: grant_id.to_owned(),
            manifest_root: root.to_owned(),
            created_at: 0,
        });
    }
    for (token_id, expires_at) in [("old", 10), ("boundary", 20), ("live", 30)] {
        store.tickets.push(ticket_row(token_id, "open", "root-open", expires_at));
    }
    assert_eq!(store.servable_manifest_roots(20).unwrap(), vec!["root-open".to_owned()]);
    assert_eq!(store.servable_grant_ids(20).unwrap(), vec!["open".to_owned()]);
    assert_eq!(store.prune_fetch_tickets(20).unwrap(), 1);
    let mut remaining: Vec<String> =
        store.tickets.iter().map(|ticket| ticket.token_id.clone()).collect();
    remaining.sort();
    assert_eq!(remaining, ["boundary".to_owned(), "live".to_owned()]);
}

#[test]
fn fetch_delivery_and_ticket_commit_atomically() {
    let mut store = Store::new();
    let mut grant = test_outbound_grant("g1", "acme", 0);
    grant.max_downloads = Some(1);
    issue(&mut store, grant);
    issue(&mut store, test_outbound_grant("g2", "acme", 0));
    let ticket = FetchTicket {
        holder: "holder".into(),
        grant_token_hash: "hash-g1".into(),
        policy_revision: 0,
        token_id: "ticket".into(),
        grant_id: "g1".into(),
        manifest_root: "00".repeat(32),
        expires_at: 19,
        delivered_at: None,
    };
    assert!(store.put_fetch_ticket(&ticket, 1, None).unwrap());
    for (grant, token) in [("g2", "ticket"), ("g1", "missing")] {
        assert!(store.record_fetch_download(grant, &[0], 10, token).is_err());
        assert_eq!(store.outbound_grant_by_id(grant).unwrap().unwrap().downloads, 0);
        assert_eq!(store.fetch_ticket("ticket").unwrap().unwrap().delivered_at, None);
    }
    store.record_fetch_download("g1", &[0], 10, "ticket").unwrap();
    assert_eq!(store.outbound_grant_by_id("g1").unwrap().unwrap().downloads, 1);
    assert_eq!(store.fetch_ticket("ticket").unwrap().unwrap().delivered_at, Some(10));
    assert!(!store.admit_fetch_ticket(&ticket, 11, None).unwrap());
}

#[test]
fn the_counter_of_a_grant_is_the_least_of_its_files() {
    let mut store = Store::new();
    let mut grant = test_outbound_grant("g1", "", 0);
    grant.max_downloads = Some(2);
    grant.files = (0..3)
        .map(|index| file(&format!("objects/{index}"), &format!("f{index}"), "blake3", "aa", 1, ""))
        .collect();
    issue(&mut store, grant);
    let fetches: [(&[usize], u64); 9] = [
        (&[0], 0),
        (&[], 0),
        (&[0, 1], 0),
        (&[0], 0),
        (&[2, 2], 1),
        (&[1], 1),
        (&[2], 2),
        (&[0, 1, 2], 2),
        (&[7], 2),
    ];
    for (at, (indexes, downloads)) in fetches.into_iter().enumerate() {
        let _ = store.record_outbound_download("g1", indexes, at as u64);
        let grant = store.outbound_grant_by_id("g1").unwrap().unwrap();
        assert_eq!(grant.downloads, downloads, "{at}");
        let least = store.grant_files.iter().map(|row| row.downloads).min();
        assert_eq!(least, Some(downloads as i64), "{at}");
        assert!(store.grant_files.iter().all(|row| row.downloads <= 2), "{at}");
    }
}

#[test]
fn outbound_download_count_and_active_link_query_round_trip() {
    let mut store = Store::new();
    issue(&mut store, test_outbound_grant("g1", "acme", 0));
    let mut other = test_outbound_grant("g2", "acme", 1);
    other.link_id = "other-link".to_owned();
    other.expires_at = 100;
    issue(&mut store, other);
    assert_eq!(
        store.record_outbound_download("g1", &[0], 100).unwrap(),
        OutboundDownloadResult { first_download: true, completed_delivery: true }
    );
    assert_eq!(
        store.record_outbound_download("g1", &[0], 110).unwrap(),
        OutboundDownloadResult { first_download: false, completed_delivery: false }
    );
    let grant = store.outbound_grant_by_token_hash("hash-g1").unwrap().unwrap();
    assert_eq!(grant.downloads, 2);
    assert_eq!(grant.first_download_at, Some(100));
    assert_eq!(grant.last_download_at, Some(110));
    assert!(store.record_outbound_download("missing", &[0], 100).is_err());
    assert!(store.link_has_active_outbound_grants("acme", "link", 19).unwrap());
    assert!(!store.link_has_active_outbound_grants("other", "link", 19).unwrap());
    assert!(store.link_has_active_outbound_grants("acme", "other-link", 99).unwrap());
    assert!(!store.link_has_active_outbound_grants("acme", "other-link", 100).unwrap());
}

#[test]
fn outbound_download_limit_refuses_after_one_download() {
    let mut store = Store::new();
    let mut grant = test_outbound_grant("limited", "acme", 0);
    grant.max_downloads = Some(1);
    issue(&mut store, grant);
    assert!(store.has_active_outbound_grant("acme", "link", "upload", 0, 19).unwrap());
    store.record_outbound_download("limited", &[0], 15).unwrap();
    let downloaded = store.outbound_grant_by_token_hash("hash-limited").unwrap().unwrap();
    let error = store.record_outbound_download("limited", &[0], 16).unwrap_err();
    assert_eq!(error, OUTBOUND_DOWNLOAD_LIMIT_REACHED);
    assert_eq!(
        store.outbound_grant_by_token_hash("hash-limited").unwrap().unwrap(),
        downloaded
    );
    assert!(!store.has_active_outbound_grant("acme", "link", "upload", 0, 19).unwrap());
    assert!(!store.link_has_active_outbound_grants("acme", "link", 19).unwrap());
}

#[test]
fn saved_download_address_survives_restart_and_rotates_atomically() {
    let mut store = Store::new();
    let token = Bearer { token: "first".to_owned(), hash: hash("first") };
    let wrong = Bearer { token: "wrong".to_owned(), hash: hash("wrong") };
    let mut grant = test_outbound_grant("saved", "acme", 0);
    grant.token_hash = token.hash.clone();
    assert!(store.insert_workflow_grant(grant.clone(), None, Some(&wrong), &checks()).is_err());
    assert!(store.outbound_grant_by_id("saved").unwrap().is_none());
    store.insert_workflow_grant(grant.clone(), None, Some(&token), &checks()).unwrap();
    assert_eq!(share_token(&store, "other", "saved"), None);
    assert_eq!(share_token(&store, "acme", "missing"), None);
    store.grants[0].share_token = Some("mismatched".to_owned());
    assert_eq!(share_token(&store, "acme", "saved"), None);
    store.grants[0].share_token = Some(token.token.clone());
    let mut store = store.clone();
    assert_eq!(share_token(&store, "acme", "saved").as_deref(), Some("first"));
    let next = Bearer { token: "next".to_owned(), hash: hash("next") };
    assert!(!store.rotate_outbound_grant_token("other", "saved", &next).unwrap());
    assert_eq!(share_token(&store, "acme", "saved").as_deref(), Some("first"));
    assert_eq!(store.outbound_grant_by_id("saved").unwrap().unwrap(), grant);
    assert!(store.rotate_outbound_grant_token("acme", "saved", &next).unwrap());
    assert_eq!(share_token(&store, "acme", "saved").as_deref(), Some("next"));
    assert!(store.outbound_grant_by_token_hash(&token.hash).unwrap().is_none());
    store.revoke_outbound_grant("acme", "saved", 12).unwrap();
    assert_eq!(share_token(&store, "acme", "saved"), None);
}

fn retired_job(id: &str, state: &str) -> JobRow {
    JobRow {
        id: id.to_owned(),
        tenant: "acme".to_owned(),
        actor: "local".to_owned(),
        operation_id: "op".to_owned(),
        state: state.to_owned(),
        token: None,
        retired_from: None,
        source_revoked: false,
        request_notifications: None,
        project_notifications: None,
        document_error: None,
    }
}

#[test]
fn the_sweep_removes_revoked_and_expired_grants_with_what_belongs_to_them() {
    let mut store = Store::new();
    for id in ["gone", "live", "held"] {
        let mut grant = test_outbound_grant(id, "acme", 0);
        grant.files = vec![file("objects/a", "a", "blake3", "aa", 1, "")];
        if id != "live" {
            grant.revoked_at = Some(11);
        }
        issue(&mut store, grant);
        store.tickets.push(ticket_row(id, id, "root", 30));
    }
    store.jobs.push(retired_job("held", "running"));
    assert_eq!(store.purge_expired_revoked_grants(19).unwrap(), 0);
    assert_eq!(store.purge_expired_revoked_grants(20).unwrap(), 1);
    assert!(!store.outbound_grant_exists("acme", "gone").unwrap());
    assert!(store.outbound_grant_exists("acme", "live").unwrap());
    assert!(store.outbound_grant_exists("acme", "held").unwrap());
    assert!(!store.outbound_grant_is_non_revoked("held").unwrap());
    assert!(store.outbound_grant_is_non_revoked("live").unwrap());
    assert_eq!(store.grant_files.len(), 2);
    assert_eq!(store.tickets.len(), 2);
    assert_eq!(store.digests.len(), 2);
    store.jobs[0].state = "retired".to_owned();
    assert_eq!(store.purge_expired_revoked_grants(20).unwrap(), 1);
    assert_eq!(store.grants.len(), 1);
}

#[test]
fn admission_and_previews_follow_the_grant() {
    let mut store = Store::new();
    let mut grant = test_outbound_grant("g", "acme", 0);
    grant.files = vec![file("Caf\u{e9}", "a", "blake3", "aa", 1, "")];
    issue(&mut store, grant.clone());
    assert!(store.outbound_grant_admits("hash-g", 19).unwrap());
    assert!(!store.outbound_grant_admits("hash-g", 20).unwrap());
    assert!(!store.outbound_grant_admits("hash-none", 0).unwrap());
    assert_eq!(store.outbound_grant_preview("acme", "g", 1).unwrap(), Some((grant.clone(), 1)));
    let bare = OutboundGrant { files: Vec::new(), ..grant };
    assert_eq!(store.outbound_grant_preview("acme", "g", 0).unwrap(), Some((bare, 1)));
    assert_eq!(store.outbound_grant_preview("other", "g", 0).unwrap(), None);
    let fold = |path: &str| path.to_lowercase();
    assert!(store.serves_library_file("acme", "CAF\u{c9}", &fold).unwrap());
    assert!(!store.serves_library_file("acme", "CAF\u{c8}", &fold).unwrap());
    assert!(!store.serves_library_file("acme", "cafe", &fold).unwrap());
    assert!(!store.serves_library_file("other", "CAF\u{c9}", &fold).unwrap());
}

#[test]
fn library_files_are_served_until_their_grant_is_revoked() {
    let mut store = Store::new();
    let mut grant = test_outbound_grant("g", "acme", 0);
    grant.expires_at = 11;
    grant.files = vec![file("reel/clip.mov", "clip.mov", "blake3", "aa", 1, "")];
    issue(&mut store, grant);
    let fold = |_: &str| -> String { panic!("ASCII paths are not folded") };
    assert!(store.has_active_library_grant("acme", "reel/clip.mov", 10).unwrap());
    let mut broken = store.clone();
    broken.grants[0].files_error = Some("invalid type: map".to_owned());
    assert!(broken.has_active_library_grant("acme", "reel/clip.mov", 10).is_err());
    broken.grants[0].files_brief = true;
    assert!(!broken.has_active_library_grant("acme", "reel/clip.mov", 10).unwrap());
    assert!(!store.has_active_library_grant("acme", "reel/clip.mov", 30).unwrap());
    assert!(store.serves_library_file("acme", "reel/clip.mov", &fold).unwrap());
    assert!(store.serves_library_file("acme", "Reel/CLIP.mov", &fold).unwrap());
    assert!(!store.serves_library_file("acme", "reel/clip.mp4", &fold).unwrap());
    assert!(!store.serves_library_file("other", "reel/clip.mov", &fold).unwrap());
    store.revoke_outbound_grant("acme", "g", 12).unwrap();
    assert!(!store.serves_library_file("acme", "reel/clip.mov", &fold).unwrap());
}

#[test]
fn outbound_grant_token_rotation_is_tenant_scoped() {
    let mut store = Store::new();
    issue(&mut store, test_outbound_grant("rotate", "acme", 0));
    let next = Bearer { token: "new-hash".to_owned(), hash: hash("new-hash") };
    let other = Bearer { token: "other-hash".to_owned(), hash: hash("other-hash") };
    assert!(!store.rotate_outbound_grant_token("other", "rotate", &next).unwrap());
    assert!(store.rotate_outbound_grant_token("acme", "rotate", &next).unwrap());
    assert!(store.outbound_grant_by_token_hash("hash-rotate").unwrap().is_none());
    assert_eq!(
        store.outbound_grant_by_token_hash(&hash("new-hash")).unwrap().unwrap().id,
        "rotate"
    );
    store.revoke_outbound_grant("acme", "rotate", 12).unwrap();
    assert!(!store.rotate_outbound_grant_token("acme", "rotate", &other).unwrap());
}

#[test]
fn outbound_grant_extension_handles_live_expired_and_scoped_rows() {
    let mut store = Store::new();
    let mut expired = test_outbound_grant("expired", "acme", 0);
    expired.expires_at = 10;
    issue(&mut store, expired);
    issue(&mut store, test_outbound_grant("live", "acme", 1));
    issue(&mut store, test_outbound_grant("revoked", "acme", 2));
    store.revoke_outbound_grant("acme", "revoked", 12).unwrap();
    assert_eq!(store.extend_outbound_grant("acme", "live", 5, 15).unwrap(), Some(25));
    assert_eq!(store.extend_outbound_grant("acme", "expired", 5, 20).unwrap(), Some(25));
    assert_eq!(store.extend_outbound_grant("other", "live", 5, 20).unwrap(), None);
    assert_eq!(store.extend_outbound_grant("acme", "revoked", 5, 20).unwrap(), None);
    assert_eq!(
        store.outbound_grant_by_token_hash("hash-expired").unwrap().unwrap().expires_at,
        25
    );
}

#[test]
fn outbound_download_tracking_reports_first_and_completed_transitions() {
    let mut store = Store::new();
    let mut grant = test_outbound_grant("multi", "acme", 0);
    grant.files = vec![
        file("objects/a", "a.txt", "blake3", "aa", 3, "receipt-a"),
        file("objects/b", "b.txt", "blake3", "bb", 4, "receipt-b"),
    ];
    issue(&mut store, grant);
    assert_eq!(
        store.record_outbound_download("multi", &[1], 100).unwrap(),
        OutboundDownloadResult { first_download: true, completed_delivery: false }
    );
    assert_eq!(
        store.record_outbound_download("multi", &[0], 200).unwrap(),
        OutboundDownloadResult { first_download: false, completed_delivery: true }
    );
    assert_eq!(
        store.record_outbound_download("multi", &[0, 1, 1], 300).unwrap(),
        OutboundDownloadResult { first_download: false, completed_delivery: false }
    );
    let grant = store.outbound_grant_by_token_hash("hash-multi").unwrap().unwrap();
    assert_eq!(grant.downloads, 2);
    assert_eq!(grant.first_download_at, Some(100));
    assert_eq!(grant.last_download_at, Some(300));
    assert_eq!(grant.files[0].downloads, 2);
    assert_eq!(grant.files[0].first_download_at, Some(200));
    assert_eq!(grant.files[0].last_download_at, Some(300));
    assert_eq!(grant.files[1].downloads, 2);
    assert_eq!(grant.files[1].first_download_at, Some(100));
    assert_eq!(grant.files[1].last_download_at, Some(300));
    for at in [400, 500] {
        assert_eq!(
            store.record_outbound_download("multi", &[0, 1], at).unwrap(),
            OutboundDownloadResult { first_download: false, completed_delivery: false }
        );
    }
    let grant = store.outbound_grant_by_token_hash("hash-multi").unwrap().unwrap();
    assert_eq!(grant.downloads, 4);
    assert_eq!(grant.files[0].downloads, 4);
    assert_eq!(grant.files[1].downloads, 4);
}

#[test]
fn outbound_multi_file_limit_applies_per_file_and_counts_rounds() {
    let mut store = Store::new();
    let mut grant = test_outbound_grant("multi-limit", "acme", 0);
    grant.max_downloads = Some(1);
    grant.files = (0..2)
        .map(|index| {
            file(
                &format!("objects/{index}"),
                &format!("{index}.txt"),
                "blake3",
                &format!("root-{index}"),
                1,
                "receipt",
            )
        })
        .collect();
    issue(&mut store, grant);
    store.record_outbound_download("multi-limit", &[0], 100).unwrap();
    let grant = store.outbound_grant_by_token_hash("hash-multi-limit").unwrap().unwrap();
    assert_eq!(grant.downloads, 0);
    assert_eq!(grant.files[0].downloads, 1);
    assert_eq!(grant.files[1].downloads, 0);
    assert_eq!(
        store.record_outbound_download("multi-limit", &[0, 1], 150).unwrap_err(),
        OUTBOUND_DOWNLOAD_LIMIT_REACHED
    );
    let grant = store.outbound_grant_by_token_hash("hash-multi-limit").unwrap().unwrap();
    assert_eq!(grant.files[0].downloads, 1);
    assert_eq!(grant.files[1].downloads, 0);
    let completed = store.record_outbound_download("multi-limit", &[1], 200).unwrap();
    assert!(completed.completed_delivery);
    let grant = store.outbound_grant_by_token_hash("hash-multi-limit").unwrap().unwrap();
    assert_eq!(grant.downloads, 1);
    assert_eq!(grant.files[0].downloads, 1);
    assert_eq!(grant.files[1].downloads, 1);
    assert_eq!(
        store.record_outbound_download("multi-limit", &[0], 300).unwrap_err(),
        OUTBOUND_DOWNLOAD_LIMIT_REACHED
    );
    let grant = store.outbound_grant_by_token_hash("hash-multi-limit").unwrap().unwrap();
    assert_eq!(grant.files[1].downloads, 1);
}

#[test]
fn outbound_download_tracking_rejects_invalid_indexes_atomically() {
    let mut store = Store::new();
    let mut grant = test_outbound_grant("atomic", "acme", 0);
    grant.files = vec![file("objects/a", "a.txt", "blake3", "aa", 3, "receipt-a")];
    issue(&mut store, grant.clone());
    assert!(store.record_outbound_download("atomic", &[0, 1], 100).is_err());
    assert_eq!(
        store.outbound_grant_by_token_hash("hash-atomic").unwrap().unwrap(),
        grant
    );
}

#[test]
fn outbound_full_range_rejects_missing_child_atomically() {
    let mut store = Store::new();
    let mut grant = test_outbound_grant("missing-child", "acme", 0);
    grant.files = (0..2)
        .map(|index| {
            file(
                &format!("objects/{index}"),
                &format!("{index}.txt"),
                "blake3",
                &format!("root-{index}"),
                1,
                "receipt",
            )
        })
        .collect();
    issue(&mut store, grant);
    store.grant_files.retain(|row| row.file_index != 1);
    assert_eq!(
        store.record_outbound_download("missing-child", &[0, 1], 100).unwrap_err(),
        "outbound file index out of range"
    );
    let downloads: Vec<i64> = store.grant_files.iter().map(|row| row.downloads).collect();
    assert_eq!(downloads, vec![0]);
}

#[test]
fn active_outbound_file_keys_filter_scope_state_and_bad_indexes() {
    let mut store = Store::new();
    issue(&mut store, test_outbound_grant("active", "acme", 2));
    let mut expired = test_outbound_grant("expired", "acme", 3);
    expired.expires_at = 19;
    issue(&mut store, expired);
    let mut revoked = test_outbound_grant("revoked", "acme", 4);
    revoked.revoked_at = Some(1);
    issue(&mut store, revoked);
    let mut spent = test_outbound_grant("spent", "acme", 5);
    spent.max_downloads = Some(1);
    spent.downloads = 1;
    issue(&mut store, spent);
    issue(&mut store, test_outbound_grant("other-tenant", "other", 6));
    let mut other_link = test_outbound_grant("other-link", "acme", 7);
    other_link.link_id = "other-link".to_owned();
    issue(&mut store, other_link);
    assert_eq!(
        store.active_outbound_file_keys("acme", "link", 19).unwrap(),
        vec![("upload".to_owned(), 2)]
    );
    assert!(store.active_outbound_file_keys("acme", "link", 20).unwrap().is_empty());
    store.grants[0].file_index = -1;
    assert!(store.active_outbound_file_keys("acme", "link", 19).is_err());
}

#[test]
fn active_outbound_object_keys_are_global_and_deduplicated() {
    let mut store = Store::new();
    let object = |suite: &str, root: &str, bytes: u64| {
        file(&format!("objects/{root}"), root, suite, root, bytes, "")
    };
    let mut legacy = test_outbound_grant("legacy", "acme", 0);
    legacy.root = "parent".to_owned();
    legacy.bytes = 3;
    issue(&mut store, legacy);
    let mut active = test_outbound_grant("active", "other", 0);
    active.root = "parent".to_owned();
    active.bytes = 3;
    active.files = vec![object("blake3", "parent", 3), object("sha256", "child", 4)];
    issue(&mut store, active);
    let mut expired = test_outbound_grant("expired", "acme", 0);
    expired.root = "expired-parent".to_owned();
    expired.expires_at = 19;
    expired.files = vec![object("blake3", "expired-child", 5)];
    issue(&mut store, expired);
    let mut revoked = test_outbound_grant("revoked", "other", 0);
    revoked.root = "revoked-parent".to_owned();
    revoked.revoked_at = Some(1);
    revoked.files = vec![object("blake3", "revoked-child", 6)];
    issue(&mut store, revoked);
    assert_eq!(
        store.active_outbound_object_keys(19).unwrap(),
        vec![
            ("blake3".to_owned(), "parent".to_owned(), 3),
            ("sha256".to_owned(), "child".to_owned(), 4),
        ]
    );
}

#[test]
fn schema41_upgrade_preserves_existing_grants_and_can_store_new_addresses() {
    let mut store = Store::new();
    let grant = test_outbound_grant("preserved", "acme", 0);
    issue(&mut store, grant.clone());
    for (link, index, stored_as, bytes) in [
        ("anonymous-link", 0, "anonymous-object", 13),
        ("duplicate-low", 0, "shared-object", 5),
        ("duplicate-high", 1, "shared-object", 17),
    ] {
        store.files.push(FileRow {
            link_id: link.to_owned(),
            tenant: String::new(),
            upload_id: "upload".to_owned(),
            file_index: index,
            bytes_hi: 0,
            bytes_lo: bytes,
            deleted: false,
            stored_as: stored_as.to_owned(),
            path: stored_as.to_owned(),
            suite: "blake3".to_owned(),
            root: "root".to_owned(),
            receipt: false,
        });
    }
    store.quotas = backfill_quota_usage(&store.files, &store.tenants).unwrap();
    let mut store = store.clone();
    assert_eq!(store.outbound_grant_by_id("preserved").unwrap().unwrap(), grant);
    assert_eq!(share_token(&store, "acme", "preserved"), None);
    assert_eq!(store.tenant_received_bytes("").unwrap(), 30);
    let token = Bearer { token: "fresh".to_owned(), hash: hash("fresh") };
    assert!(store.rotate_outbound_grant_token("acme", "preserved", &token).unwrap());
    assert_eq!(share_token(&store, "acme", "preserved").as_deref(), Some("fresh"));
}

#[test]
fn workflow_rules_may_refuse_a_grant() {
    let mut store = Store::new();
    for (refused, expected) in [
        (GrantChecks { creation: Err("project is closed".to_owned()), ..checks() }, "project is closed"),
        (GrantChecks { finished: Some(Err("job moved on".to_owned())), ..checks() }, "job moved on"),
    ] {
        assert_eq!(
            store
                .insert_outbound_grant(test_outbound_grant("g", "acme", 0), &refused)
                .unwrap_err(),
            expected
        );
        assert!(store.grants.is_empty() && store.digests.is_empty());
    }
    issue(&mut store, test_outbound_grant("g", "acme", 0));
    assert_eq!(
        store
            .insert_outbound_grant(test_outbound_grant("g", "acme", 0), &checks())
            .unwrap_err(),
        "UNIQUE constraint failed: outbound_grants.id"
    );
    let mut other = test_outbound_grant("h", "acme", 0);
    other.token_hash = "hash-g".to_owned();
    assert_eq!(
        store.insert_outbound_grant(other, &checks()).unwrap_err(),
        "UNIQUE constraint failed: outbound_grants.token_hash"
    );
}

#[test]
fn tickets_reserve_what_is_left_of_the_limit() {
    let mut store = Store::new();
    let mut grant = test_outbound_grant("g", "acme", 0);
    grant.max_downloads = Some(1);
    issue(&mut store, grant);
    let ticket = |token: &str, holder: &str| FetchTicket {
        holder: holder.to_owned(),
        grant_token_hash: "hash-g".to_owned(),
        policy_revision: 0,
        token_id: token.to_owned(),
        grant_id: "g".to_owned(),
        manifest_root: "root".to_owned(),
        expires_at: 19,
        delivered_at: None,
    };
    assert!(store.put_fetch_ticket(&ticket("a", "one"), 1, None).unwrap());
    assert!(!store.put_fetch_ticket(&ticket("b", "two"), 1, None).unwrap());
    assert!(store.admit_fetch_ticket(&ticket("a", "one"), 2, None).unwrap());
    assert_eq!(store.unexpired_fetch_tickets(18).unwrap().len(), 1);
    assert!(store.unexpired_fetch_tickets(19).unwrap().is_empty());
    let release = JobRelease { revision: 3, recipients: vec!["one".to_owned()] };
    assert!(!store.admit_fetch_ticket(&ticket("a", "one"), 2, Some(&release)).unwrap());
}

#[test]
fn a_manifest_is_kept_for_each_grant() {
    let mut store = Store::new();
    assert_eq!(store.outbound_grant_manifest_root("g").unwrap(), None);
    store.put_outbound_grant_manifest("g", "root-1", 5).unwrap();
    store.put_outbound_grant_manifest("h", "root-h", 6).unwrap();
    store.put_outbound_grant_manifest("g", "root-2", 7).unwrap();
    assert_eq!(store.outbound_grant_manifest_root("g").unwrap().as_deref(), Some("root-2"));
    assert_eq!(store.outbound_grant_manifest_root("h").unwrap().as_deref(), Some("root-h"));
    assert_eq!(store.grant_manifests.len(), 2);
    assert_eq!(store.grant_manifests[0].created_at, 7);
}

#[test]
fn ids_and_tokens_are_taken_once() {
    let mut store = Store::new();
    issue(&mut store, test_outbound_grant("a", "", 0));
    let again = test_outbound_grant("a", "", 0);
    assert!(store.insert_outbound_grant(again, &checks()).is_err());
    let mut other = test_outbound_grant("b", "", 0);
    other.token_hash = "hash-a".to_owned();
    assert!(store.insert_outbound_grant(other, &checks()).is_err());
    assert_eq!(store.grants.len(), 1);
}

#[test]
fn revoked_grants_stay_closed() {
    let mut store = Store::new();
    issue(&mut store, test_outbound_grant("g", "", 0));
    assert!(store.revoke_outbound_grant("", "g", 12).unwrap());
    assert!(!store.revoke_outbound_grant("", "g", 13).unwrap());
    let bearer = Bearer { token: "t".to_owned(), hash: hash("t") };
    assert!(!store.rotate_outbound_grant_token("", "g", &bearer).unwrap());
    assert_eq!(store.extend_outbound_grant("", "g", 100, 13).unwrap(), None);
    assert_eq!(store.stored_share_token("", "g"), None);
    assert_eq!(store.grants[0].revoked_at, Some(12));
    assert_eq!(store.grants[0].expires_at, 20);
}
