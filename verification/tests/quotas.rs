//! Tenants, their quotas, and the bytes that they store.
use votport_store::files::{insert_file, put_file};
use votport_store::kinds::{CommitProfile, InsertLinkError, NasContract, TenantRemoval};
use votport_store::links::link_params;
use votport_store::records::{
    Branding, FileRecord, HeaderMembers, Link, ObjectId, PersistedUploadFile,
    PersistedUploadSession, Tenant, UploadRecord,
};
use votport_store::rows::{FileRow, JobRow, OutboundRouteRow, UploadRow};
use votport_store::store::Store;
use votport_store::tenants::decode_quota;
use votport_store::uploads::UploadHooks;
use votport_store::usage::backfill_quota_usage;

fn link_in(tenant: &str, id: &str) -> Link {
    Link {
        id: id.to_owned(),
        tenant: tenant.to_owned(),
        label: "test".to_owned(),
        dest: String::new(),
        password_hash: None,
        created_at: 0,
        expires_at: None,
        max_bytes: None,
        active: true,
        legal_hold: false,
        notifications: None,
        uploads: Vec::new(),
        events: Vec::new(),
    }
}

fn test_tenant(key: &str) -> Tenant {
    Tenant {
        incarnation: String::new(),
        key: key.to_owned(),
        label: key.to_owned(),
        admin_group: None,
        max_total_bytes: None,
        max_links: None,
        max_sessions: None,
        created_at: 0,
    }
}

fn add_tenant(store: &mut Store, key: &str) {
    store.insert_tenant(test_tenant(key), format!("incarnation of {key}")).unwrap();
}

fn record(id: &str, files: Vec<FileRecord>) -> UploadRecord {
    UploadRecord {
        partial: false,
        log: Vec::new(),
        id: id.to_owned(),
        started_at: 0,
        completed_at: 0,
        replayed_chunks: 0,
        rejected_chunks: 0,
        transport: None,
        package_root: "cc".to_owned(),
        total_bytes: files.iter().fold(0u64, |sum, file| sum.saturating_add(file.bytes)),
        files,
    }
}

fn file(path: &str, bytes: u64) -> FileRecord {
    FileRecord {
        path: path.to_owned(),
        stored_as: path.to_owned(),
        bytes,
        suite: "blake3".to_owned(),
        root: "00".to_owned(),
        receipt: true,
        deleted: false,
    }
}

fn row(tenant: &str, link: &str, upload: &str, index: i64, stored_as: &str, bytes: u64) -> FileRow {
    FileRow {
        link_id: link.to_owned(),
        tenant: tenant.to_owned(),
        upload_id: upload.to_owned(),
        file_index: index,
        bytes_hi: (bytes >> 32) as i64,
        bytes_lo: (bytes & 0xffff_ffff) as i64,
        deleted: false,
        stored_as: stored_as.to_owned(),
        path: "path".to_owned(),
        suite: "blake3".to_owned(),
        root: "root".to_owned(),
        receipt: false,
    }
}

fn hooks() -> UploadHooks {
    UploadHooks { queued: Ok(()), routed: Ok(()) }
}

fn paths(list: &[&str]) -> Vec<String> {
    list.iter().map(|path| (*path).to_owned()).collect()
}

fn no_members() -> HeaderMembers {
    HeaderMembers {
        completed_at: None,
        completed_part: None,
        completed_rest: 0,
        completed_order: 0,
        completed_text: None,
        partial: false,
        total_bytes: None,
        total_error: None,
    }
}

#[test]
fn tenant_incarnation_survives_updates_and_reopen_but_not_recreation() {
    let mut store = Store::new();
    store.insert_tenant(test_tenant("acme"), "00".repeat(16)).unwrap();
    let mut tenant = store.tenant("acme").unwrap().unwrap();
    let incarnation = tenant.incarnation.clone();
    assert_eq!(incarnation, "00".repeat(16));
    tenant.label = "updated".into();
    tenant.incarnation = "must-not-replace".into();
    assert!(store.update_tenant(&tenant).unwrap());
    assert_eq!(store.tenant("acme").unwrap().unwrap().incarnation, incarnation);
    let mut store = store.clone();
    assert_eq!(store.tenant("acme").unwrap().unwrap().incarnation, incarnation);
    assert_eq!(store.remove_tenant("acme", Ok(())).unwrap(), TenantRemoval::Deleted);
    store.insert_tenant(test_tenant("acme"), "11".repeat(16)).unwrap();
    let replacement = store.tenant("acme").unwrap().unwrap();
    assert_eq!(replacement.created_at, tenant.created_at);
    assert_ne!(replacement.incarnation, incarnation);
}

fn session(id: &str, tenant: &str) -> PersistedUploadSession {
    let object = ObjectId { suite: 1, root: [7; 32], length: 8 };
    PersistedUploadSession {
        id: id.into(),
        tenant: tenant.into(),
        link_id: "removed-link".into(),
        push_key: None,
        committed_upload_id: None,
        dest_dir: tenant.to_owned(),
        dest_rel: String::new(),
        package: object.clone(),
        max_total_bytes: None,
        started_at: 0,
        files: vec![PersistedUploadFile {
            entry: 0,
            display_path: "frame".into(),
            stored_components: vec!["frame".into()],
            object,
            staging_path: String::new(),
            journal_path: String::new(),
            incarnation: [0; 16],
            profile: CommitProfile::Balanced,
            nas_contract: NasContract::Unqualified,
            prefix_bytes: 0,
            published: false,
            receipt: false,
        }],
    }
}

#[test]
fn tenant_removal_clears_retained_uploads_atomically_and_only_in_that_tenant() {
    let mut store = Store::new();
    let residue = |store: &mut Store, tenant: &str| {
        store.uploads.push(UploadRow {
            link_id: tenant.to_owned(),
            tenant: tenant.to_owned(),
            upload_id: "retained".to_owned(),
            header: record("retained", Vec::new()),
            header_error: Some("missing field `id`".to_owned()),
            members: Some(no_members()),
            file_count: 1,
        });
        let file = row(tenant, tenant, "retained", 0, "frame", 8);
        insert_file(&mut store.files, &mut store.quotas, file);
    };
    let retained = |store: &Store, tenant: &str| {
        (
            store.uploads.iter().filter(|row| row.tenant == tenant).count(),
            store.files.iter().filter(|row| row.tenant == tenant).count(),
        )
    };
    for key in ["acme", "other"] {
        add_tenant(&mut store, key);
        residue(&mut store, key);
    }
    assert_eq!(store.tenant_received_bytes("acme").unwrap(), 8);
    for (id, tenant, committed) in
        [("pending", "acme", false), ("committed", "acme", true), ("other", "other", false)]
    {
        store.insert_upload_session(&session(id, tenant)).unwrap();
        if committed {
            for row in store.sessions.iter_mut().filter(|row| row.id == id) {
                row.committed_upload_id = Some("finished".to_owned());
            }
        }
    }
    assert!(store.remove_tenant("acme", Err("fixture".to_owned())).is_err());
    assert!(store.tenant("acme").unwrap().is_some());
    assert_eq!(store.tenant_received_bytes("acme").unwrap(), 8);
    assert_eq!(retained(&store, "acme"), (1, 1));
    assert_eq!(retained(&store, "other"), (1, 1));
    assert_eq!(store.load_upload_sessions().unwrap().len(), 3);
    assert_eq!(store.session_files.len(), 3);
    assert_eq!(store.remove_tenant("acme", Ok(())).unwrap(), TenantRemoval::Deleted);
    assert_eq!(retained(&store, "acme"), (0, 0));
    assert_eq!(retained(&store, "other"), (1, 1));
    residue(&mut store, "acme");
    assert_eq!(store.remove_tenant("acme", Ok(())).unwrap(), TenantRemoval::Absent);
    assert_eq!(retained(&store, "acme"), (0, 0));
    assert_eq!(retained(&store, "other"), (1, 1));
    let remaining = store.load_upload_sessions().unwrap();
    assert_eq!(remaining.len(), 1);
    assert_eq!(remaining[0].tenant, "other");
    assert_eq!(store.session_files.len(), 1);
    add_tenant(&mut store, "acme");
    assert!(store.tenant_admission_usage("acme").unwrap().1.is_empty());
    assert_eq!(store.tenant_admission_usage("other").unwrap().1.len(), 1);
}

#[test]
fn tenant_crud_refuses_while_links_remain() {
    let mut store = Store::new();
    let tenant = Tenant {
        label: String::new(),
        admin_group: Some("acme-admins".to_owned()),
        max_total_bytes: Some(1024),
        max_links: Some(2),
        max_sessions: Some(1),
        ..test_tenant("acme")
    };
    store.insert_tenant(tenant, "i1".to_owned()).unwrap();
    assert_eq!(store.tenants().unwrap().len(), 1);
    assert_eq!(store.tenant("acme").unwrap().unwrap().max_links, Some(2));
    assert!(store.tenant("missing").unwrap().is_none());
    store.insert_link(link_in("acme", "blocked")).unwrap();
    assert_eq!(store.tenant_link_count("acme").unwrap(), 1);
    assert_eq!(store.remove_tenant("acme", Ok(())).unwrap(), TenantRemoval::HasLinks);
    store.remove_link("acme", "blocked", false).unwrap();
    assert_eq!(store.tenant_link_count("acme").unwrap(), 0);
    assert_eq!(store.remove_tenant("acme", Ok(())).unwrap(), TenantRemoval::Deleted);
    assert!(store.tenant("acme").unwrap().is_none());
    let err = store.insert_link(link_in("acme", "orphan")).unwrap_err();
    assert_eq!(err, InsertLinkError::NamedTenantGone);
    assert!(store.link("acme", "orphan").unwrap().is_none());
}

#[test]
fn received_bytes_count_live_files_only() {
    let mut store = Store::new();
    let mut link = link_in("acme", "link-1");
    link.uploads.push(record("up", vec![file("a.bin", 500)]));
    add_tenant(&mut store, "acme");
    store.insert_link(link).unwrap();
    assert_eq!(store.tenant_received_bytes("acme").unwrap(), 500);
    assert_eq!(store.tenant_received_bytes("").unwrap(), 0);
    let usage = store.tenant_usage().unwrap();
    assert_eq!(usage.len(), 2);
    assert_eq!(usage[0].tenant, "");
    assert_eq!(usage[0].links, 0);
    assert_eq!(usage[1].tenant, "acme");
    assert_eq!(usage[1].links, 1);
    assert_eq!(usage[1].received_bytes, 500);
    assert!(!store.link("acme", "link-1").unwrap().unwrap().uploads[0].files[0].deleted);
    store.tombstone_files("acme", "link-1", &paths(&["a.bin"])).unwrap();
    assert_eq!(store.tenant_received_bytes("acme").unwrap(), 0);
    assert_eq!(store.tenant_usage().unwrap()[1].received_bytes, 0);
    assert!(store.remove_link("acme", "link-1", false).unwrap());
    assert_eq!(store.files.len(), 0);
}

#[test]
fn quota_aggregate_tracks_identity_limb_and_saturation_changes() {
    let mut store = Store::new();
    let insert =
        |store: &mut Store, tenant: &str, link: &str, upload: &str, stored_as: &str, bytes: u64| {
            store.links.push(link_params(&link_in(tenant, link)));
            store.uploads.push(UploadRow {
                link_id: link.to_owned(),
                tenant: tenant.to_owned(),
                upload_id: upload.to_owned(),
                header: record(upload, Vec::new()),
                header_error: None,
                members: None,
                file_count: 1,
            });
            let file = row(tenant, link, upload, 0, stored_as, bytes);
            insert_file(&mut store.files, &mut store.quotas, file);
        };
    let at = |store: &Store, link: &str| {
        store.files.iter().find(|row| row.link_id == link).unwrap().clone()
    };
    insert(&mut store, "acme", "a", "one", "same", u64::from(u32::MAX));
    insert(&mut store, "acme", "b", "two", "same", (1_u64 << 32) + 1);
    insert(&mut store, "acme", "c", "three", "", 5);
    insert(&mut store, "acme", "d", "four", "c/three/0", 7);
    insert(&mut store, "other", "e", "five", "same", 10);
    assert_eq!(store.tenant_received_bytes("acme").unwrap(), (1_u64 << 32) + 13);

    let changed = FileRow { bytes_hi: 1, bytes_lo: 10, ..at(&store, "b") };
    put_file(&mut store.files, &mut store.quotas, changed);
    assert_eq!(store.tenant_received_bytes("acme").unwrap(), (1_u64 << 32) + 22);
    assert!(store.remove_upload("acme", "b", "two", false).unwrap());
    assert_eq!(store.tenant_received_bytes("acme").unwrap(), (1_u64 << 32) + 11);
    let changed = FileRow { deleted: true, ..at(&store, "a") };
    put_file(&mut store.files, &mut store.quotas, changed);
    assert_eq!(store.tenant_received_bytes("acme").unwrap(), 12);
    let changed = FileRow { tenant: "other".to_owned(), ..at(&store, "c") };
    put_file(&mut store.files, &mut store.quotas, changed);
    assert_eq!(store.tenant_received_bytes("acme").unwrap(), 7);
    assert_eq!(store.tenant_received_bytes("other").unwrap(), 15);

    insert(&mut store, "acme", "max", "six", "max", u64::MAX);
    insert(&mut store, "acme", "small", "seven", "small", 1);
    assert_eq!(store.tenant_received_bytes("acme").unwrap(), u64::MAX);
    assert!(store.remove_upload("acme", "small", "seven", false).unwrap());
    assert_eq!(store.tenant_received_bytes("acme").unwrap(), u64::MAX);
    assert!(store.remove_upload("acme", "max", "six", false).unwrap());
    assert_eq!(store.tenant_received_bytes("acme").unwrap(), 7);
    let state = store.quotas.iter().find(|quota| quota.tenant == "acme").unwrap().state;
    assert_eq!(state, 0);

    insert(&mut store, "acme", "tie-a", "eight", "tie", (7_u64 << 32) + 1);
    insert(&mut store, "acme", "tie-b", "nine", "tie", (7_u64 << 32) + 9);
    assert_eq!(store.tenant_received_bytes("acme").unwrap(), (7_u64 << 32) + 16);
    assert!(store.remove_upload("acme", "tie-b", "nine", false).unwrap());
    assert_eq!(store.tenant_received_bytes("acme").unwrap(), (7_u64 << 32) + 8);
    assert!(store.remove_upload("acme", "tie-a", "eight", false).unwrap());
    assert_eq!(store.tenant_received_bytes("acme").unwrap(), 7);
    assert!(store.remove_upload("acme", "d", "four", false).unwrap());
    assert_eq!(store.tenant_received_bytes("acme").unwrap(), 0);
}

#[test]
fn tenant_received_bytes_admission_vm_work_is_bounded() {
    let mut store = Store::new();
    let insert = |store: &mut Store, start: usize, count: usize| {
        for index in start..start + count {
            let file = row(
                "acme",
                &format!("link-{index}"),
                "upload",
                index as i64,
                &format!("path-{index}"),
                (index + 1) as u64,
            );
            insert_file(&mut store.files, &mut store.quotas, file);
        }
    };
    insert(&mut store, 0, 100);
    assert_eq!(store.tenant_received_bytes("acme").unwrap(), 5_050);
    insert(&mut store, 100, 900);
    // The aggregate answers alone: the files are not looked at again.
    store.files.clear();
    assert_eq!(store.tenant_received_bytes("acme").unwrap(), 500_500);
}

#[test]
fn shared_stored_paths_count_once() {
    let mut store = Store::new();
    add_tenant(&mut store, "acme");
    let mut link = link_in("acme", "link-1");
    link.uploads.push(record("partial", vec![file("a.bin", 300)]));
    store.insert_link(link).unwrap();
    assert_eq!(store.tenant_received_bytes("acme").unwrap(), 300);
    store
        .append_upload(
            "acme",
            "link-1",
            record("full", vec![file("a.bin", 300), file("b.bin", 200)]),
            &hooks(),
        )
        .unwrap();
    assert_eq!(store.tenant_received_bytes("acme").unwrap(), 500);
    assert_eq!(store.tenant_usage().unwrap()[1].received_bytes, 500);
    assert_eq!(store.tenant_stored("acme").unwrap(), (2, 500));
    assert_eq!(
        store.tenant_live_files("acme").unwrap(),
        [("a.bin".to_owned(), 300), ("b.bin".to_owned(), 200)]
    );
    store.tombstone_files("acme", "link-1", &paths(&["a.bin"])).unwrap();
    assert_eq!(store.tenant_received_bytes("acme").unwrap(), 200);
    let files = store.files.iter().filter(|row| !row.deleted && row.stored_as == "a.bin").count();
    assert_eq!(files, 0, "the matcher tombstones every record over the path");
}

#[test]
fn received_bytes_preserve_u64_and_saturate_aggregate() {
    let mut store = Store::new();
    add_tenant(&mut store, "acme");
    let mut link = link_in("acme", "large");
    link.uploads.push(record("up", vec![file("large", u64::MAX), file("one", 1)]));
    store.insert_link(link).unwrap();
    assert_eq!(store.tenant_received_bytes("acme").unwrap(), u64::MAX);
    assert_eq!(store.tenant_usage().unwrap()[1].received_bytes, u64::MAX);
    let second = UploadRecord {
        started_at: u64::MAX,
        completed_at: u64::MAX,
        replayed_chunks: u64::MAX,
        rejected_chunks: u64::MAX,
        package_root: "exact".to_owned(),
        total_bytes: u64::MAX,
        ..record("second", Vec::new())
    };
    store.append_upload("acme", "large", second, &hooks()).unwrap();
    let uploads = store.link("acme", "large").unwrap().unwrap().uploads;
    assert_eq!(uploads.len(), 2);
    assert_eq!(uploads[0].total_bytes, u64::MAX);
    assert_eq!(uploads[1].started_at, u64::MAX);
    assert_eq!(uploads[1].total_bytes, u64::MAX);
    let large = store.files.iter().find(|row| row.file_index == 0).unwrap();
    assert_eq!((large.bytes_hi, large.bytes_lo), (u32::MAX as i64, u32::MAX as i64));
    store.uploads[0].header_error = Some("missing field `id`".to_owned());
    let mut next = uploads[1].clone();
    next.id = "third".into();
    assert!(store.append_upload("acme", "large", next.clone(), &hooks()).unwrap());
    store.links[0].events_error = Some("expected value".to_owned());
    next.id = "fourth".into();
    assert!(store.append_upload("acme", "large", next, &hooks()).is_err());
}

#[test]
fn tenant_quotas_preserve_u64_across_create_and_update() {
    let mut store = Store::new();
    let mut tenant = test_tenant("acme");
    tenant.max_total_bytes = Some(u64::MAX);
    tenant.max_links = Some(u64::MAX);
    tenant.max_sessions = Some(u64::MAX);
    store.insert_tenant(tenant, "i1".to_owned()).unwrap();
    assert_eq!(store.tenant("acme").unwrap().unwrap().max_total_bytes, Some(u64::MAX));
    let mut tenant = store.tenant("acme").unwrap().unwrap();
    tenant.max_total_bytes = Some(u64::MAX - 1);
    tenant.max_links = Some(u64::MAX - 1);
    tenant.max_sessions = Some(u64::MAX - 1);
    assert!(store.update_tenant(&tenant).unwrap());
    let reopened = store.clone();
    let tenant = reopened.tenant("acme").unwrap().unwrap();
    assert_eq!(tenant.max_total_bytes, Some(u64::MAX - 1));
    assert_eq!(tenant.max_links, Some(u64::MAX - 1));
    assert_eq!(tenant.max_sessions, Some(u64::MAX - 1));
}

#[test]
fn projection_writes_only_changed_files() {
    let mut store = Store::new();
    add_tenant(&mut store, "acme");
    let mut link = link_in("acme", "link");
    link.uploads.push(UploadRecord { total_bytes: 50, ..record("up", vec![file("a", 1); 50]) });
    store.insert_link(link).unwrap();
    let before = store.files.clone();
    store.update_link("acme", "link", |link| Link { active: false, ..link }).unwrap();
    assert_eq!(store.files, before);
    store.append_upload("acme", "link", record("new", vec![file("b", 1)]), &hooks()).unwrap();
    assert_eq!(store.files[..50], before[..]);
    assert_eq!(store.files.len(), 51);
    store.tombstone_files("acme", "link", &paths(&["b"])).unwrap();
    assert_eq!(store.files[..50], before[..]);
    assert!(store.files[50].deleted);
}

#[test]
fn schema41_quota_backfill_failure_rolls_back_without_partial_schema() {
    let mut damaged = row("", "anonymous-link", "anonymous-upload", 0, "anonymous-object", 13);
    damaged.bytes_hi = -1;
    let error = backfill_quota_usage(&vec![damaged], &Vec::new()).unwrap_err();
    assert!(error.contains("file byte limbs are outside the u32 range"), "{error}");
}

#[test]
fn conversion_backfills_anonymous_live_quota_usage() {
    let file = row("", "anonymous-link", "anonymous-upload", 0, "anonymous-object", 13);
    let quotas = backfill_quota_usage(&vec![file], &Vec::new()).unwrap();
    assert_eq!(quotas.len(), 1);
    assert_eq!(quotas[0].tenant, "");
    assert_eq!((quotas[0].bytes_hi, quotas[0].bytes_lo, quotas[0].state), (0, 13, 0));
    let mut store = Store::new();
    store.quotas = quotas;
    assert_eq!(store.tenant_received_bytes("").unwrap(), 13);
}

#[test]
fn unsettled_routes_hold_a_tenant_back() {
    let mut store = Store::new();
    add_tenant(&mut store, "acme");
    store.jobs.push(JobRow {
        id: "job".to_owned(),
        tenant: "acme".to_owned(),
        actor: "local".to_owned(),
        operation_id: "op".to_owned(),
        state: "running".to_owned(),
        token: None,
        retired_from: None,
        source_revoked: false,
        request_notifications: None,
        project_notifications: None,
        document_error: None,
    });
    store.outbound_routes.push(OutboundRouteRow {
        job_id: "job".to_owned(),
        destination_id: "there".to_owned(),
        acknowledged: false,
        revocation: false,
        destination_state: None,
    });
    assert_eq!(store.remove_tenant("acme", Ok(())).unwrap(), TenantRemoval::HasRoutes);
    assert!(store.tenant("acme").unwrap().is_some());
}

#[test]
fn tenants_are_the_same_whatever_the_case_of_their_key() {
    let mut store = Store::new();
    add_tenant(&mut store, "Acme");
    assert!(store.insert_tenant(test_tenant("aCME"), "i2".to_owned()).is_err());
    assert_eq!(store.tenant_incarnation("Acme").unwrap(), "incarnation of Acme");
    assert!(store.tenant_incarnation("other").is_none());
    assert_eq!(
        store.tenant_incarnations(&["Acme".to_owned(), "x".to_owned()]).unwrap(),
        [("Acme".to_owned(), "incarnation of Acme".to_owned())]
    );
    store.tenants[0].max_links = Some("u:x".to_owned());
    assert!(store.tenant("Acme").is_err());
}

fn branding(tenant: &str, name: &str) -> Branding {
    Branding {
        tenant: tenant.to_owned(),
        name: name.to_owned(),
        color: "#123456".to_owned(),
        logo_ext: "png".to_owned(),
        footer_text: "footer".to_owned(),
        footer_link_label: "label".to_owned(),
        footer_link_url: "https://example.com".to_owned(),
        updated_at: 7,
    }
}

#[test]
fn tenant_delete_removes_its_branding_row() {
    let mut store = Store::new();
    add_tenant(&mut store, "acme");
    store.set_branding(&branding("acme", "Acme")).unwrap();
    store.set_branding(&branding("", "Default")).unwrap();
    assert_eq!(store.remove_tenant("acme", Ok(())).unwrap(), TenantRemoval::Deleted);
    assert!(store.branding("acme").unwrap().is_none());
    assert_eq!(store.branding("").unwrap().unwrap().name, "Default");
}

#[test]
fn branding_rows_round_trip_and_delete() {
    let mut store = Store::new();
    assert!(store.branding("acme").unwrap().is_none());
    let branding = Branding {
        tenant: "acme".to_owned(),
        name: "Acme Corp".to_owned(),
        color: "#0a84ff".to_owned(),
        logo_ext: String::new(),
        updated_at: 42,
        ..Default::default()
    };
    store.set_branding(&branding).unwrap();
    let read = store.branding("acme").unwrap().unwrap();
    assert_eq!(read.name, "Acme Corp");
    assert_eq!(read.color, "#0a84ff");
    assert_eq!(read.logo_ext, "");
    assert_eq!(read.updated_at, 42);
    store.set_branding(&Branding { logo_ext: "png".to_owned(), ..branding.clone() }).unwrap();
    assert_eq!(store.branding("acme").unwrap().unwrap().logo_ext, "png");
    store.set_branding(&Branding { tenant: String::new(), ..branding }).unwrap();
    assert_eq!(store.branding("").unwrap().unwrap().name, "Acme Corp");
    assert!(store.delete_branding("acme").unwrap());
    assert!(!store.delete_branding("acme").unwrap());
    assert!(store.branding("acme").unwrap().is_none());
    assert!(store.branding("").unwrap().is_some());
}

#[test]
fn quota_columns_without_a_number_say_why() {
    let said = |text: &str| decode_quota(&Some(text.to_owned()), "3").unwrap_err();
    let told = |error: &str| format!("Conversion error from type Text at index: 3, {error}");
    assert_eq!(said("u:"), told("cannot parse integer from empty string"));
    assert_eq!(said(""), told("cannot parse integer from empty string"));
    assert_eq!(said("u:18446744073709551616"), told("number too large to fit in target type"));
    assert_eq!(said("18446744073709551616x"), told("number too large to fit in target type"));
    assert_eq!(said("u:1x8446744073709551616"), told("invalid digit found in string"));
    assert_eq!(said("+"), told("invalid digit found in string"));
    assert_eq!(said("-1"), told("invalid digit found in string"));
    for text in ["", "18446744073709551616", "18446744073709551616x", "1x", "+", "-1", "-", "\u{661}"] {
        assert_eq!(said(text), told(&text.parse::<u64>().unwrap_err().to_string()));
    }
    assert_eq!(decode_quota(&Some("u:+7".to_owned()), "3"), Ok(Some(7)));
}
