//! Conversion of a data copy.
use ed25519_dalek::{Signer, SigningKey};
use votport_store::artifact::{check_record, finish_artifact, hash_prefix, write_replacements};
use votport_store::conversion::{
    HELP, MAX_SOURCE_JSON, admit_source, backfill, begin, bounded_json, check_upload_fields,
    command, integrity, job_token, rebuild_statement, swap_statement, target_table,
};
use votport_store::convert::write_artifact;
use votport_store::issue::GrantChecks;
use votport_store::records::{
    ArtifactRecord, Conversion, CurrentJob, FetchTicket, FileRecord, JobDocument, LogEvent,
    OutboundGrant, Replacement, SourceFile, SourceJob, SourceLink, UploadRecord,
};
use votport_store::rows::{JobRow, SessionRow, TenantRow, TicketRow};
use votport_store::store::Store;
use votport_store::upgrade::{converted_document, count_rotated, verify_events};
use votport_store::usage::backfill_quota_usage;

fn key() -> SigningKey {
    SigningKey::from_bytes(&[19; 32])
}

fn issuer() -> String {
    hex::encode(key().verifying_key().to_bytes())
}

fn sign(document: &str) -> String {
    let message = format!("votport-delivery-event-v1\0{document}");
    hex::encode(key().sign(message.as_bytes()).to_bytes())
}

fn hash_token(token: &str) -> String {
    format!("digest of {token}")
}

fn args(list: &[&str]) -> Vec<String> {
    list.iter().map(|item| (*item).to_owned()).collect()
}

#[test]
fn the_command_line_names_a_copy_and_an_url() {
    assert_eq!(command(&args(&["--help"])), Ok(None));
    assert_eq!(
        command(&args(&["--public-url", "u", "--data-copy", "d"])),
        Ok(Some(("d".to_owned(), "u".to_owned())))
    );
    for wrong in [
        &[][..],
        &["--data-copy", "d"][..],
        &["--public-url", "u"][..],
        &["--data-copy", "d", "--public-url"][..],
        &["--data-copy", "d", "--data-copy", "e", "--public-url", "u"][..],
        &["--help", "--help"][..],
        &["other"][..],
    ] {
        assert_eq!(command(&args(wrong)).unwrap_err(), HELP);
    }
}

#[test]
fn a_conversion_begins_under_the_origin_of_its_url() {
    let begun = begin("id".to_owned(), "https://DROP.EXAMPLE.com:443/", "issuer", 7).unwrap();
    assert_eq!(begun.public_url, "https://drop.example.com");
    assert_eq!((begun.source, begun.target, begun.replacements), (35, 44, 0));
    assert!(begin("id".to_owned(), "no url", "issuer", 7).is_err());
    assert_eq!(
        begun.prepared(),
        "{\"created_at\":7,\"id\":\"id\",\"issuer\":\"issuer\",\
         \"public_url\":\"https://drop.example.com\",\"replacements\":0,\"source\":35,\
         \"state\":\"prepared\",\"target\":44}"
    );
    assert_eq!(
        begun.text(),
        "{\"id\":\"id\",\"source\":35,\"target\":44,\
         \"public_url\":\"https://drop.example.com\",\"issuer\":\"issuer\",\"created_at\":7,\
         \"bytes\":0,\"sha256\":\"\",\"replacements\":0}"
    );
    assert_eq!(
        begun.report("/data/a.jsonl"),
        "Converted schema35 copy to schema44; 0 workflow links rotated. Review /data/a.jsonl."
    );
}

#[test]
fn unsound_databases_are_refused() {
    assert_eq!(integrity("ok", false), Ok(()));
    assert_eq!(integrity("bad page", true).unwrap_err(), "SQLite integrity check failed: bad page");
    assert_eq!(integrity("ok", true).unwrap_err(), "SQLite foreign key check failed");
}

#[test]
fn source_documents_hold_nothing_unknown() {
    let good = r#"[{"id":"a","files":[{"path":"p","bytes":1}],"log":[{"at":1,"kind":"k"}]}]"#;
    assert_eq!(admit_source(Some(good)), Ok(()));
    assert_eq!(check_upload_fields("[]"), Ok(()));
    for (source, expected) in [
        ("{}", "source uploads must be an array"),
        ("[1]", "source upload record must be an object"),
        (r#"[{"unexpected":1}]"#, "source upload contains fields outside the schema35 contract"),
        (r#"[{"id":"a"}]"#, "source files must be an array"),
        (r#"[{"files":{}}]"#, "source files must be an array"),
        (
            r#"[{"files":[{"size":1}]}]"#,
            "source upload contains fields outside the schema35 contract",
        ),
        (r#"[{"files":[],"log":1}]"#, "source transfer log must be an array"),
        (
            r#"[{"files":[],"log":[{"id":1}]}]"#,
            "source upload contains fields outside the schema35 contract",
        ),
        (r#"[{"files":[],"log":[[]]}]"#, "source upload record must be an object"),
    ] {
        assert_eq!(check_upload_fields(source).unwrap_err(), expected, "{source}");
    }
    assert!(admit_source(Some("[}")).unwrap_err().contains("expected"));
    assert!(admit_source(None).unwrap_err().contains("source JSON must be text"));
    let long = "x".repeat(MAX_SOURCE_JSON + 1);
    assert!(bounded_json(Some(&long), 6)
        .unwrap_err()
        .starts_with("Conversion error from type Text at index: 6, source JSON"));
    assert_eq!(bounded_json(Some(&long[1..]), 6).unwrap().len(), MAX_SOURCE_JSON);
}

#[test]
fn tables_are_rebuilt_with_what_they_lack() {
    assert_eq!(
        target_table("CREATE TABLE t(a, b(c))", "t", true).unwrap(),
        "CREATE TABLE conversion_t (a, b(c))"
    );
    assert_eq!(target_table("X (a)", "t", false).unwrap(), "CREATE TABLE t (a)");
    assert_eq!(target_table("none", "t", false).unwrap_err(), "invalid target schema");
    assert_eq!(
        rebuild_statement(
            "tenants",
            &args(&["key", "incarnation"]),
            &backfill("tenants"),
        ),
        "INSERT INTO conversion_tenants(rowid,key,incarnation) SELECT rowid,key,'' FROM tenants"
    );
    assert_eq!(
        rebuild_statement("links", &args(&["id", "verification"]), &backfill("links")),
        "INSERT INTO conversion_links(rowid,id,verification) SELECT rowid,id,'default' FROM links"
    );
    assert_eq!(backfill("delivery_jobs").len(), 3);
    assert_eq!(backfill("automation_tokens"), [("created_by".to_owned(), "''".to_owned())]);
    assert!(backfill("files").is_empty());
    assert_eq!(
        swap_statement("t"),
        "DROP TABLE t; ALTER TABLE conversion_t RENAME TO t;"
    );
}

fn file(path: &str, stored_as: &str, bytes: u64, suite: &str, deleted: bool) -> FileRecord {
    FileRecord {
        path: path.to_owned(),
        stored_as: stored_as.to_owned(),
        bytes,
        suite: suite.to_owned(),
        root: "cd".repeat(32),
        receipt: deleted,
        deleted,
    }
}

fn seed_upload() -> (SourceLink, Vec<SourceFile>) {
    let upload = UploadRecord {
        id: "upload".to_owned(),
        started_at: 1,
        completed_at: 2,
        replayed_chunks: 0,
        rejected_chunks: 0,
        transport: None,
        package_root: "package".to_owned(),
        total_bytes: u64::MAX,
        files: vec![
            file("R\u{e9}sum\u{e9}.mov", "movie.mov", u64::MAX, "sha256", true),
            file("empty", "empty", 0, "blake3", false),
        ],
        partial: true,
        log: vec![LogEvent {
            at: 2,
            kind: "interrupted".to_owned(),
            path: None,
            bytes: None,
            secs: None,
            count: None,
        }],
    };
    let files = upload
        .files
        .iter()
        .enumerate()
        .map(|(index, file)| SourceFile {
            link_id: "link".to_owned(),
            upload_index: 0,
            file_index: index as i64,
            tenant: "team".to_owned(),
            bytes_hi: (file.bytes >> 32) as i64,
            bytes_lo: (file.bytes & 0xffff_ffff) as i64,
            deleted: file.deleted,
            stored_as: file.stored_as.clone(),
        })
        .collect();
    let link = SourceLink {
        id: "link".to_owned(),
        tenant: "team".to_owned(),
        uploads: vec![upload],
        refusal: None,
    };
    (link, files)
}

fn seed_job(store: &mut Store, id: &str, grant: bool, revoked: bool) -> SourceJob {
    let state = if grant { "ready" } else { "queued" };
    let old = job_token(&[19; 32], id, 7);
    store.jobs.push(JobRow {
        id: id.to_owned(),
        tenant: "team".to_owned(),
        actor: "sso:sender".to_owned(),
        operation_id: id.to_owned(),
        state: state.to_owned(),
        token: None,
        retired_from: None,
        source_revoked: false,
        request_notifications: None,
        project_notifications: None,
        document_error: None,
    });
    if grant {
        let issued = OutboundGrant {
            id: id.to_owned(),
            token_hash: hash_token(&old),
            password_hash: None,
            tenant: "team".to_owned(),
            link_id: String::new(),
            upload_id: String::new(),
            package_root: "package".to_owned(),
            name: "movie".to_owned(),
            suite: "blake3".to_owned(),
            root: "root".to_owned(),
            file_index: 0,
            bytes: 8,
            label: "Delivery".to_owned(),
            created_at: 10,
            expires_at: 100_000,
            revoked_at: if revoked { Some(7) } else { None },
            downloads: 2,
            max_downloads: None,
            notifications: None,
            first_download_at: None,
            last_download_at: None,
            files: Vec::new(),
        };
        let checks = GrantChecks {
            names: Ok(()),
            digest: "digest".to_owned(),
            creation: Ok(()),
            finished: None,
        };
        store.insert_outbound_grant(issued, &checks).unwrap();
    }
    let token = format!("new token of {id}");
    SourceJob {
        id: id.to_owned(),
        tenant: "team".to_owned(),
        actor: "sso:sender".to_owned(),
        operation_id: id.to_owned(),
        project_id: "project".to_owned(),
        state: state.to_owned(),
        document: JobDocument {
            id: id.to_owned(),
            tenant: "team".to_owned(),
            actor: "sso:sender".to_owned(),
            operation_id: id.to_owned(),
            project_id: "project".to_owned(),
            state: state.to_owned(),
            label: "Delivery".to_owned(),
            token_generation: 7,
        },
        refusal: None,
        signed_hash: hash_token(&old),
        token_hash: hash_token(&token),
        token,
    }
}

#[test]
fn conversion_refusals_roll_back_schema_records_and_authority() {
    let (link, files) = seed_upload();
    let refused = |link: SourceLink, files: Vec<SourceFile>| {
        let mut store = Store::new();
        let before = store.clone();
        let error = store.normalize_uploads(&vec![link], &files).unwrap_err();
        assert_eq!(store, before);
        error
    };
    let mut changed = files.clone();
    changed[0].stored_as = "wrong".to_owned();
    assert!(refused(link.clone(), changed).contains("positional file identity"));
    assert!(refused(link.clone(), files[1..].to_vec()).contains("positional file count"));
    let broken = SourceLink {
        uploads: Vec::new(),
        refusal: Some(admit_source(Some("[}")).unwrap_err()),
        ..link.clone()
    };
    assert!(refused(broken, files.clone()).contains("expected"));
    let unknown = SourceLink {
        uploads: Vec::new(),
        refusal: Some(admit_source(Some(r#"[{"unexpected":1}]"#)).unwrap_err()),
        ..link.clone()
    };
    assert!(refused(unknown, files.clone()).contains("outside the schema35 contract"));
    let mut nameless = link.clone();
    nameless.uploads[0].id = String::new();
    assert!(refused(nameless, files.clone()).contains("missing or duplicate"));
    let mut twice = link.clone();
    twice.uploads.push(twice.uploads[0].clone());
    assert!(refused(twice, files.clone()).contains("missing or duplicate"));
    let mut orphan = files.clone();
    orphan.push(SourceFile { link_id: "gone".to_owned(), ..files[0].clone() });
    assert!(refused(link, orphan).contains("orphan rows"));

    for (change, expected) in [
        (
            (|store: &mut Store, job: &mut SourceJob| {
                job.actor = "wrong".to_owned();
                let _ = store;
            }) as fn(&mut Store, &mut SourceJob),
            "indexed authority",
        ),
        (|store, _| store.grants[0].token_hash = "wrong".to_owned(), "source signing key"),
        (|store, _| store.grants[0].tenant = "wrong".to_owned(), "source signing key"),
        (|_, job| job.refusal = Some("missing field `id`".to_owned()), "missing field"),
    ] {
        let mut store = Store::new();
        let mut job = seed_job(&mut store, "job", true, false);
        change(&mut store, &mut job);
        let before = store.clone();
        let error = store.convert_jobs(&vec![job], &issuer(), 20, &sign).unwrap_err();
        assert!(error.contains(expected), "{error}");
        assert_eq!(store, before);
    }
}

#[test]
fn converts_only_explicit_schema35_copy_and_preserves_authority() {
    let mut store = Store::new();
    let jobs = vec![
        seed_job(&mut store, "job", true, false),
        seed_job(&mut store, "revoked", true, true),
        seed_job(&mut store, "queued", false, false),
    ];
    store
        .delivery_event(
            &issuer(),
            "team",
            "job",
            "delivery_created",
            "{\"original\":true}",
            12,
            sign,
        )
        .unwrap();
    let event = store.events[0].clone();
    let (link, files) = seed_upload();
    store.links.push(votport_store::links::link_params(&votport_store::records::Link {
        id: "link".to_owned(),
        label: "Link".to_owned(),
        tenant: "team".to_owned(),
        dest: String::new(),
        password_hash: None,
        created_at: 1,
        expires_at: None,
        max_bytes: None,
        active: true,
        legal_hold: false,
        notifications: None,
        uploads: Vec::new(),
        events: Vec::new(),
    }));
    store.normalize_uploads(&vec![link.clone()], &files).unwrap();
    assert_eq!(store.read_uploads("link").unwrap(), link.uploads);
    let done = store.convert_jobs(&jobs, &issuer(), 20, &sign).unwrap();
    assert_eq!(count_rotated(&done), 2);
    assert_eq!(done[0].generation, Some(8));
    assert_eq!(done[2].generation, None);
    verify_events(&store.events, &issuer()).unwrap();
    assert_eq!(store.events[0], event);
    assert_eq!(store.events.len(), 3);
    assert_eq!(store.events[1].kind, "delivery_link_rotated");
    assert_eq!(
        store.events[1].payload,
        "{\"generation\":8,\"reason\":\"offline_schema35_conversion\"}"
    );
    let revoked = store.outbound_grant_by_id("revoked").unwrap().unwrap();
    assert_eq!((revoked.revoked_at, revoked.downloads), (Some(7), 2));
    let grant = store.outbound_grant_by_id("job").unwrap().unwrap();
    assert_eq!(grant.token_hash, hash_token("new token of job"));
    assert_eq!(store.jobs[0].token.as_deref(), Some("new token of job"));
    assert_eq!(store.jobs[2].token.as_deref(), Some("new token of queued"));

    let mut result =
        begin("id".to_owned(), "https://DROP.EXAMPLE.com:443/", &issuer(), 20).unwrap();
    result.replacements = count_rotated(&done);
    let replacement = |index: usize| Replacement {
        document: JobDocument { token_generation: 8, ..jobs[index].document.clone() },
        refusal: None,
        token: jobs[index].token.clone(),
        token_digest: jobs[index].token_hash.clone(),
        grant_hash: store.grants[index].token_hash.clone(),
        released: true,
        revoked_at: store.grants[index].revoked_at,
        expires_at: store.grants[index].expires_at,
    };
    let lines = write_replacements(
        &vec![replacement(0), replacement(1)],
        &result.public_url,
        result.created_at,
    )
    .unwrap();
    let lines: Vec<&str> = lines.lines().collect();
    assert!(lines[0].ends_with("\"url\":\"https://drop.example.com/s/new token of job\"}"));
    assert!(lines[1].ends_with("\"url\":null}"));
    let wrong = Replacement { token_digest: "other".to_owned(), ..replacement(0) };
    assert_eq!(
        write_replacements(&vec![wrong], "u", 20).unwrap_err(),
        "converted workflow token does not match its grant"
    );
}

#[test]
fn conversion_invalidates_outstanding_rotated_tickets_but_preserves_delivery_history() {
    let mut store = Store::new();
    let now = 1000;
    let job = seed_job(&mut store, "job", true, false);
    store.grants[0].max_downloads = Some(3);
    let old_hash = store.grants[0].token_hash.clone();
    let ticket = |token_id: &str, grant_id: &str, delivered_at, hash: &str| TicketRow {
        token_id: token_id.to_owned(),
        grant_id: grant_id.to_owned(),
        manifest_root: format!("{grant_id}-root"),
        expires_at: now + 600,
        delivered_at,
        holder: String::new(),
        grant_token_hash: hash.to_owned(),
        policy_revision: 0,
        admitted_at: Some(now),
    };
    store.tickets.push(ticket("old-ticket", "job", None, &old_hash));
    store.tickets.push(ticket("delivered-ticket", "job", Some(now - 1), &old_hash));
    let mut unrelated = store.grants[0].clone();
    unrelated.id = "unrelated".to_owned();
    unrelated.token_hash = "unrelated-hash".to_owned();
    store.grants.push(unrelated);
    store.tickets.push(ticket("unrelated-ticket", "unrelated", None, "unrelated-hash"));

    store.convert_jobs(&vec![job], &issuer(), now as u64, &sign).unwrap();

    assert!(store.fetch_ticket("old-ticket").unwrap().is_none());
    let capability = |token_id: &str, hash: &str| FetchTicket {
        holder: String::new(),
        grant_token_hash: hash.to_owned(),
        policy_revision: 0,
        token_id: token_id.to_owned(),
        grant_id: "job".to_owned(),
        manifest_root: "job-root".to_owned(),
        expires_at: now as u64 + 600,
        delivered_at: None,
    };
    assert!(!store
        .admit_fetch_ticket(&capability("old-ticket", &old_hash), now as u64, None)
        .unwrap());
    assert_eq!(
        store.fetch_ticket("delivered-ticket").unwrap().unwrap().delivered_at,
        Some(now as u64 - 1)
    );
    assert_eq!(store.fetch_ticket("unrelated-ticket").unwrap().unwrap().grant_id, "unrelated");
    let grant = store.outbound_grant_by_id("job").unwrap().unwrap();
    assert_eq!(grant.downloads, 2);
    assert_eq!(grant.max_downloads, Some(3));
    let unrelated = store.outbound_grant_by_id("unrelated").unwrap().unwrap();
    assert_eq!(unrelated.token_hash, "unrelated-hash");
    let token = store.jobs[0].token.clone().unwrap();
    assert_eq!(grant.token_hash, hash_token(&token));
    let next = capability("replacement-ticket", &grant.token_hash);
    assert!(store.put_fetch_ticket(&next, now as u64, None).unwrap());
    assert!(store.admit_fetch_ticket(&next, now as u64, None).unwrap());
}

#[test]
fn conversion_refuses_generation_overflow_without_rotating_authority() {
    let mut store = Store::new();
    let mut job = seed_job(&mut store, "job", true, false);
    job.document.token_generation = u64::MAX;
    let token = job_token(&[19; 32], "job", u64::MAX);
    job.signed_hash = hash_token(&token);
    store.grants[0].token_hash = hash_token(&token);
    let before = store.clone();
    assert!(store
        .convert_jobs(&vec![job], &issuer(), 20, &sign)
        .unwrap_err()
        .contains("generation overflow"));
    assert_eq!(store, before);
}

#[test]
fn conversion_preserves_and_refuses_damaged_event_chains() {
    for change in [
        (|store: &mut Store| store.events[0].payload = "{}".to_owned()) as fn(&mut Store),
        |store: &mut Store| store.events[0].signature = "invalid".to_owned(),
        |store: &mut Store| {
            store.events.remove(0);
        },
    ] {
        let mut store = Store::new();
        for at in [1, 2] {
            store
                .delivery_event(
                    &issuer(),
                    "team",
                    "job",
                    "delivery_created",
                    &format!("{{\"at\":{at}}}"),
                    at,
                    sign,
                )
                .unwrap();
        }
        assert_eq!(verify_events(&store.events, &issuer()), Ok(()));
        change(&mut store);
        assert!(verify_events(&store.events, &issuer()).unwrap_err().contains("event chain"));
    }
}

#[test]
fn conversion_rolls_back_anonymous_quota_backfill_on_late_failure() {
    let mut store = Store::new();
    let (mut link, mut files) = seed_upload();
    link.tenant = String::new();
    for file in &mut files {
        file.tenant = String::new();
    }
    store.normalize_uploads(&vec![link], &files).unwrap();
    store.quotas = backfill_quota_usage(&store.files, &store.tenants).unwrap();
    let mut job = seed_job(&mut store, "job", false, false);
    job.refusal = Some("missing field `id`".to_owned());
    let before = store.clone();
    assert!(!store.convert_jobs(&vec![job], &issuer(), 20, &sign).unwrap_err().is_empty());
    assert_eq!(store, before);
}

fn tenant(key: &str) -> TenantRow {
    TenantRow {
        key: key.to_owned(),
        incarnation: "old".to_owned(),
        label: key.to_owned(),
        admin_group: None,
        max_total_bytes: None,
        max_links: None,
        max_sessions: None,
        created_at: 1,
    }
}

#[test]
fn a_copy_is_converted_as_a_whole_or_not_at_all() {
    let mut store = Store::new();
    let (link, files) = seed_upload();
    let (links, tenant_key) = (vec![link.clone()], link.tenant.clone());
    store.tenants.push(tenant("other"));
    store.tenants.push(tenant(&tenant_key));
    let incarnations = vec![
        (tenant_key.clone(), "first".to_owned()),
        ("other".to_owned(), "second".to_owned()),
    ];
    let job = seed_job(&mut store, "job", true, false);
    let before = store.clone();

    let mut refused = job.clone();
    refused.refusal = Some("missing field `id`".to_owned());
    assert_eq!(
        store
            .convert(&links, &files, &incarnations, &vec![refused], &issuer(), 20, &sign)
            .unwrap_err(),
        "missing field `id`"
    );
    assert_eq!(store, before);
    assert!(store
        .convert(&links, &files[1..].to_vec(), &incarnations, &vec![job.clone()], &issuer(), 20, &sign)
        .unwrap_err()
        .contains("positional file count"));
    assert_eq!(store, before);
    let unsigned = |_: &str| "00".to_owned();
    assert!(store
        .convert(&links, &files, &incarnations, &vec![job.clone()], &issuer(), 20, &unsigned)
        .unwrap_err()
        .contains("signing identity"));
    assert_eq!(store, before);
    let mut busy = store.clone();
    busy.sessions.push(SessionRow {
        id: "session".to_owned(),
        link_id: "link".to_owned(),
        tenant: tenant_key.clone(),
        dest_dir: String::new(),
        dest_rel: String::new(),
        package_suite: 0,
        package_root: String::new(),
        package_length: 0,
        max_total_bytes: None,
        started_at: 1,
        created_at: 1,
        push_key: None,
        committed_upload_id: None,
    });
    assert!(busy
        .convert(&links, &files, &incarnations, &vec![job.clone()], &issuer(), 20, &sign)
        .unwrap_err()
        .contains("retained admissions"));

    let done = store
        .convert(&links, &files, &incarnations, &vec![job.clone()], &issuer(), 20, &sign)
        .unwrap();
    assert_eq!(count_rotated(&done), 1);
    assert_eq!(store.tenants[0].incarnation, "second");
    assert_eq!(store.tenants[1].incarnation, "first");
    assert_eq!(store.files.len(), files.len());
    assert_eq!(store.uploads.len(), link.uploads.len());
    assert_eq!(store.grants[0].token_hash, job.token_hash);
    assert_eq!(verify_events(&store.events, &issuer()), Ok(()));
    let stored = store.tenant_stored(&tenant_key).unwrap().1;
    assert_eq!(store.tenant_received_bytes(&tenant_key).unwrap(), stored);
}

fn artifact() -> (String, Conversion, Vec<CurrentJob>) {
    let mut result = begin("id".to_owned(), "https://drop.example.com", &issuer(), 20).unwrap();
    let mut store = Store::new();
    let job = seed_job(&mut store, "job", true, false);
    result.replacements = 1;
    let (text, result) = write_artifact(
        result,
        &vec![Replacement {
            document: JobDocument { token_generation: 8, ..job.document.clone() },
            refusal: None,
            token: job.token.clone(),
            token_digest: job.token_hash.clone(),
            grant_hash: job.token_hash.clone(),
            released: true,
            revoked_at: None,
            expires_at: 100,
        }],
    )
    .unwrap();
    assert!(text.starts_with(&format!("{}\n", result.prepared())));
    assert_eq!(result.bytes, text.len() as u64);
    assert_eq!(hash_prefix(text.as_bytes(), result.bytes).unwrap(), result.sha256);
    let current = CurrentJob {
        id: "job".to_owned(),
        tenant: "team".to_owned(),
        token: job.token.clone(),
        token_digest: job.token_hash.clone(),
        grant_hash: job.token_hash.clone(),
        token_generation: 8,
        refusal: None,
    };
    (text, result, vec![current])
}

#[test]
fn incomplete_conversion_artifacts_never_authorize_a_retry() {
    let (text, result, jobs) = artifact();
    assert_eq!(
        finish_artifact(&text, &result, &jobs).unwrap(),
        format!(
            "{{\"bytes\":{},\"id\":\"id\",\"sha256\":\"{}\",\"state\":\"committed\"}}\n",
            result.bytes, result.sha256
        )
    );
    assert_eq!(
        finish_artifact(&text[..text.len() - 1], &result, &jobs).unwrap_err(),
        "conversion artifact is truncated"
    );
    assert_eq!(
        finish_artifact(&text.replacen('{', "[", 1), &result, &jobs).unwrap_err(),
        "conversion artifact does not match the committed database"
    );
    let fewer = Conversion { replacements: 2, ..result.clone() };
    assert_eq!(
        finish_artifact(&text, &fewer, &jobs).unwrap_err(),
        "conversion artifact replacement count is wrong"
    );
    assert_eq!(
        finish_artifact(&text, &result, &Vec::new()).unwrap_err(),
        "Query returned no rows"
    );
    let mut moved = jobs.clone();
    moved[0].token_generation = 9;
    assert_eq!(
        finish_artifact(&text, &result, &moved).unwrap_err(),
        "replacement artifact disagrees with current workflow authority"
    );
}

#[test]
fn records_say_what_the_database_says() {
    let (_, result, jobs) = artifact();
    let good = ArtifactRecord {
        job_id: Some("job".to_owned()),
        tenant: Some("\"team\"".to_owned()),
        generation: Some("8".to_owned()),
        token_hash: Some(format!("\"{}\"", jobs[0].grant_hash)),
        url: Some(format!("https://drop.example.com/s/{}", jobs[0].token)),
    };
    assert_eq!(check_record(&good, &jobs, &result.public_url), Ok(()));
    let silent = ArtifactRecord { url: None, ..good.clone() };
    assert_eq!(check_record(&silent, &jobs, &result.public_url), Ok(()));
    let nameless = ArtifactRecord { job_id: None, ..good.clone() };
    assert_eq!(
        check_record(&nameless, &jobs, &result.public_url).unwrap_err(),
        "invalid replacement job"
    );
    for wrong in [
        ArtifactRecord { tenant: None, ..good.clone() },
        ArtifactRecord { generation: Some("7".to_owned()), ..good.clone() },
        ArtifactRecord { token_hash: Some("\"x\"".to_owned()), ..good.clone() },
        ArtifactRecord { url: Some("https://elsewhere".to_owned()), ..good.clone() },
    ] {
        assert!(check_record(&wrong, &jobs, &result.public_url)
            .unwrap_err()
            .contains("current workflow authority"));
    }
}

#[test]
fn artifacts_keep_their_lines_whatever_their_labels_hold() {
    let (_, result, jobs) = artifact();
    let mut store = Store::new();
    let job = seed_job(&mut store, "job", true, false);
    let mut document = JobDocument { token_generation: 8, ..job.document.clone() };
    document.label = "one\ntwo \"three\"\u{1}".to_owned();
    let (text, result) = write_artifact(
        Conversion { replacements: 1, ..result },
        &vec![Replacement {
            document,
            refusal: None,
            token: job.token.clone(),
            token_digest: job.token_hash.clone(),
            grant_hash: job.token_hash.clone(),
            released: true,
            revoked_at: None,
            expires_at: 100,
        }],
    )
    .unwrap();
    assert_eq!(text.lines().count(), 2);
    let line = finish_artifact(&text, &result, &jobs).unwrap();
    assert_eq!(
        line,
        format!(
            "{{\"bytes\":{},\"id\":\"id\",\"sha256\":\"{}\",\"state\":\"committed\"}}\n",
            text.len(),
            result.sha256
        )
    );
}

#[test]
fn tokens_are_the_digest_of_a_signature() {
    let message = "votport-job-token-v1\0job:7";
    let signature = key().sign(message.as_bytes()).to_bytes();
    let digest = <sha2::Sha256 as sha2::Digest>::digest(signature);
    assert_eq!(job_token(&[19; 32], "job", 7), hex::encode(digest)[..32]);
    assert_ne!(job_token(&[19; 32], "job", 8), job_token(&[19; 32], "job", 7));
}

#[test]
fn job_documents_tell_their_new_generation() {
    let document = "{ \"updated_at\": 1, \"id\": \"job\", \"token_generation\": 7 }";
    assert_eq!(
        converted_document(document, Some(8), 20).unwrap(),
        "{\"id\":\"job\",\"token_generation\":8,\"updated_at\":20}"
    );
    assert_eq!(
        converted_document(document, None, 20).unwrap(),
        "{\"id\":\"job\",\"token_generation\":7,\"updated_at\":1}"
    );
    assert_eq!(
        converted_document("[]", Some(8), 20).unwrap_err(),
        "workflow document must be an object"
    );
    assert!(converted_document("{", None, 20).unwrap_err().contains("EOF"));
}
