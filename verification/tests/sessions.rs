//! Upload sessions in progress.
use votport_store::kinds::{CommitProfile, NasContract};
use votport_store::records::{
    Link, ObjectId, PersistedUploadFile, PersistedUploadSession, UploadRecord,
};
use votport_store::store::Store;
use votport_store::uploads::UploadHooks;

fn test_session() -> PersistedUploadSession {
    let mut session = PersistedUploadSession {
        committed_upload_id: None,
        push_key: None,
        id: "abcd1234".to_owned(),
        link_id: "link-1".to_owned(),
        tenant: String::new(),
        dest_dir: "/received/link-1".to_owned(),
        dest_rel: String::new(),
        package: ObjectId { suite: 1, root: [7u8; 32], length: 100 },
        max_total_bytes: Some(1000),
        started_at: 42,
        files: vec![PersistedUploadFile {
            entry: 0,
            display_path: "a.bin".to_owned(),
            stored_components: vec!["a.bin".to_owned()],
            object: ObjectId { suite: 1, root: [9u8; 32], length: 100 },
            staging_path: "/received/link-1/.vot-1-0-2.stage".to_owned(),
            journal_path: "/received/link-1/.vot-1-0-2.journal".to_owned(),
            incarnation: [3u8; 16],
            profile: CommitProfile::Balanced,
            nas_contract: NasContract::Unqualified,
            prefix_bytes: 0,
            published: false,
            receipt: false,
        }],
    };
    let mut second = session.files[0].clone();
    second.entry = 1;
    second.profile = CommitProfile::Fast;
    second.display_path = "b.bin".to_owned();
    second.stored_components = vec!["b.bin".to_owned()];
    session.files.push(second);
    session
}

#[test]
fn upload_sessions_round_trip() {
    let mut store = Store::new();
    let session = test_session();
    store.insert_upload_session(&session).unwrap();
    let (received, reserved) = store.tenant_admission_usage("").unwrap();
    assert_eq!(received, 0);
    assert_eq!(reserved.len(), 1);
    assert_eq!((reserved[0].id.as_str(), reserved[0].bytes), (session.id.as_str(), 100));
    assert!(store.tenant_admission_usage("other").unwrap().1.is_empty());
    store
        .update_upload_file_progress(
            &session.id,
            &[(0, 64 * 1024, true, true), (1, 32, false, false)],
        )
        .unwrap();
    let loaded = store.load_upload_sessions().unwrap();
    assert_eq!(loaded.len(), 1);
    let mut expected = session.clone();
    expected.files[0].prefix_bytes = 64 * 1024;
    expected.files[0].published = true;
    expected.files[0].receipt = true;
    expected.files[1].prefix_bytes = 32;
    assert_eq!(loaded[0], expected);
    store.insert_upload_session(&session).unwrap();
    assert_eq!(store.load_upload_sessions().unwrap()[0].files.len(), 2);
    assert!(store
        .update_upload_file_progress(&session.id, &[(0, 64, true, true), (7, 32, false, false)])
        .is_err());
    assert_eq!(store.load_upload_sessions().unwrap(), vec![session.clone()]);
    let mut store = store.clone();
    assert_eq!(store.load_upload_sessions().unwrap(), vec![session.clone()]);
    store.delete_upload_session(&session.id).unwrap();
    assert!(store.load_upload_sessions().unwrap().is_empty());
}

#[test]
fn push_sessions_are_found_by_key_and_replaced() {
    let mut store = Store::new();
    let mut session = test_session();
    session.push_key = Some("key".to_owned());
    store.insert_upload_session(&session).unwrap();
    store.insert_upload_session(&PersistedUploadSession {
        id: "plain".to_owned(),
        push_key: None,
        ..session.clone()
    }).unwrap();
    assert_eq!(store.load_push_sessions().unwrap().len(), 1);
    assert_eq!(store.load_push_session("key").unwrap(), Some(session.clone()));
    assert_eq!(store.load_push_session("none").unwrap(), None);
    let again = PersistedUploadSession { id: "again".to_owned(), ..session };
    store.insert_upload_session(&again).unwrap();
    assert_eq!(store.load_push_session("key").unwrap(), Some(again.clone()));
    let pending = store.pending_upload_paths("");
    assert_eq!(pending.len(), 4);
    store.sessions.iter_mut().for_each(|row| row.committed_upload_id = Some("done".to_owned()));
    assert_eq!(
        store.insert_upload_session(&again).unwrap_err(),
        "completed upload is awaiting publication cleanup"
    );
}

#[test]
fn damaged_session_rows_are_refused() {
    let mut store = Store::new();
    store.insert_upload_session(&test_session()).unwrap();
    let good = store.clone();
    store.sessions[0].package_root = "not hex".to_owned();
    assert!(store.load_upload_sessions().is_err());
    let mut store = good.clone();
    store.session_files[0].incarnation = "00".to_owned();
    assert!(store.load_upload_sessions().is_err());
    let mut store = good;
    store.session_files[0].commit_profile = "eager".to_owned();
    assert!(store.load_upload_sessions().is_err());
}

#[test]
fn a_session_becomes_its_upload_once() {
    let mut store = Store::new();
    store
        .insert_link(Link {
            id: "link-1".to_owned(),
            tenant: String::new(),
            label: "test".to_owned(),
            dest: String::new(),
            password_hash: None,
            created_at: 0,
            expires_at: None,
            max_bytes: None,
            active: true,
            legal_hold: false,
            notifications: None,
            uploads: Vec::new(),
            events: Vec::new(),
        })
        .unwrap();
    store.insert_upload_session(&test_session()).unwrap();
    let upload = UploadRecord {
        id: "up".to_owned(),
        started_at: 1,
        completed_at: 2,
        replayed_chunks: 0,
        rejected_chunks: 0,
        transport: None,
        package_root: "package".to_owned(),
        total_bytes: 0,
        files: Vec::new(),
        partial: false,
        log: Vec::new(),
    };
    let hooks = UploadHooks { queued: Ok(()), routed: Ok(()) };
    assert_eq!(
        store
            .append_upload_from_session("", "link-1", upload.clone(), "missing", &hooks)
            .unwrap_err(),
        "upload admission is missing at completion"
    );
    let calls = |store: &Store, upload: &UploadRecord, session: Option<&str>| {
        store.upload_calls("", "link-1", upload, session).map(|calls| (calls.queue, calls.route))
    };
    let partial = UploadRecord { partial: true, ..upload.clone() };
    assert_eq!(calls(&store, &upload, Some("abcd1234")), Ok((true, true)));
    assert_eq!(calls(&store, &upload, None), Ok((true, false)));
    assert_eq!(calls(&store, &partial, Some("abcd1234")), Ok((true, true)));
    assert!(calls(&store, &upload, Some("missing")).is_err());
    assert_eq!(
        store.upload_calls("other", "link-1", &upload, None).map(|calls| calls.queue),
        Ok(false)
    );
    assert_eq!(
        store
            .append_upload_from_session("", "link-1", upload.clone(), "abcd1234", &hooks)
            .unwrap(),
        Some("up".to_owned())
    );
    assert_eq!(calls(&store, &upload, Some("abcd1234")), Ok((false, false)));
    assert_eq!(calls(&store, &upload, None), Ok((true, false)));
    assert!(calls(&store, &partial, None).unwrap_err().contains("recovery upload identity"));
    let changed = UploadRecord { total_bytes: 9, ..upload.clone() };
    assert_eq!(calls(&store, &changed, None).unwrap_err(), "upload identity changed");
    let other = UploadRecord { id: "other".to_owned(), ..upload };
    assert_eq!(
        store.append_upload_from_session("", "link-1", other, "abcd1234", &hooks).unwrap(),
        Some("up".to_owned())
    );
    assert_eq!(store.uploads.len(), 1);
}
