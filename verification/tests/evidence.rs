//! Delivery evidence and the signed chain of delivery events.
use ed25519_dalek::{Signer, SigningKey};
use votport_store::evidence::MAX_EVENT_PAGE_BYTES;
use votport_store::issue::GrantChecks;
use votport_store::kinds::EvidenceKind;
use votport_store::records::{DeliveryEvent, EventCheckpoint, EventExport, Evidence, OutboundGrant};
use votport_store::store::Store;

struct Key(SigningKey);

impl Key {
    fn new(seed: u8) -> Key {
        Key(SigningKey::from_bytes(&[seed; 32]))
    }

    fn issuer(&self) -> String {
        hex::encode(self.0.verifying_key().to_bytes())
    }

    fn sign(&self, document: &str) -> String {
        let message = format!("votport-delivery-event-v1\0{document}");
        hex::encode(self.0.sign(message.as_bytes()).to_bytes())
    }
}

fn append_by(store: &mut Store, key: &Key, tenant: &str, payload: &str) {
    store
        .delivery_event(&key.issuer(), tenant, "", "fixture", payload, 1, |document: &str| {
            key.sign(document)
        })
        .unwrap();
}

fn append(store: &mut Store, tenant: &str, index: usize) {
    append_by(store, &Key::new(19), tenant, &format!("{{\"index\":{index}}}"));
}

fn export(
    store: &Store,
    tenant: &str,
    start: EventCheckpoint,
    terminal: Option<EventCheckpoint>,
    limit: usize,
) -> Result<EventExport, String> {
    store.delivery_event_export(&Key::new(19).issuer(), tenant, start, terminal, limit)
}

fn events(store: &Store, tenant: &str, after: u64, limit: usize) -> Result<Vec<DeliveryEvent>, String> {
    store.delivery_events(&Key::new(19).issuer(), tenant, after, limit)
}

#[test]
fn delivery_events_reject_tampering_before_returning_rows() {
    let mut store = Store::new();
    append(&mut store, "", 1);
    store.events[0].payload = "{}".to_owned();
    assert!(events(&store, "", 0, 100).is_err());
}

#[test]
fn event_exports_keep_checkpoints_across_pages_append_and_reopen() {
    let mut store = Store::new();
    for index in 0..205 {
        for tenant in ["tenant", "other"] {
            append(&mut store, tenant, index);
        }
    }
    let first = export(&store, "tenant", EventCheckpoint::default(), None, 100).unwrap();
    assert_eq!(events(&store, "tenant", 2, 1).unwrap()[0].id, 3);
    assert_eq!(events(&store, "tenant", 4, 1).unwrap()[0].id, 5);
    assert_eq!(first.events.len(), 100);
    assert!(!first.complete);
    assert!(first.events.windows(2).all(|pair| pair[1].id == pair[0].id + 2));
    assert!(export(&store, "other", first.end.clone(), Some(first.terminal.clone()), 100).is_err());
    append(&mut store, "tenant", 206);
    let store = store.clone();
    let second =
        export(&store, "tenant", first.end, Some(first.terminal.clone()), 100).unwrap();
    assert_eq!(second.events.len(), 100);
    assert!(!second.complete);
    let last = export(&store, "tenant", second.end, Some(first.terminal.clone()), 100).unwrap();
    assert_eq!(last.events.len(), 5);
    assert_eq!(last.end, first.terminal);
    assert!(last.complete);
    let empty =
        export(&store, "tenant", last.end.clone(), Some(last.terminal.clone()), 100).unwrap();
    assert!(empty.complete && empty.events.is_empty());
    let next = export(&store, "tenant", last.end, None, 100).unwrap();
    assert_eq!(next.events.len(), 1);
    assert!(next.complete);
}

#[test]
fn event_exports_reject_deleted_interior_and_retained_tail() {
    for removed in [2, 3, 0] {
        let mut store = Store::new();
        for index in 1..=3 {
            append(&mut store, "", index);
        }
        let first = export(&store, "", EventCheckpoint::default(), None, 1).unwrap();
        store.events.retain(|row| !(row.id == removed || removed == 0));
        let store = store.clone();
        assert!(export(&store, "", first.end, Some(first.terminal.clone()), 100).is_err());
        assert!(
            export(&store, "", EventCheckpoint::default(), Some(first.terminal), 100).is_err()
        );
        if removed != 2 {
            assert!(export(&store, "", EventCheckpoint::default(), None, 100).is_ok());
        } else {
            assert!(events(&store, "", 1, 100).is_err());
        }
    }
}

#[test]
fn event_checkpoints_reject_mismatch_and_invalid_ranges() {
    let mut store = Store::new();
    let empty = export(&store, "", EventCheckpoint::default(), None, 100).unwrap();
    assert!(empty.complete && empty.events.is_empty());
    append(&mut store, "", 1);
    append(&mut store, "other", 2);
    append(&mut store, "", 3);
    let all = export(&store, "", EventCheckpoint::default(), None, 100).unwrap();
    for point in [
        EventCheckpoint { id: 0, hash: "not-genesis".into() },
        EventCheckpoint { id: 1, hash: "0".repeat(64) },
        EventCheckpoint { id: 2, hash: all.events[0].hash.clone() },
        EventCheckpoint { id: u64::MAX, hash: all.terminal.hash.clone() },
    ] {
        assert!(export(&store, "", point.clone(), None, 100).is_err());
        assert!(export(&store, "", EventCheckpoint::default(), Some(point), 100).is_err());
    }
    assert!(
        export(&store, "", all.terminal, Some(EventCheckpoint::of(&all.events[0])), 100).is_err()
    );
    for limit in [0, 101] {
        assert!(export(&store, "", EventCheckpoint::default(), None, limit).is_err());
    }
    assert!(events(&store, "", u64::MAX, 1).is_err());
}

#[test]
fn ordinary_appends_do_not_authenticate_a_corrupt_predecessor() {
    for foreign_key in [true, false] {
        let mut store = Store::new();
        append(&mut store, "", 0);
        let trusted = export(&store, "", EventCheckpoint::default(), None, 100).unwrap().terminal;
        let key = Key::new(if foreign_key { 23 } else { 19 });
        append_by(&mut store, &key, "", "{\"original\":true}");
        if !foreign_key {
            store.events.last_mut().unwrap().payload = "{}".to_owned();
        }
        assert!(events(&store, "", trusted.id, 100).is_err());
        append(&mut store, "", 2);
        let last = votport_store::evidence::event_row(store.events.last().unwrap()).unwrap();
        assert!(last.verify_for(&Key::new(19).issuer(), ""));
        let terminal = EventCheckpoint::of(&last);
        for start in [EventCheckpoint::default(), trusted] {
            assert!(export(&store, "", start, Some(terminal.clone()), 100).is_err());
        }
    }
}

#[test]
fn event_append_rollback_leaves_previous_checkpoint_unchanged() {
    let mut store = Store::new();
    append(&mut store, "", 1);
    let before = export(&store, "", EventCheckpoint::default(), None, 100).unwrap();
    let mut rolled_back = store.clone();
    append_by(&mut rolled_back, &Key::new(19), "", "{}");
    let after =
        export(&store, "", EventCheckpoint::default(), Some(before.terminal), 100).unwrap();
    assert_eq!(after.events.len(), 1);
    append(&mut store, "", 2);
    assert_eq!(events(&store, "", 0, 100).unwrap().len(), 2);
}

#[test]
fn event_export_bounds_encoded_page_bytes() {
    let mut store = Store::new();
    let payload = format!("{{\"text\":\"{}\"}}", "x".repeat(MAX_EVENT_PAGE_BYTES / 2));
    for _ in 0..2 {
        append_by(&mut store, &Key::new(19), "", &payload);
    }
    let first = export(&store, "", EventCheckpoint::default(), None, 100).unwrap();
    assert_eq!(first.events.len(), 1);
    assert!(first.events[0].text().len() <= MAX_EVENT_PAGE_BYTES);
    let last = export(&store, "", first.end, Some(first.terminal), 100).unwrap();
    assert!(last.complete);
    assert_eq!(last.events.len(), 1);
    assert!(last.events[0].text().len() <= MAX_EVENT_PAGE_BYTES);
}

#[test]
fn documents_are_written_in_one_form() {
    let event = DeliveryEvent {
        id: 7,
        tenant: "t\"\\\u{1f}\u{7f}".to_owned(),
        grant_id: "g\n\t".to_owned(),
        kind: "\u{8}\u{c}\r".to_owned(),
        created_at: 9,
        payload: "{\"a\":[1]}".to_owned(),
        previous_hash: String::new(),
        hash: "h".to_owned(),
        issuer: "caf\u{e9}".to_owned(),
        signature: "s".to_owned(),
    };
    assert_eq!(
        event.document(),
        "{\"created_at\":9,\"grant_id\":\"g\\n\\t\",\"id\":7,\"issuer\":\"caf\u{e9}\",\
         \"kind\":\"\\b\\f\\r\",\"payload\":{\"a\":[1]},\"previous_hash\":\"\",\
         \"tenant\":\"t\\\"\\\\\\u001f\u{7f}\"}"
    );
    assert_eq!(
        event.text(),
        "{\"id\":7,\"tenant\":\"t\\\"\\\\\\u001f\u{7f}\",\"grant_id\":\"g\\n\\t\",\
         \"kind\":\"\\b\\f\\r\",\"created_at\":9,\"payload\":{\"a\":[1]},\"previous_hash\":\"\",\
         \"hash\":\"h\",\"issuer\":\"caf\u{e9}\",\"signature\":\"s\"}"
    );
    assert!(!event.verify());
}

#[test]
fn a_stored_hash_is_the_digest_of_the_signed_document() {
    let mut store = Store::new();
    let draft = store.draft_delivery_event("aa", "", "g", "k", "{}", 1).unwrap();
    store.append_delivery_event(&draft, "ff");
    let text = format!("{{\"document\":{},\"signature\":\"ff\"}}", draft.document());
    let digest = <sha2::Sha256 as sha2::Digest>::digest(text.as_bytes());
    assert_eq!(store.events[0].hash, hex::encode(digest));
    assert_eq!(store.events[0].id, 1);
    assert_eq!(store.event_sequence, 1);
    store.events.clear();
    assert_eq!(store.draft_delivery_event("aa", "", "g", "k", "{}", 1).unwrap().id, 2);
    store.event_sequence = i64::MAX;
    assert_eq!(
        store.draft_delivery_event("aa", "", "g", "k", "{}", 1).unwrap_err(),
        "database or disk is full"
    );
}

fn grant(id: &str) -> OutboundGrant {
    OutboundGrant {
        id: id.to_owned(),
        token_hash: format!("hash-{id}"),
        password_hash: None,
        tenant: "acme".to_owned(),
        link_id: "link".to_owned(),
        upload_id: "upload".to_owned(),
        package_root: "package".to_owned(),
        name: "file.bin".to_owned(),
        suite: "blake3".to_owned(),
        root: "root".to_owned(),
        file_index: 0,
        bytes: 1,
        label: "download".to_owned(),
        created_at: 10,
        expires_at: 20,
        revoked_at: None,
        downloads: 0,
        max_downloads: None,
        notifications: None,
        first_download_at: None,
        last_download_at: None,
        files: Vec::new(),
    }
}

fn report(id: &str, kind: EvidenceKind, manifest: &str) -> Evidence {
    Evidence {
        id: id.to_owned(),
        grant_id: "g".to_owned(),
        holder: "device".to_owned(),
        manifest: manifest.to_owned(),
        kind,
        document: "{ \"signed\": true }".to_owned(),
    }
}

#[test]
fn evidence_needs_its_manifest_and_its_order() {
    let mut store = Store::new();
    let key = Key::new(19);
    let issuer = key.issuer();
    let sign = |document: &str| key.sign(document);
    let verified = report("e1", EvidenceKind::Verified, "digest");
    let accepted = report("e2", EvidenceKind::Accepted, "digest");
    assert_eq!(
        store.record_delivery_evidence(&verified, 5, &issuer, sign).unwrap_err(),
        "delivery not found"
    );
    assert_eq!(store.delivery_manifest("g", "digest").unwrap_err(), "delivery not found");
    let checks = GrantChecks {
        names: Ok(()),
        digest: "digest".to_owned(),
        creation: Ok(()),
        finished: None,
    };
    store.insert_outbound_grant(grant("g"), &checks).unwrap();
    assert_eq!(store.delivery_manifest("g", "other").unwrap(), "digest");
    store.digests.clear();
    assert_eq!(
        store.record_delivery_evidence(&verified, 5, &issuer, sign).unwrap_err(),
        "delivery manifest missing"
    );
    assert_eq!(store.delivery_manifest("g", "digest").unwrap(), "digest");
    assert_eq!(
        store
            .record_delivery_evidence(
                &report("e0", EvidenceKind::Verified, "changed"),
                5,
                &issuer,
                sign
            )
            .unwrap_err(),
        "delivery manifest changed"
    );
    assert_eq!(
        store.record_delivery_evidence(&accepted, 5, &issuer, sign).unwrap_err(),
        "this device must report verification before acceptance"
    );
    assert!(store.events.is_empty() && store.evidence.is_empty());
    assert!(store.record_delivery_evidence(&verified, 5, &issuer, sign).unwrap());
    assert!(!store.record_delivery_evidence(&verified, 6, &issuer, sign).unwrap());
    assert!(store.record_delivery_evidence(&accepted, 7, &issuer, sign).unwrap());
    assert!(store
        .record_delivery_evidence(
            &report("e3", EvidenceKind::Verified, "digest"),
            8,
            &issuer,
            sign
        )
        .unwrap());
    assert!(store.delivery_evidence_recorded("e1").unwrap());
    assert!(!store.delivery_evidence_recorded("e9").unwrap());
    let chain = store.delivery_events(&issuer, "acme", 0, 10).unwrap();
    let kinds: Vec<&str> = chain.iter().map(|event| event.kind.as_str()).collect();
    assert_eq!(kinds, ["recipient_verified", "recipient_accepted"]);
    assert_eq!(
        chain[0].payload,
        "{\"evidence_id\":\"e1\",\"holder\":\"device\",\"manifest\":\"digest\"}"
    );
    assert_eq!(
        store.delivery_evidence("g", 1, 1).unwrap(),
        ["{\"cursor\":2,\"evidence\":{\"signed\":true},\"received_at\":7}"]
    );
    store.evidence[0].document = "broken".to_owned();
    assert!(store.delivery_evidence("g", 0, 10).is_err());
}

#[test]
fn evidence_is_limited_for_each_delivery() {
    let mut store = Store::new();
    let key = Key::new(19);
    let issuer = key.issuer();
    let checks = GrantChecks {
        names: Ok(()),
        digest: "digest".to_owned(),
        creation: Ok(()),
        finished: None,
    };
    store.insert_outbound_grant(grant("g"), &checks).unwrap();
    let first = report("first", EvidenceKind::Verified, "digest");
    assert!(store
        .record_delivery_evidence(&first, 5, &issuer, |document: &str| key.sign(document))
        .unwrap());
    let row = store.evidence[0].clone();
    for index in 1..2000 {
        let mut next = row.clone();
        next.rowid = index + 1;
        next.id = format!("e{index}");
        store.evidence.push(next);
    }
    let last = report("last", EvidenceKind::Verified, "digest");
    assert_eq!(
        store
            .record_delivery_evidence(&last, 5, &issuer, |document: &str| key.sign(document))
            .unwrap_err(),
        "delivery evidence limit reached"
    );
}

#[test]
fn exports_together_are_the_chain_that_stood_at_the_first() {
    for limit in [1, 2, 3, 100] {
        let mut store = Store::new();
        for index in 0..5 {
            append(&mut store, if index == 2 { "other" } else { "" }, index);
        }
        let first = export(&store, "", EventCheckpoint::start(), None, limit).unwrap();
        let mut ids: Vec<u64> = first.events.iter().map(|event| event.id).collect();
        let (terminal, mut end, mut complete) = (first.terminal, first.end, first.complete);
        while !complete {
            append(&mut store, "", 9);
            let next = export(&store, "", end, Some(terminal.clone()), limit).unwrap();
            assert!(next.events.len() <= limit);
            ids.extend(next.events.iter().map(|event| event.id));
            (end, complete) = (next.end, next.complete);
        }
        assert_eq!(ids, [1, 2, 4, 5]);
        assert_eq!(end, terminal);
    }
}
