//! What is made of values that were decoded elsewhere, and of what lies beside
//! a database.
use votport_store::artifact::finish_records;
use votport_store::audit::export_row;
use votport_store::conversion::{admit_copy, admit_leftovers, begin_under, check_fields};
use votport_store::evidence::{MAX_EVENT_PAGE_BYTES, read_event};
use votport_store::principals::read_principal;
use votport_store::records::{ArtifactRecord, Conversion, CurrentJob, DeliveryEvent};
use votport_store::rows::{AuditLogRow, EventRow, PrincipalRow};
use votport_store::schema::{OpenPlan, SCHEMA_VERSION, plan_file};

#[test]
fn state_json_is_preserved_and_refused_before_creating_a_database() {
    for promotion in [false, true] {
        for there in [false, true] {
            assert!(plan_file(true, promotion, there)
                .unwrap_err()
                .contains("state.json is unsupported"));
        }
    }
}

#[test]
fn only_a_first_start_creates_a_database() {
    assert_eq!(plan_file(false, false, false), Ok(OpenPlan::CreateFile));
    assert_eq!(plan_file(false, false, true), Ok(OpenPlan::UseFile));
    assert_eq!(plan_file(false, true, true), Ok(OpenPlan::UseFile));
    assert_eq!(
        plan_file(false, true, false).unwrap_err(),
        "standby has no database; pull a valid replica before promotion"
    );
}

#[test]
fn conversions_need_a_plain_copy_without_leftovers() {
    assert_eq!(admit_copy(true, None), Ok(()));
    assert_eq!(
        admit_copy(false, Some("state.json")).unwrap_err(),
        "--data-copy must name an absolute, canonical directory without symlinks"
    );
    assert_eq!(
        admit_copy(true, Some("state.json")).unwrap_err(),
        "resolve state.json before making a new conversion copy"
    );
    assert_eq!(admit_leftovers(false, false), Ok(()));
    assert!(admit_leftovers(true, true).unwrap_err().contains("prepared artifact"));
    assert!(admit_leftovers(false, true).unwrap_err().contains("retained admissions"));
}

#[test]
fn conversions_begin_at_an_origin() {
    let begun = begin_under(
        "id".to_owned(),
        Ok("https://drop.example.com".to_owned()),
        "issuer",
        7,
    )
    .unwrap();
    assert_eq!(begun.id, "id");
    assert_eq!((begun.source, begun.target), (35, SCHEMA_VERSION));
    assert_eq!(begun.public_url, "https://drop.example.com");
    assert_eq!(begun.issuer, "issuer");
    assert_eq!((begun.created_at, begun.bytes, begun.replacements), (7, 0, 0));
    assert_eq!(begun.sha256, "");
    assert_eq!(
        begin_under("id".to_owned(), Err("no origin".to_owned()), "issuer", 7).unwrap_err(),
        "no origin"
    );
}

#[test]
fn upload_records_hold_no_other_members() {
    let allowed = vec!["id".to_owned(), "bytes".to_owned()];
    assert_eq!(check_fields(&Some(vec!["bytes".to_owned(), "id".to_owned()]), &allowed), Ok(()));
    assert_eq!(check_fields(&Some(Vec::new()), &allowed), Ok(()));
    assert_eq!(
        check_fields(&Some(vec!["id".to_owned(), "more".to_owned()]), &allowed).unwrap_err(),
        "source upload contains fields outside the schema35 contract"
    );
    assert_eq!(
        check_fields(&None, &allowed).unwrap_err(),
        "source upload record must be an object"
    );
}

#[test]
fn audit_details_decode_or_are_refused() {
    let row = AuditLogRow {
        rowid: 3,
        at: -5,
        tenant: "acme".to_owned(),
        actor: "admin".to_owned(),
        event: "login".to_owned(),
        subject: "user".to_owned(),
        detail: "{ }".to_owned(),
    };
    let read = export_row(&row, Ok("{}".to_owned())).unwrap();
    assert_eq!((read.rowid, read.at), (3, 0));
    assert_eq!(read.tenant, "acme");
    assert_eq!(read.detail, "{}");
    assert_eq!(
        export_row(&row, Err("expected value".to_owned())).unwrap_err(),
        "Conversion error from type Text at index: 6, expected value"
    );
}

#[test]
fn principals_decode_or_are_refused() {
    let row = PrincipalRow {
        subject: "user".to_owned(),
        credential_version: 4,
        blocked: true,
        last_login_at: 9,
        last_groups: vec!["ops".to_owned()],
        last_grants: "[ ]".to_owned(),
        document_error: None,
        source: "oidc".to_owned(),
        external_id: None,
        created_at: 1,
    };
    let read = read_principal(&row, Ok("[]".to_owned())).unwrap();
    assert_eq!((read.credential_version, read.last_login_at, read.created_at), (4, 9, 1));
    assert!(read.blocked);
    assert_eq!(read.last_groups, ["ops"]);
    assert_eq!(read.last_grants, "[]");
    assert_eq!(
        read_principal(&row, Err("trailing".to_owned())).unwrap_err(),
        "Conversion error from type Text at index: 5, trailing"
    );
    let broken = PrincipalRow { document_error: Some("groups".to_owned()), ..row };
    assert_eq!(
        read_principal(&broken, Err("trailing".to_owned())).unwrap_err(),
        "Conversion error from type Text at index: 4, groups"
    );
}

#[test]
fn events_decode_within_their_bounds() {
    let row = EventRow {
        id: 2,
        tenant: "acme".to_owned(),
        grant_id: "g".to_owned(),
        kind: "acknowledged".to_owned(),
        created_at: 5,
        payload: "{ }".to_owned(),
        previous_hash: "p".to_owned(),
        hash: "h".to_owned(),
        issuer: "i".to_owned(),
        signature: "s".to_owned(),
    };
    let read: DeliveryEvent = read_event(&row, Ok("{}".to_owned())).unwrap();
    assert_eq!((read.id, read.created_at), (2, 5));
    assert_eq!(read.payload, "{}");
    assert!(read.verify_with("h", true));
    assert!(!read.verify_with("h", false));
    assert!(!read.verify_with("g", true));
    assert!(read_event(&row, Err("eof".to_owned())).is_err());
    let long = EventRow { kind: "x".repeat(MAX_EVENT_PAGE_BYTES), ..row.clone() };
    assert!(read_event(&long, Ok("{}".to_owned())).is_ok());
    let longer = EventRow { kind: "x".repeat(MAX_EVENT_PAGE_BYTES + 1), ..row };
    assert!(read_event(&longer, Ok("{}".to_owned())).is_err());
}

#[test]
fn artifacts_finish_over_their_records() {
    let result = Conversion {
        id: "id".to_owned(),
        source: 35,
        target: SCHEMA_VERSION,
        public_url: "https://drop.example.com".to_owned(),
        issuer: "issuer".to_owned(),
        created_at: 7,
        bytes: 12,
        sha256: "hash".to_owned(),
        replacements: 0,
    };
    let none: Vec<Result<ArtifactRecord, String>> = Vec::new();
    let jobs: Vec<CurrentJob> = Vec::new();
    assert_eq!(
        finish_records(Ok("hash".to_owned()), &none, &result, &jobs).unwrap(),
        "{\"bytes\":12,\"id\":\"id\",\"sha256\":\"hash\",\"state\":\"committed\"}\n"
    );
    assert_eq!(
        finish_records(Err("truncated".to_owned()), &none, &result, &jobs).unwrap_err(),
        "truncated"
    );
    assert_eq!(
        finish_records(Ok("other".to_owned()), &none, &result, &jobs).unwrap_err(),
        "conversion artifact does not match the committed database"
    );
    let unread = vec![Err("line 1".to_owned())];
    assert_eq!(
        finish_records(Ok("hash".to_owned()), &unread, &result, &jobs).unwrap_err(),
        "line 1"
    );
    let more = Conversion { replacements: 1, ..result };
    assert_eq!(
        finish_records(Ok("hash".to_owned()), &none, &more, &jobs).unwrap_err(),
        "conversion artifact replacement count is wrong"
    );
}
