//! Provisioned groups and principals.
use votport_store::scim::SCIM_GROUP_NAME_TAKEN;
use votport_store::store::Store;

fn list(items: &[&str]) -> Vec<String> {
    items.iter().map(|item| (*item).to_owned()).collect()
}

#[test]
fn scim_groups_round_trip_and_map_to_subjects() {
    let mut store = Store::new();
    let admins = store
        .create_scim_group(
            "id-1",
            "votport-admins",
            Some("g1"),
            &list(&["a@example.com", "b@example.com"]),
        )
        .unwrap()
        .unwrap();
    assert_eq!(admins.members, ["a@example.com", "b@example.com"]);
    assert_eq!(admins.external_id.as_deref(), Some("g1"));
    assert!(admins.created_at > 0);
    assert!(
        store.create_scim_group("id-x", "votport-admins", None, &[]).unwrap().is_none(),
        "names are unique"
    );
    let viewers = store
        .create_scim_group("id-2", "viewers", None, &list(&["a@example.com"]))
        .unwrap()
        .unwrap();
    assert_eq!(store.scim_groups_of("a@example.com").unwrap(), ["viewers", "votport-admins"]);
    assert_eq!(store.scim_groups_of("b@example.com").unwrap(), ["votport-admins"]);
    assert!(store.scim_groups_of("nobody").unwrap().is_empty());

    let (page, total) = store.scim_groups_page(10, 0).unwrap();
    assert_eq!(total, 2);
    assert_eq!(page[0].display_name, "viewers");
    assert_eq!(page[1].members.len(), 2);
    assert_eq!(store.scim_group_by_name("viewers").unwrap().unwrap().id, viewers.id);
    assert_eq!(store.scim_group_by_external_id("g1").unwrap().unwrap().id, admins.id);
    assert!(store.scim_group_by_external_id("g9").unwrap().is_none());

    assert!(store
        .change_scim_group_members(
            &admins.id,
            &list(&["c@example.com", "a@example.com"]),
            &list(&["b@example.com"]),
        )
        .unwrap());
    assert_eq!(
        store.scim_group(&admins.id).unwrap().unwrap().members,
        ["a@example.com", "c@example.com"]
    );
    assert!(!store.change_scim_group_members("missing", &[], &[]).unwrap());

    assert_eq!(
        store.replace_scim_group(&admins.id, Some("viewers"), None).unwrap_err(),
        SCIM_GROUP_NAME_TAKEN
    );
    assert!(store
        .replace_scim_group(&admins.id, Some("admins"), Some(&list(&["z@example.com"])))
        .unwrap());
    let renamed = store.scim_group(&admins.id).unwrap().unwrap();
    assert_eq!(renamed.display_name, "admins");
    assert_eq!(renamed.members, ["z@example.com"]);
    assert!(!store.replace_scim_group("missing", None, None).unwrap());

    assert!(store.delete_scim_group(&admins.id).unwrap());
    assert!(!store.delete_scim_group(&admins.id).unwrap());
    assert!(store.scim_groups_of("z@example.com").unwrap().is_empty());
    assert_eq!(store.scim_groups_page(10, 0).unwrap().1, 1);
}

#[test]
fn upsert_revoke_unblock_preserve_version() {
    let mut store = Store::new();
    let grants = r#"[{"role":"admin","tenant":""}]"#;
    let row = store
        .upsert_sso_principal("user@example.com", &list(&["employees"]), grants)
        .unwrap();
    assert_eq!(row.credential_version, 1);
    assert!(!row.blocked);
    assert_eq!(row.last_groups, list(&["employees"]));
    assert_eq!(row.source, "sso");
    assert!(store.principal_allows("user@example.com", 1));
    assert!(!store.principal_allows("user@example.com", 2));
    assert!(store.principal_allows("missing", 1));
    assert!(!store.principal_allows("missing", 2));
    store.principals[0].last_login_at = 123;

    assert!(store.revoke_principal("user@example.com").unwrap());
    let revoked = store.principal("user@example.com").unwrap().unwrap();
    assert_eq!(revoked.credential_version, 2);
    assert!(revoked.blocked);
    assert_eq!(revoked.last_login_at, 123);
    assert_eq!(revoked.last_groups, list(&["employees"]));
    assert_eq!(revoked.last_grants, grants);
    assert!(!store.principal_allows("user@example.com", 1));
    assert!(!store.principal_allows("user@example.com", 2));

    let blocked_upsert = store
        .upsert_sso_principal(
            "user@example.com",
            &list(&["after"]),
            r#"[{"role":"viewer","tenant":"after"}]"#,
        )
        .unwrap();
    assert_eq!(blocked_upsert.credential_version, 2);
    assert!(blocked_upsert.blocked);
    assert_eq!(blocked_upsert.last_login_at, 123);
    assert_eq!(blocked_upsert.last_groups, list(&["employees"]));
    assert_eq!(blocked_upsert.last_grants, grants);

    assert!(store.unblock_principal("user@example.com").unwrap());
    let unblocked = store.principal("user@example.com").unwrap().unwrap();
    assert_eq!(unblocked.credential_version, 2);
    assert!(!unblocked.blocked);
    assert!(store.principal_allows("user@example.com", 2));
    assert!(!store.principal_allows("user@example.com", 1));
    assert!(!store.revoke_principal("missing").unwrap());
    assert!(!store.unblock_principal("missing").unwrap());

    let editor = r#"[{"role":"editor","tenant":"after-unblock"}]"#;
    let refreshed = store
        .upsert_sso_principal("user@example.com", &list(&["after-unblock"]), editor)
        .unwrap();
    assert_eq!(refreshed.credential_version, unblocked.credential_version);
    assert!(!refreshed.blocked);
    assert!(refreshed.last_login_at > 123);
    assert_eq!(refreshed.last_groups, list(&["after-unblock"]));
    assert_eq!(refreshed.last_grants, editor);
    assert_eq!(refreshed.source, unblocked.source);
    assert_eq!(refreshed.external_id, unblocked.external_id);
    assert_eq!(refreshed.created_at, unblocked.created_at);

    store.principals[0].document_error = Some("expected value".to_owned());
    assert!(store.principal("user@example.com").is_err());
    assert!(!store.principal_allows("user@example.com", 2));
    store.principals[0].document_error = None;
    store.principals[0].last_grants = "broken".to_owned();
    assert_eq!(
        store.principal("user@example.com").unwrap_err(),
        "Conversion error from type Text at index: 5, expected value at line 1 column 1"
    );
    assert!(!store.principal_allows("user@example.com", 2));
}

#[test]
fn principals_are_not_searched_with_patterns_of_too_many_bytes() {
    let mut store = Store::new();
    let longer = "a".repeat(49_999);
    assert_eq!(store.principals_page(2, 0, Some(&longer)), Ok((Vec::new(), 0)));
    store.upsert_sso_principal("alice", &[], "[]").unwrap();
    assert_eq!(store.principals_page(2, 0, Some(&longer[1..])), Ok((Vec::new(), 0)));
    for limit in [0, 2] {
        assert_eq!(
            store.principals_page(limit, 0, Some(&longer)).unwrap_err(),
            "LIKE or GLOB pattern too complex"
        );
    }
}

#[test]
fn principals_page_searches_literally_and_orders_stably() {
    let mut store = Store::new();
    for subject in ["Alice%literal", "alice_literal", "aliceXliteral"] {
        store.upsert_sso_principal(subject, &[], "[]").unwrap();
    }
    for row in &mut store.principals {
        row.last_login_at = 0;
    }
    let (page, total) = store.principals_page(2, 0, Some("%literal")).unwrap();
    assert_eq!(total, 1);
    assert_eq!(page.len(), 1);
    assert_eq!(page[0].subject, "Alice%literal");
    let (page, total) = store.principals_page(2, 0, Some("_literal")).unwrap();
    assert_eq!(total, 1);
    assert_eq!(page[0].subject, "alice_literal");
    let (page, total) = store.principals_page(2, 0, Some("ALICEXLITERAL")).unwrap();
    assert_eq!(total, 1);
    assert_eq!(page[0].subject, "aliceXliteral");
    let (page, total) = store.principals_page(2, 0, None).unwrap();
    assert_eq!(total, 3);
    assert_eq!(
        page.iter().map(|item| item.subject.as_str()).collect::<Vec<_>>(),
        ["Alice%literal", "aliceXliteral"]
    );
    let (page, total) = store.principals_page(2, 2, None).unwrap();
    assert_eq!(total, 3);
    assert_eq!(page.len(), 1);
    assert_eq!(page[0].subject, "alice_literal");
}

#[test]
fn provisioned_principals_are_found_by_their_external_id() {
    let mut store = Store::new();
    assert!(store.provision_principal("u1", Some("ext-1")).unwrap());
    assert!(!store.provision_principal("u1", Some("ext-2")).unwrap());
    assert!(store.principal_by_external_id("none").unwrap().is_none());
    let (page, total) = store.scim_principals_page(10, 0).unwrap();
    assert_eq!(total, 1);
    assert_eq!(page[0].subject, "u1");
    store.principals[0].credential_version = i64::MAX;
    assert!(store.revoke_principal("u1").is_err());
    assert!(!store.principals[0].blocked);
}
