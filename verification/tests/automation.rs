//! Automation tokens and what they delivered.
use votport_store::issue::GrantChecks;
use votport_store::kinds::TenantRemoval;
use votport_store::records::{
    AutomationOperation, AutomationToken, OutboundGrant, OutboundGrantFile, Tenant,
};
use votport_store::store::Store;

fn test_automation_token(id: &str, tenant: &str) -> AutomationToken {
    AutomationToken {
        id: id.to_owned(),
        token_hash: format!("hash-{id}"),
        tenant: tenant.to_owned(),
        label: format!("Token {id}"),
        directory: None,
        permissions: vec!["deliveries:create".to_owned()],
        created_at: 10,
        expires_at: 20,
        revoked_at: None,
        last_used_at: None,
    }
}

fn test_outbound_grant(id: &str, tenant: &str) -> OutboundGrant {
    OutboundGrant {
        id: id.to_owned(),
        token_hash: format!("hash-{id}"),
        password_hash: None,
        tenant: tenant.to_owned(),
        link_id: "link".to_owned(),
        upload_id: "upload".to_owned(),
        package_root: "package".to_owned(),
        name: "file.bin".to_owned(),
        suite: "blake3".to_owned(),
        root: format!("root-{id}"),
        file_index: 0,
        bytes: u64::MAX,
        label: "download".to_owned(),
        created_at: 10,
        expires_at: 20,
        revoked_at: None,
        downloads: 0,
        max_downloads: None,
        notifications: None,
        first_download_at: None,
        last_download_at: None,
        files: vec![OutboundGrantFile {
            source: "objects/file".to_owned(),
            name: "file".to_owned(),
            suite: "blake3".to_owned(),
            root: "root".to_owned(),
            bytes: 1,
            receipt_b64: String::new(),
            downloads: 0,
            first_download_at: None,
            last_download_at: None,
        }],
    }
}

fn checks() -> GrantChecks {
    GrantChecks { names: Ok(()), digest: "digest".to_owned(), creation: Ok(()), finished: None }
}

#[test]
fn automation_tokens_preserve_permissions_across_reopen() {
    let mut store = Store::new();
    store.insert_automation_token(test_automation_token("agent", "tenant")).unwrap();
    let mut reopened = store.clone();
    let token = reopened.authenticate_automation_token("hash-agent", 15).unwrap().unwrap();
    assert_eq!(token.tenant, "tenant");
    assert_eq!(token.permissions, ["deliveries:create"]);
    assert!(reopened.automation_operation("agent", "missing").unwrap().is_none());
}

#[test]
fn automation_tokens_round_trip_and_list_by_tenant() {
    let mut store = Store::new();
    let token = test_automation_token("t1", "acme");
    store.insert_automation_token(token.clone()).unwrap();
    store.insert_automation_token(test_automation_token("t2", "other")).unwrap();
    assert_eq!(store.automation_tokens("acme").unwrap(), vec![token]);
    assert!(store.automation_tokens("missing").unwrap().is_empty());
}

#[test]
fn remove_tenant_cleans_outbound_credentials_atomically() {
    let mut store = Store::new();
    let tenant = Tenant {
        key: "acme".to_owned(),
        incarnation: String::new(),
        label: String::new(),
        admin_group: None,
        max_total_bytes: None,
        max_links: None,
        max_sessions: None,
        created_at: 0,
    };
    store.insert_tenant(tenant, "i".to_owned()).unwrap();
    store.insert_outbound_grant(test_outbound_grant("grant", "acme"), &checks()).unwrap();
    store.insert_automation_token(test_automation_token("token", "acme")).unwrap();
    assert_eq!(store.remove_tenant("acme", Ok(())).unwrap(), TenantRemoval::Deleted);
    assert!(store.outbound_grants("acme").unwrap().is_empty());
    assert!(store.outbound_grant_by_token_hash("hash-grant").unwrap().is_none());
    assert_eq!(store.grant_files.len(), 0);
    assert!(store.automation_tokens("acme").unwrap().is_empty());
    assert!(store.authenticate_automation_token("hash-token", 15).unwrap().is_none());
}

#[test]
fn automation_token_authentication_updates_last_used_atomically() {
    let mut store = Store::new();
    store.insert_automation_token(test_automation_token("t1", "acme")).unwrap();
    let authenticated = store.authenticate_automation_token("hash-t1", 15).unwrap().unwrap();
    assert_eq!(authenticated.last_used_at, Some(15));
    assert_eq!(store.automation_tokens("acme").unwrap()[0], authenticated);
    assert!(store.authenticate_automation_token("hash-t1", 20).unwrap().is_none());
}

#[test]
fn automation_token_revocation_is_tenant_scoped_and_idempotent() {
    let mut store = Store::new();
    store.insert_automation_token(test_automation_token("t1", "acme")).unwrap();
    assert!(!store.revoke_automation_token("other", "t1", 12).unwrap());
    assert!(store.authenticate_automation_token("hash-t1", 15).unwrap().is_some());
    assert!(store.revoke_automation_token("acme", "t1", 16).unwrap());
    assert!(!store.revoke_automation_token("acme", "t1", 17).unwrap());
    assert_eq!(store.automation_tokens("acme").unwrap()[0].revoked_at, Some(16));
    assert!(store.authenticate_automation_token("hash-t1", 18).unwrap().is_none());
}

#[test]
fn operations_are_recorded_with_the_grant_that_they_asked_for() {
    let mut store = Store::new();
    store.insert_automation_token(test_automation_token("agent", "acme")).unwrap();
    let operation = AutomationOperation {
        token_id: "agent".to_owned(),
        operation_id: "op".to_owned(),
        request_hash: "request".to_owned(),
        grant_id: "g1".to_owned(),
    };
    let refused = store
        .insert_workflow_grant_at(
            test_outbound_grant("g1", "acme"),
            Some(&operation),
            None,
            &checks(),
            20,
        )
        .unwrap_err();
    assert_eq!(refused, "automation token expired or revoked");
    assert!(store.grants.is_empty());
    store
        .insert_workflow_grant_at(
            test_outbound_grant("g1", "acme"),
            Some(&operation),
            None,
            &checks(),
            19,
        )
        .unwrap();
    assert_eq!(store.automation_operation("agent", "op").unwrap(), Some(operation));
    assert!(store.automation_delivery("agent", "g1").unwrap().is_some());
    assert!(store.automation_delivery("other", "g1").unwrap().is_none());
    assert_eq!(store.automation_deliveries("agent", 0, 10).unwrap().len(), 1);
    assert_eq!(store.automation_deliveries("agent", 1, 10).unwrap().len(), 0);
    assert_eq!(
        store.insert_automation_token(test_automation_token("agent", "x")).unwrap_err(),
        "UNIQUE constraint failed: automation_tokens.id"
    );
}

#[test]
fn operations_of_live_tokens_are_recorded_now() {
    let mut store = Store::new();
    let mut token = test_automation_token("agent", "acme");
    token.expires_at = i64::MAX as u64;
    store.insert_automation_token(token).unwrap();
    store.insert_automation_token(test_automation_token("spent", "acme")).unwrap();
    let mut operation = AutomationOperation {
        token_id: "spent".to_owned(),
        operation_id: "op".to_owned(),
        request_hash: "request".to_owned(),
        grant_id: "g1".to_owned(),
    };
    assert_eq!(
        store
            .insert_outbound_grant_with_operation(
                test_outbound_grant("g1", "acme"),
                Some(&operation),
                &checks(),
            )
            .unwrap_err(),
        "automation token expired or revoked"
    );
    operation.token_id = "agent".to_owned();
    store
        .insert_outbound_grant_with_operation(
            test_outbound_grant("g1", "acme"),
            Some(&operation),
            &checks(),
        )
        .unwrap();
    assert_eq!(store.automation_operation("agent", "op").unwrap(), Some(operation));
}
