//! Notification policies and connections.
use votport_store::issue::GrantChecks;
use votport_store::kinds::NotificationMode;
use votport_store::notifications::NOTIFICATION_EVENTS;
use votport_store::records::{
    NotificationDestination, NotificationPolicy, NotificationRule, OutboundGrant,
};
use votport_store::rows::JobRow;
use votport_store::store::Store;

fn destination(id: &str) -> NotificationDestination {
    NotificationDestination {
        id: id.to_owned(),
        revision: 0,
        label: "Incoming".to_owned(),
        channel: "webhook".to_owned(),
        target: "Operations".to_owned(),
        enabled: true,
        url: "https://example.test/private".to_owned(),
        token: String::new(),
        user: String::new(),
        recipients: vec!["a@example.test".to_owned()],
        thread_id: String::new(),
    }
}

fn custom(rules: &[(&str, &[&str])]) -> NotificationPolicy {
    NotificationPolicy {
        mode: NotificationMode::Custom,
        rules: rules
            .iter()
            .map(|(id, events)| NotificationRule {
                destination_id: (*id).to_owned(),
                events: events.iter().map(|event| (*event).to_owned()).collect(),
            })
            .collect(),
    }
}

fn off() -> NotificationPolicy {
    NotificationPolicy { mode: NotificationMode::Off, rules: Vec::new() }
}

#[test]
fn policies_name_each_destination_and_event_once() {
    let events = &NOTIFICATION_EVENTS[..];
    assert_eq!(events.len(), 12);
    assert_eq!(off().validate(events), Ok(()));
    assert!(!off().enabled());
    let ruled = NotificationPolicy { mode: NotificationMode::Default, ..custom(&[("a", &["x"])]) };
    assert!(ruled.enabled());
    assert_eq!(
        ruled.validate(events).unwrap_err(),
        "Only custom notifications accept rules"
    );
    assert_eq!(
        custom(&[]).validate(events).unwrap_err(),
        "Choose 1 to 32 notification destinations"
    );
    let many: Vec<(String, [&str; 1])> =
        (0..33).map(|index| (format!("d{index}"), ["upload_complete"])).collect();
    let many: Vec<(&str, &[&str])> =
        many.iter().map(|(id, events)| (id.as_str(), &events[..])).collect();
    assert_eq!(
        custom(&many).validate(events).unwrap_err(),
        "Choose 1 to 32 notification destinations"
    );
    assert_eq!(custom(&many[..32]).validate(events), Ok(()));
    assert_eq!(
        custom(&[("a", &["upload_complete"]), ("a", &["upload_failed"])])
            .validate(events)
            .unwrap_err(),
        "Choose each destination once"
    );
    for wrong in [&[][..], &["unknown"][..], &["upload_failed", "upload_failed"][..]] {
        assert_eq!(
            custom(&[("a", wrong)]).validate(events).unwrap_err(),
            "Choose supported events for each destination"
        );
    }
    assert_eq!(custom(&[("a", events), ("b", &["route_failed"])]).validate(events), Ok(()));
}

#[test]
fn secrets_are_told_only_by_whether_they_are_set() {
    assert_eq!(
        destination("named").public(),
        "{\"channel\":\"webhook\",\"enabled\":true,\"id\":\"named\",\"label\":\"Incoming\",\
         \"recipients\":[\"a@example.test\"],\"revision\":0,\"target\":\"Operations\",\
         \"thread_id\":\"\",\"token_set\":false,\"url_set\":true,\"user_set\":false}"
    );
}

#[test]
fn connections_are_saved_over_the_revision_that_was_read() {
    let mut store = Store::new();
    let mut named = destination("named");
    assert_eq!(
        store
            .save_notification_destination("", &mut named, Err("tenant is gone".to_owned()))
            .unwrap_err(),
        "tenant is gone"
    );
    store.save_notification_destination("", &mut named, Ok(())).unwrap();
    assert_eq!(named.revision, 1);
    assert_eq!(store.notification_destination("", "named").unwrap(), Some(named.clone()));
    assert_eq!(store.notification_destination("other", "named").unwrap(), None);
    let mut stale = destination("named");
    assert_eq!(
        store.save_notification_destination("", &mut stale, Ok(())).unwrap_err(),
        "Connection changed; reload before saving"
    );
    assert_eq!(stale.revision, 0);
    store.record_notification_outcome_at("", &named, true, 7).unwrap();
    assert_eq!(
        store.notification_outcomes("").unwrap(),
        "{\"named\":{\"at\":7,\"delivered\":true}}"
    );
    named.label = "Changed".to_owned();
    let before = named.clone();
    store.save_notification_destination("", &mut named, Ok(())).unwrap();
    assert_eq!(store.notification_outcomes("").unwrap(), "{}");
    store.record_notification_outcome("", &before, true).unwrap();
    assert_eq!(store.notification_outcomes("").unwrap(), "{}");
    let mut foreign = destination("named");
    store.save_notification_destination("other", &mut foreign, Ok(())).unwrap();
    assert_eq!(store.notification_destination("other", "named").unwrap(), None);
    store.destinations[0].document_error = Some("broken".to_owned());
    assert_eq!(
        store.notification_destinations("").unwrap_err(),
        "Conversion error from type Text at index: 0, broken"
    );
    let outcomes = |store: &Store| store.notification_outcomes("").unwrap();
    assert_eq!(
        store.record_notification_outcome_at("", &named, true, 8).unwrap_err(),
        "malformed JSON"
    );
    store.destinations[0].readable = true;
    store.record_notification_outcome_at("", &named, true, 8).unwrap();
    assert_eq!(outcomes(&store), "{}");
    store.destinations[0].revision = Some(named.revision as i64);
    store.record_notification_outcome_at("", &named, true, 8).unwrap();
    assert_eq!(outcomes(&store), "{\"named\":{\"at\":8,\"delivered\":true}}");
}

#[test]
fn a_tenant_has_at_most_a_hundred_connections() {
    let mut store = Store::new();
    for index in (0..100).rev() {
        store
            .save_notification_destination("", &mut destination(&format!("d{index:03}")), Ok(()))
            .unwrap();
    }
    assert_eq!(
        store
            .save_notification_destination("", &mut destination("one-more"), Ok(()))
            .unwrap_err(),
        "A tenant can have at most 100 notification destinations"
    );
    let listed = store.notification_destinations("").unwrap();
    assert_eq!(listed.len(), 100);
    assert_eq!(listed[0].id, "d000");
    assert_eq!(listed[99].id, "d099");
}

#[test]
fn defaults_are_silence_until_they_are_set() {
    let mut store = Store::new();
    assert_eq!(store.notification_defaults("").unwrap(), off());
    let policy = custom(&[("named", &["upload_complete"])]);
    store.save_notification_defaults("", &policy, Ok(())).unwrap();
    assert_eq!(store.notification_defaults("").unwrap(), policy);
    store.save_notification_defaults("", &off(), Ok(())).unwrap();
    assert_eq!(store.notification_defaults("").unwrap(), off());
    assert!(store.save_notification_defaults("x", &off(), Err("gone".to_owned())).is_err());
    assert_eq!(store.notification_defaults.len(), 1);
}

fn grant(id: &str) -> OutboundGrant {
    OutboundGrant {
        id: id.to_owned(),
        token_hash: format!("hash-{id}"),
        password_hash: None,
        tenant: "acme".to_owned(),
        link_id: "link".to_owned(),
        upload_id: "upload".to_owned(),
        package_root: "package".to_owned(),
        name: "file.bin".to_owned(),
        suite: "blake3".to_owned(),
        root: "root".to_owned(),
        file_index: 0,
        bytes: 1,
        label: "download".to_owned(),
        created_at: 10,
        expires_at: 20,
        revoked_at: None,
        downloads: 0,
        max_downloads: None,
        notifications: None,
        first_download_at: None,
        last_download_at: None,
        files: Vec::new(),
    }
}

#[test]
fn a_jobs_override_comes_before_its_request_and_its_project() {
    let mut store = Store::new();
    let checks = GrantChecks {
        names: Ok(()),
        digest: "digest".to_owned(),
        creation: Ok(()),
        finished: None,
    };
    store.insert_outbound_grant(grant("job"), &checks).unwrap();
    let asked = custom(&[("request", &["workflow_failed"])]);
    let project = custom(&[("project", &["workflow_failed"])]);
    let set = custom(&[("override", &["workflow_failed"])]);
    assert!(!store.set_job_notifications("acme", "job", Some(&set)).unwrap());
    store.jobs.push(JobRow {
        id: "job".to_owned(),
        tenant: "acme".to_owned(),
        actor: "local".to_owned(),
        operation_id: "op".to_owned(),
        state: "running".to_owned(),
        token: None,
        retired_from: None,
        source_revoked: false,
        request_notifications: Some(asked.clone()),
        project_notifications: Some(project.clone()),
        document_error: None,
    });
    let of_grant = |store: &Store| store.outbound_grants("acme").unwrap()[0].notifications.clone();
    assert!(store.set_job_notifications("acme", "job", Some(&set)).unwrap());
    assert_eq!(store.notification_job_override("acme", "job").unwrap(), Some(set.clone()));
    assert_eq!(of_grant(&store), Some(set));
    assert!(store.set_job_notifications("acme", "job", None).unwrap());
    assert_eq!(store.notification_job_override("acme", "job").unwrap(), None);
    assert_eq!(of_grant(&store), Some(asked));
    store.jobs[0].request_notifications = None;
    assert!(store.set_job_notifications("acme", "job", None).unwrap());
    assert_eq!(of_grant(&store), Some(project));
    assert!(store.set_outbound_notifications("acme", "job", &off()).unwrap());
    assert!(!store.set_outbound_notifications("other", "job", &off()).unwrap());
    assert_eq!(of_grant(&store), Some(off()));
    assert!(store.delivery_operation_exists("acme", "local", "op").unwrap());
    assert!(!store.delivery_operation_exists("acme", "local", "other").unwrap());
    store.jobs[0].document_error = Some("broken".to_owned());
    assert!(store.set_job_notifications("acme", "job", None).is_err());
}
