//! Which databases are opened, and how schemas are compared.
use votport_store::clauses::check_schema;
use votport_store::quota_sql::{
    QUOTA_INDEXES, QUOTA_SCHEMA, quota_identity, quota_live_file_sql, quota_probe,
    quota_trigger_sql,
};
use votport_store::records::SchemaObject;
use votport_store::schema::{
    QuotaSchema, SCHEMA_VERSION, SchemaPlan, SchemaUpgrade, initialize_schema,
    validate_quota_schema, validate_schema,
};
use votport_store::sql::normalize_schema_sql;

fn trigger(name: &str) -> String {
    let script = quota_trigger_sql();
    let start = script.find(&format!("CREATE TRIGGER {name}")).unwrap();
    let end = script[start..].find("END;").unwrap() + start + 4;
    script[start..end].to_owned()
}

/// What SQLite keeps of the definitions: the statements without `IF NOT EXISTS`.
fn installed() -> QuotaSchema {
    let table = QUOTA_SCHEMA.replace("IF NOT EXISTS ", "");
    let indexes = QUOTA_INDEXES.replace("IF NOT EXISTS ", "");
    let split = indexes.find("CREATE INDEX upload_sessions_quota_live").unwrap();
    QuotaSchema {
        table: Some(table.trim().trim_end_matches(';').to_owned()),
        columns: ["tenant", "bytes_hi", "bytes_lo", "state"].map(str::to_owned).to_vec(),
        identity_index: Some(indexes[..split].trim().trim_end_matches(';').to_owned()),
        session_index: Some(indexes[split..].trim().trim_end_matches(';').to_owned()),
        insert_trigger: Some(trigger("tenant_quota_usage_insert")),
        delete_trigger: Some(trigger("tenant_quota_usage_delete")),
        update_trigger: Some(trigger("tenant_quota_usage_update")),
    }
}

fn version(text: &str) -> Result<Option<String>, String> {
    Ok(Some(text.to_owned()))
}

#[test]
fn current_schema_rejects_quota_literal_mutations() {
    for (left, right) in [
        ("SELECT 'a b'", "SELECT 'ab'"),
        ("SELECT ';'", "SELECT ''"),
        ("SELECT 'A'", "SELECT 'a'"),
        ("SELECT 'a'' b'", "SELECT 'a''b'"),
        ("SELECT a b", "SELECT ab"),
        ("SELECT 1; SELECT 2", "SELECT 1 SELECT 2"),
    ] {
        assert_ne!(normalize_schema_sql(left), normalize_schema_sql(right));
    }
    assert_eq!(normalize_schema_sql("  SELECT \n'A'' B' ;  "), "select 'A'' B'");
    assert_eq!(validate_quota_schema(&installed()), Ok(()));
    let mutate = |sql: &Option<String>| {
        let changed = sql.as_ref().unwrap().replace("stored_as = ''", "stored_as = ' '");
        assert_ne!(Some(&changed), sql.as_ref());
        Some(changed)
    };
    let mut damaged = installed();
    damaged.insert_trigger = mutate(&damaged.insert_trigger);
    assert_eq!(
        validate_quota_schema(&damaged).unwrap_err(),
        "tenant quota trigger tenant_quota_usage_insert definition is invalid; refusing to start"
    );
    let mut damaged = installed();
    damaged.identity_index = mutate(&damaged.identity_index);
    assert_eq!(
        validate_quota_schema(&damaged).unwrap_err(),
        "tenant quota identity index definition is invalid; refusing to start"
    );
}

#[test]
fn every_part_of_the_quota_schema_is_required() {
    let refusal = |change: &dyn Fn(&mut QuotaSchema)| {
        let mut schema = installed();
        change(&mut schema);
        validate_quota_schema(&schema).unwrap_err()
    };
    assert_eq!(
        refusal(&|schema| schema.table = None),
        "tenant quota aggregate table is missing; refusing to start"
    );
    assert_eq!(
        refusal(&|schema| {
            schema.columns.remove(2);
        }),
        "tenant quota aggregate column bytes_lo is missing; refusing to start"
    );
    assert_eq!(
        refusal(&|schema| schema.table = Some("CREATE TABLE tenant_quota_usage(x)".to_owned())),
        "tenant quota aggregate table definition is invalid; refusing to start"
    );
    assert_eq!(
        refusal(&|schema| schema.identity_index = None),
        "tenant quota identity index is missing; refusing to start"
    );
    assert_eq!(
        refusal(&|schema| schema.session_index = None),
        "tenant retained-session index is missing; refusing to start"
    );
    assert_eq!(
        refusal(&|schema| schema.session_index = Some("CREATE INDEX x".to_owned())),
        "tenant retained-session index definition is invalid; refusing to start"
    );
    for (name, drop) in [
        ("insert", (|schema: &mut QuotaSchema| schema.insert_trigger = None) as fn(&mut QuotaSchema)),
        ("delete", |schema: &mut QuotaSchema| schema.delete_trigger = None),
        ("update", |schema: &mut QuotaSchema| schema.update_trigger = None),
    ] {
        assert_eq!(
            refusal(&|schema| drop(schema)),
            format!("tenant quota trigger tenant_quota_usage_{name} is missing; refusing to start")
        );
    }
}

#[test]
fn unsupported_schema_is_refused_without_rewriting_data() {
    let future = (SCHEMA_VERSION + 1).to_string();
    for text in ["3", "31", "34", "40", future.as_str(), "99"] {
        assert_eq!(initialize_schema(false, Ok(text.to_owned())).unwrap(), SchemaPlan::Check);
        let error =
            validate_schema(version(text), version("reserved-v1"), SCHEMA_VERSION, &installed())
                .unwrap_err();
        assert!(error.starts_with(&format!("database schema version {text} is unsupported")));
    }
    for text in ["invalid", "-1"] {
        assert_eq!(
            initialize_schema(false, Ok(text.to_owned())).unwrap_err(),
            "database schema version is invalid; refusing to start"
        );
        assert_eq!(
            validate_schema(version(text), version("reserved-v1"), SCHEMA_VERSION, &installed())
                .unwrap_err(),
            "database schema version is invalid; refusing to start"
        );
    }
    assert_eq!(
        initialize_schema(false, Err("Query returned no rows".to_owned())).unwrap_err(),
        "Query returned no rows"
    );
    assert_eq!(
        validate_schema(Ok(None), version("reserved-v1"), SCHEMA_VERSION, &installed())
            .unwrap_err(),
        "database schema version is missing; refusing to start"
    );
    assert_eq!(
        validate_schema(Err("no such table".to_owned()), Ok(None), SCHEMA_VERSION, &installed())
            .unwrap_err(),
        "unsupported database schema: no such table"
    );
}

#[test]
fn unsupported_storage_layout_is_refused_without_relayout() {
    for layout in [None, Some("old"), Some("")] {
        let error = validate_schema(
            version("44"),
            Ok(layout.map(str::to_owned)),
            SCHEMA_VERSION,
            &installed(),
        )
        .unwrap_err();
        assert!(error.contains("unsupported tenant storage layout"));
    }
    assert_eq!(
        validate_schema(version("44"), version("reserved-v1"), SCHEMA_VERSION, &installed()),
        Ok(())
    );
}

#[test]
fn open_refuses_a_newer_schema_version() {
    let error =
        validate_schema(version("99"), version("reserved-v1"), SCHEMA_VERSION, &installed())
            .unwrap_err();
    assert!(error.contains("99"), "{error}");
    assert!(error.contains("unsupported"), "{error}");
}

#[test]
fn open_does_not_stamp_schema_version_down() {
    assert_eq!(initialize_schema(true, Ok(String::new())).unwrap(), SchemaPlan::Create);
    let current = SCHEMA_VERSION.to_string();
    assert_eq!(initialize_schema(false, Ok(current)).unwrap(), SchemaPlan::Check);
}

#[test]
fn schema43_refusal_preserves_invalid_quota_schema() {
    for damage in [
        (|schema: &mut QuotaSchema| schema.identity_index = None) as fn(&mut QuotaSchema),
        |schema: &mut QuotaSchema| schema.insert_trigger = None,
    ] {
        let mut schema = installed();
        damage(&mut schema);
        assert!(validate_schema(version("43"), version("reserved-v1"), 43, &schema).is_err());
    }
    let mut schema = installed();
    schema.table = None;
    assert_eq!(validate_schema(version("42"), version("reserved-v1"), 42, &schema), Ok(()));
}

#[test]
fn schema43_upgrade_backfills_and_maintains_audit_count() {
    for (stored, share_tokens, quotas) in [(41, true, true), (42, false, true), (43, false, false)]
    {
        assert_eq!(
            initialize_schema(false, Ok(stored.to_string())).unwrap(),
            SchemaPlan::Upgrade(SchemaUpgrade { stored, share_tokens, quotas })
        );
    }
}

fn object(kind: &str, name: &str, sql: &str, columns: &[&str]) -> SchemaObject {
    SchemaObject {
        kind: kind.to_owned(),
        name: name.to_owned(),
        sql: sql.to_owned(),
        table: "files".to_owned(),
        columns: columns.iter().map(|column| (*column).to_owned()).collect(),
    }
}

#[test]
fn quota_literal_validation_rejects_malformed_schema_and_rolls_back() {
    let reference = vec![
        object("index", "files_quota_identity", &installed().identity_index.unwrap(), &[]),
        object("trigger", "tenant_quota_usage_insert", &trigger("tenant_quota_usage_insert"), &[]),
    ];
    for index in 0..2 {
        let mut actual = reference.clone();
        actual[index].sql = actual[index].sql.replace("stored_as = ''", "stored_as = ' '");
        assert_ne!(actual, reference);
        assert!(check_schema(&actual, &reference).is_err());
        check_schema(&reference, &reference).unwrap();
    }
}

#[test]
fn conversion_refuses_a_different_declared_type_with_the_same_letters() {
    let reference = vec![object(
        "table",
        "settings",
        "CREATE TABLE settings (key TEXT PRIMARY KEY, value TEXT NOT NULL)",
        &["(\"key\", \"TEXT\")", "(\"value\", \"TEXT\")"],
    )];
    let reordered = vec![object(
        "table",
        "settings",
        "create table settings(value TEXT NOT NULL,key TEXT PRIMARY KEY)",
        &["(\"key\", \"TEXT\")", "(\"value\", \"TEXT\")"],
    )];
    check_schema(&reordered, &reference).unwrap();
    let actual = vec![object(
        "table",
        "settings",
        "CREATE TABLE settings(key TEXT PRIMARY KEY,value T EXT NOT NULL)",
        &["(\"key\", \"TEXT\")", "(\"value\", \"T EXT\")"],
    )];
    let error = check_schema(&actual, &reference).unwrap_err();
    assert!(error.contains("unsupported schema"));
    assert_eq!(error, "unsupported schema35/target definition for columns settings");
}

#[test]
fn conversion_refuses_a_user_table_resembling_a_sqlite_internal_table() {
    let reference = vec![object("table", "a", "CREATE TABLE a(x TEXT)", &["x"])];
    let mut actual = reference.clone();
    actual.push(object(
        "table",
        "sqliteX_private",
        "CREATE TABLE sqliteX_private(value TEXT)",
        &["value"],
    ));
    let error = check_schema(&actual, &reference).unwrap_err();
    assert!(error.contains("unsupported schema"));
    assert!(check_schema(&reference, &actual).is_err());
}

#[test]
fn indexes_differ_by_their_table_and_their_uniqueness() {
    let plain = object("index", "i", "CREATE INDEX i ON files(a, b)", &[]);
    let unique = object("index", "i", "CREATE\tUnique\nINDEX i ON files(a, b)", &[]);
    let respaced = object("index", "i", "create index i on FILES (A,b)", &[]);
    let mut moved = plain.clone();
    moved.table = "links".to_owned();
    assert!(check_schema(&vec![unique], &vec![plain.clone()]).is_err());
    assert!(check_schema(&vec![moved], &vec![plain.clone()]).is_err());
    check_schema(&vec![respaced], &vec![plain]).unwrap();
    let view = object("view", "v", "CREATE VIEW v AS SELECT 1", &[]);
    assert_eq!(
        check_schema(&vec![view], &Vec::new()).unwrap_err(),
        "unsupported schema object v"
    );
    let bare = object("table", "t", "CREATE TABLE t", &[]);
    assert_eq!(
        check_schema(&vec![bare], &Vec::new()).unwrap_err(),
        "invalid schema definition"
    );
    let trigger = object("trigger", "unexpected", "CREATE TRIGGER unexpected", &[]);
    assert_eq!(
        check_schema(&vec![trigger], &Vec::new()).unwrap_err(),
        "unsupported schema object unexpected"
    );
}

#[test]
fn quota_sql_names_its_aliases() {
    let identity = quota_identity("candidate");
    assert!(identity.starts_with("CASE WHEN candidate.stored_as = '' THEN 1 ELSE 0 END,"));
    assert!(!identity.contains('{'));
    let probe = quota_probe("NEW", "OLD", "candidate.bytes_hi");
    assert!(probe.starts_with("SELECT candidate.bytes_hi FROM files AS candidate"));
    assert!(probe.contains("candidate.tenant = NEW.tenant"));
    assert!(probe.contains("candidate.link_id = OLD.link_id"));
    assert!(!probe.contains('{'));
    let script = quota_trigger_sql();
    assert_eq!(script.matches("CREATE TRIGGER").count(), 3);
    assert!(script.contains("4294967296") && script.contains("4294967295"));
    assert!(!script.contains('{'));
    assert!(quota_live_file_sql(true).contains("tenant=?1"));
    assert!(!quota_live_file_sql(false).contains("tenant=?1"));
}

#[test]
fn text_outside_ascii_is_lowered_too() {
    assert_eq!(normalize_schema_sql("\u{c9}T\u{c9} \"\u{c9}\""), "\u{e9}t\u{e9} \"\u{c9}\"");
    assert_eq!(normalize_schema_sql("a ;; b ;"), "a;; b");
}

#[test]
fn normal_forms_are_their_own() {
    for sql in [
        "",
        " ; ;",
        "  SELECT\t\n'A'' B' ;  x ;",
        "CREATE  INDEX \"I ; \" ON T(a) ; ;",
        "open 'quote ; ",
        "\u{130}stanbul \u{212a} ; \u{3a3}",
        quota_trigger_sql().as_str(),
    ] {
        let once = normalize_schema_sql(sql);
        assert_eq!(normalize_schema_sql(&once), once);
    }
    assert_eq!(
        normalize_schema_sql("Select A\t\r\n FROM  T;"),
        normalize_schema_sql("sELECT a from\x0ct ;")
    );
    assert_ne!(normalize_schema_sql("select a b"), normalize_schema_sql("select ab"));
    assert_ne!(normalize_schema_sql("\u{e9} \u{c9}"), normalize_schema_sql("\u{e9}\u{c9}"));
}

#[test]
fn schemas_compare_the_same_both_ways() {
    let table = |sql: &str, columns: &[&str]| object("table", "t", sql, columns);
    let index = |sql: &str| object("index", "i", sql, &[]);
    let a = vec![table("CREATE TABLE t(a TEXT, b INTEGER)", &["a TEXT", "b INTEGER"])];
    let reordered = vec![table("CREATE TABLE t(b INTEGER, a TEXT)", &["a TEXT", "b INTEGER"])];
    let typed = vec![table("CREATE TABLE t(a T EXT, b INTEGER)", &["a T EXT", "b INTEGER"])];
    let mut extra = a.clone();
    extra.push(index("CREATE INDEX i ON t(a) WHERE b = 'x'"));
    let mut literal = a.clone();
    literal.push(index("CREATE INDEX i ON t(a) WHERE b = 'y'"));
    let all = [&a, &reordered, &typed, &extra, &literal];
    for (i, left) in all.iter().enumerate() {
        for (j, right) in all.iter().enumerate() {
            let same = i == j || i + j == 1;
            assert_eq!(check_schema(left, right).is_ok(), same, "{i} {j}");
        }
    }
    assert_eq!(
        check_schema(&a, &typed).unwrap_err(),
        "unsupported schema35/target definition for columns t"
    );
}
