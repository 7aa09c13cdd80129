//! Which databases the store opens: schema versions, upgrades, and the
//! definitions that the quota aggregates rest on.
use vstd::prelude::*;

use crate::decimal::{decimal, parse_number, parsed, u64_text};
use crate::quota_sql::{QUOTA_INDEXES, QUOTA_SCHEMA, quota_trigger_sql, trigger_sql};
use crate::sql::{lemma_position_found, normalize_schema_sql, normalized, pieces, split};
use crate::table::{first, outcome};
use crate::text::{chars, contains, find_in, list_has, occurs_at, same, same_option};

verus! {

/// The version of the schema.
pub const SCHEMA_VERSION: u64 = 44;

/// What a database says of the quota aggregates, as it holds it.
#[derive(Debug)]
pub struct QuotaSchema {
    /// The definition of the table.
    pub table: Option<String>,
    /// The names of the table's columns.
    pub columns: Vec<String>,
    /// The definition of the index over what files share.
    pub identity_index: Option<String>,
    /// The definition of the index over sessions that are not committed.
    pub session_index: Option<String>,
    /// The definition of the trigger on insertion.
    pub insert_trigger: Option<String>,
    /// The definition of the trigger on deletion.
    pub delete_trigger: Option<String>,
    /// The definition of the trigger on change.
    pub update_trigger: Option<String>,
}

/// What is to be done about the file of a database before it is opened.
#[derive(Clone, Copy, Debug, PartialEq, Eq, Structural)]
pub enum OpenPlan {
    /// It is there.
    UseFile,
    /// It is to be created, empty.
    CreateFile,
}

/// What is to be done with a database before it is used.
#[derive(Clone, Copy, Debug, PartialEq, Eq, Structural)]
pub enum SchemaPlan {
    /// It is empty: everything is to be created.
    Create,
    /// It is to be brought up from an earlier version.
    Upgrade(SchemaUpgrade),
    /// It is to be checked.
    Check,
}

/// How an earlier version is brought up.
#[derive(Clone, Copy, Debug, PartialEq, Eq, Structural)]
pub struct SchemaUpgrade {
    /// The version that is there, and is checked first.
    pub stored: u64,
    /// Whether the column for share tokens is to be added.
    pub share_tokens: bool,
    /// Whether the quota aggregates are to be installed.
    pub quotas: bool,
}

// ------------------------------------------------------------ specifications
/// The part of a script at an index, behind a text.
pub open spec fn part_of(prefix: Seq<char>, parts: Seq<Seq<char>>, i: int) -> Option<Seq<char>> {
    if i < parts.len() {
        Some(prefix + parts[i])
    } else {
        None
    }
}

/// The definition of the aggregates' table.
pub open spec fn table_definition() -> Option<Seq<char>> {
    part_of(
        "CREATE TABLE tenant_quota_usage"@,
        pieces(QUOTA_SCHEMA@, "CREATE TABLE IF NOT EXISTS tenant_quota_usage"@),
        1,
    )
}

/// The definition of the index over what files share.
pub open spec fn identity_definition() -> Option<Seq<char>> {
    match part_of(
        Seq::empty(),
        pieces(QUOTA_INDEXES@, "CREATE INDEX IF NOT EXISTS files_quota_identity"@),
        1,
    ) {
        None => None,
        Some(rest) => part_of(
            "CREATE INDEX files_quota_identity"@,
            pieces(rest, "CREATE INDEX IF NOT EXISTS upload_sessions_quota_live"@),
            0,
        ),
    }
}

/// The definition of the index over sessions that are not committed.
pub open spec fn session_definition() -> Option<Seq<char>> {
    part_of(
        "CREATE INDEX upload_sessions_quota_live"@,
        pieces(QUOTA_INDEXES@, "CREATE INDEX IF NOT EXISTS upload_sessions_quota_live"@),
        1,
    )
}

/// A part that names a trigger.
pub open spec fn names_it(name: Seq<char>) -> spec_fn(Seq<char>) -> bool {
    |part: Seq<char>| contains(part, name)
}

/// The definition of a trigger.
pub open spec fn trigger_definition(name: Seq<char>) -> Seq<char> {
    "CREATE TRIGGER"@ + match first(pieces(trigger_sql(), "CREATE TRIGGER"@), names_it(name)) {
        Some(part) => part,
        None => Seq::empty(),
    }
}

/// What is said of a column that is not there.
pub open spec fn column_missing(column: Seq<char>) -> Seq<char> {
    "tenant quota aggregate column "@ + column + " is missing; refusing to start"@
}

/// Whether a definition is the expected one, or what is said of it.
pub open spec fn defined(
    actual: Option<Seq<char>>,
    expected: Option<Seq<char>>,
    missing: Seq<char>,
    invalid: Seq<char>,
) -> Result<(), Seq<char>> {
    match actual {
        None => Err(missing),
        Some(sql) => match expected {
            Some(wanted) => if normalized(sql) == normalized(wanted) {
                Ok(())
            } else {
                Err(invalid)
            },
            None => Err(invalid),
        },
    }
}

/// Whether a trigger is the expected one, or what is said of it.
pub open spec fn trigger_defined(actual: Option<Seq<char>>, name: Seq<char>) -> Result<
    (),
    Seq<char>,
> {
    defined(
        actual,
        Some(trigger_definition(name)),
        "tenant quota trigger "@ + name + " is missing; refusing to start"@,
        "tenant quota trigger "@ + name + " definition is invalid; refusing to start"@,
    )
}

/// The first column of a list that is not among others.
pub open spec fn first_missing(wanted: Seq<Seq<char>>, columns: Seq<Seq<char>>) -> Option<Seq<char>> {
    first(wanted, |c: Seq<char>| !columns.contains(c))
}

/// Whether the table, its columns and its indexes are as they should be.
pub open spec fn tables_checked(q: QuotaSchema) -> Result<(), Seq<char>> {
    let missing = first_missing(
        seq!["tenant"@, "bytes_hi"@, "bytes_lo"@, "state"@],
        q.columns.deep_view(),
    );
    if q.table is None {
        Err("tenant quota aggregate table is missing; refusing to start"@)
    } else if missing is Some {
        Err(column_missing(missing->0))
    } else {
        match defined(
            q.table.deep_view(),
            table_definition(),
            Seq::empty(),
            "tenant quota aggregate table definition is invalid; refusing to start"@,
        ) {
            Err(e) => Err(e),
            Ok(_) => match defined(
                q.identity_index.deep_view(),
                identity_definition(),
                "tenant quota identity index is missing; refusing to start"@,
                "tenant quota identity index definition is invalid; refusing to start"@,
            ) {
                Err(e) => Err(e),
                Ok(_) => defined(
                    q.session_index.deep_view(),
                    session_definition(),
                    "tenant retained-session index is missing; refusing to start"@,
                    "tenant retained-session index definition is invalid; refusing to start"@,
                ),
            },
        }
    }
}

/// Whether the aggregates are kept as they should be, or what is wrong.
pub open spec fn quotas_checked(q: QuotaSchema) -> Result<(), Seq<char>> {
    match tables_checked(q) {
        Err(e) => Err(e),
        Ok(_) => match trigger_defined(
            q.insert_trigger.deep_view(),
            "tenant_quota_usage_insert"@,
        ) {
            Err(e) => Err(e),
            Ok(_) => match trigger_defined(
                q.delete_trigger.deep_view(),
                "tenant_quota_usage_delete"@,
            ) {
                Err(e) => Err(e),
                Ok(_) => trigger_defined(
                    q.update_trigger.deep_view(),
                    "tenant_quota_usage_update"@,
                ),
            },
        },
    }
}

/// What is to be done about a database's file: `legacy` says whether the state of
/// an older release is there, `promotion` whether a standby is being promoted.
pub open spec fn file_planned(legacy: bool, promotion: bool, there: bool) -> Result<
    OpenPlan,
    Seq<char>,
> {
    if legacy {
        Err(
            "state.json is unsupported; preserve it and use a matching release to export the data"@,
        )
    } else if there {
        Ok(OpenPlan::UseFile)
    } else if promotion {
        Err("standby has no database; pull a valid replica before promotion"@)
    } else {
        Ok(OpenPlan::CreateFile)
    }
}

/// What is to be done with a database of this version.
pub open spec fn planned(empty: bool, version: Result<Seq<char>, Seq<char>>) -> Result<
    SchemaPlan,
    Seq<char>,
> {
    if empty {
        Ok(SchemaPlan::Create)
    } else {
        match version {
            Err(e) => Err(e),
            Ok(text) => match parsed(text, u64::MAX as int) {
                None => Err("database schema version is invalid; refusing to start"@),
                Some(stored) => if 41 <= stored <= 43 {
                    Ok(
                        SchemaPlan::Upgrade(
                            SchemaUpgrade {
                                stored: stored as u64,
                                share_tokens: stored == 41,
                                quotas: stored <= 42,
                            },
                        ),
                    )
                } else {
                    Ok(SchemaPlan::Check)
                },
            },
        }
    }
}

/// Whether a database is of a version, and laid out as it should be.
pub open spec fn version_checked(
    version: Result<Option<Seq<char>>, Seq<char>>,
    layout: Result<Option<Seq<char>>, Seq<char>>,
    expected: u64,
) -> Result<(), Seq<char>> {
    match version {
        Err(e) => Err("unsupported database schema: "@ + e),
        Ok(None) => Err("database schema version is missing; refusing to start"@),
        Ok(Some(text)) => match parsed(text, u64::MAX as int) {
            None => Err("database schema version is invalid; refusing to start"@),
            Some(stored) => if stored != expected {
                Err(
                    "database schema version "@ + decimal(stored as nat)
                        + " is unsupported by this binary ("@ + decimal(expected as nat)
                        + "); preserve the database and use a matching release"@,
                )
            } else {
                match layout {
                    Err(e) => Err(e),
                    Ok(found) => if found == Some("reserved-v1"@) {
                        Ok(())
                    } else {
                        Err(
                            "unsupported tenant storage layout; preserve the database and receiving files and use a matching release"@,
                        )
                    },
                }
            },
        },
    }
}

/// Whether a database is one of a version: from 43 on with quota aggregates.
pub open spec fn schema_checked(
    version: Result<Option<Seq<char>>, Seq<char>>,
    layout: Result<Option<Seq<char>>, Seq<char>>,
    expected: u64,
    q: QuotaSchema,
) -> Result<(), Seq<char>> {
    match version_checked(version, layout, expected) {
        Err(e) => Err(e),
        Ok(_) => if expected >= 43 {
            quotas_checked(q)
        } else {
            Ok(())
        },
    }
}

// ---------------------------------------------------------------------- laws
/// Whether the first `n` characters of a mark stand in a text from a position on.
spec fn stands_at(s: Seq<char>, mark: Seq<char>, at: int, n: nat) -> bool
    decreases n,
{
    n == 0 || (s[at + n - 1] == mark[n - 1] && stands_at(s, mark, at, (n - 1) as nat))
}

proof fn lemma_stands(s: Seq<char>, mark: Seq<char>, at: int, n: nat, i: int)
    requires
        stands_at(s, mark, at, n),
        0 <= i < n,
    ensures
        s[at + i] == mark[i],
    decreases n,
{
    if i < n - 1 {
        lemma_stands(s, mark, at, (n - 1) as nat, i);
    }
}

proof fn lemma_split(s: Seq<char>, mark: Seq<char>, at: int)
    requires
        mark.len() > 0,
        0 <= at,
        at + mark.len() <= s.len(),
        stands_at(s, mark, at, mark.len()),
    ensures
        pieces(s, mark).len() >= 2,
{
    let part = s.subrange(at, at + mark.len());
    assert forall|i: int| 0 <= i < mark.len() implies part[i] == mark[i] by {
        lemma_stands(s, mark, at, mark.len(), i);
    }
    assert(part =~= mark);
    assert(occurs_at(s, mark, at));
    lemma_position_found(s, mark, 0, at);
}

/// The definitions that the aggregates are created with are there.
pub proof fn own_definitions_are_there()
    ensures
        table_definition() is Some,
        identity_definition() is Some,
        session_definition() is Some,
{
    reveal_strlit("
CREATE TABLE IF NOT EXISTS tenant_quota_usage (
    tenant TEXT PRIMARY KEY,
    bytes_hi INTEGER NOT NULL CHECK (bytes_hi BETWEEN 0 AND 4294967295),
    bytes_lo INTEGER NOT NULL CHECK (bytes_lo BETWEEN 0 AND 4294967295),
    state INTEGER NOT NULL CHECK (state IN (0, 1, 2))
);
");
    reveal_strlit("
CREATE INDEX IF NOT EXISTS files_quota_identity ON files(
    tenant,
    CASE WHEN stored_as = '' THEN 1 ELSE 0 END,
    CASE WHEN stored_as = '' THEN '' ELSE stored_as END,
    CASE WHEN stored_as = '' THEN link_id ELSE '' END,
    CASE WHEN stored_as = '' THEN upload_id ELSE '' END,
    CASE WHEN stored_as = '' THEN file_index ELSE 0 END,
    bytes_hi DESC,
    bytes_lo DESC
) WHERE deleted = 0;
CREATE INDEX IF NOT EXISTS upload_sessions_quota_live
    ON upload_sessions(tenant, id) WHERE committed_upload_id IS NULL;
");
    reveal_strlit("CREATE TABLE IF NOT EXISTS tenant_quota_usage");
    reveal_strlit("CREATE INDEX IF NOT EXISTS files_quota_identity");
    reveal_strlit("CREATE INDEX IF NOT EXISTS upload_sessions_quota_live");
    reveal_with_fuel(stands_at, 60);
    lemma_split(QUOTA_SCHEMA@, "CREATE TABLE IF NOT EXISTS tenant_quota_usage"@, 1);
    lemma_split(QUOTA_INDEXES@, "CREATE INDEX IF NOT EXISTS files_quota_identity"@, 1);
    lemma_split(
        QUOTA_INDEXES@,
        "CREATE INDEX IF NOT EXISTS upload_sessions_quota_live"@,
        403,
    );
}

/// The definitions that the aggregates are created with pass the check.
pub proof fn own_definitions_pass(q: QuotaSchema)
    requires
        q.columns.deep_view() == seq!["tenant"@, "bytes_hi"@, "bytes_lo"@, "state"@],
        q.table.deep_view() == table_definition(),
        q.identity_index.deep_view() == identity_definition(),
        q.session_index.deep_view() == session_definition(),
        q.insert_trigger.deep_view() == Some(trigger_definition("tenant_quota_usage_insert"@)),
        q.delete_trigger.deep_view() == Some(trigger_definition("tenant_quota_usage_delete"@)),
        q.update_trigger.deep_view() == Some(trigger_definition("tenant_quota_usage_update"@)),
    ensures
        quotas_checked(q) == Ok::<(), Seq<char>>(()),
{
    own_definitions_are_there();
    let columns = q.columns.deep_view();
    let wanted = seq!["tenant"@, "bytes_hi"@, "bytes_lo"@, "state"@];
    let p = |c: Seq<char>| !columns.contains(c);
    assert forall|i: int| 0 <= i < wanted.len() implies !p(#[trigger] wanted[i]) by {
        assert(columns[i] == wanted[i]);
    }
    crate::table::lemma_first(wanted, p, wanted.len() as int);
}

// ---------------------------------------------------------------- operations
fn take_part(prefix: &str, parts: &Vec<String>, i: usize) -> (r: Option<String>)
    ensures
        r.deep_view() == part_of(prefix@, parts.deep_view(), i as int),
{
    if i < parts.len() {
        Some(prefix.to_owned().concat(parts[i].as_str()))
    } else {
        None
    }
}

fn check_definition(
    actual: &Option<String>,
    expected: &Option<String>,
    missing: String,
    invalid: String,
) -> (r: Result<(), String>)
    ensures
        outcome(r) == defined(actual.deep_view(), expected.deep_view(), missing@, invalid@),
{
    match (actual, expected) {
        (None, _) => Err(missing),
        (_, None) => Err(invalid),
        (Some(sql), Some(wanted)) => {
            let sql = normalize_schema_sql(sql.as_str());
            let wanted = normalize_schema_sql(wanted.as_str());
            if same(sql.as_str(), wanted.as_str()) {
                Ok(())
            } else {
                Err(invalid)
            }
        },
    }
}

fn check_trigger(actual: &Option<String>, name: &str) -> (r: Result<(), String>)
    ensures
        outcome(r) == trigger_defined(actual.deep_view(), name@),
{
    proof {
        reveal_strlit("CREATE TRIGGER");
    }
    let script = quota_trigger_sql();
    let parts = split(script.as_str(), "CREATE TRIGGER");
    let word = chars(name);
    let named = |part: &String| -> (b: bool)
        ensures
            b == names_it(name@)(part@),
    {
        let part = chars(part.as_str());
        find_in(&part, &word)
    };
    let part = match crate::table::find(&parts, named, Ghost(names_it(name@))) {
        Some(found) => parts[found].clone(),
        None => {
            proof {
                reveal_strlit("");
                assert(""@ =~= Seq::empty());
            }
            "".to_owned()
        },
    };
    let expected = "CREATE TRIGGER".to_owned().concat(part.as_str());
    let start = "tenant quota trigger ".to_owned().concat(name);
    let missing = start.clone().concat(" is missing; refusing to start");
    let invalid = start.concat(" definition is invalid; refusing to start");
    check_definition(actual, &Some(expected), missing, invalid)
}

fn check_tables(q: &QuotaSchema) -> (r: Result<(), String>)
    ensures
        outcome(r) == tables_checked(*q),
{
    if q.table.is_none() {
        return Err("tenant quota aggregate table is missing; refusing to start".to_owned());
    }
    let mut wanted: Vec<String> = Vec::new();
    wanted.push("tenant".to_owned());
    wanted.push("bytes_hi".to_owned());
    wanted.push("bytes_lo".to_owned());
    wanted.push("state".to_owned());
    assert(wanted.deep_view() =~= seq!["tenant"@, "bytes_hi"@, "bytes_lo"@, "state"@]);
    let columns = &q.columns;
    let gone = |c: &String| -> (b: bool)
        ensures
            b == (|c: Seq<char>| !columns.deep_view().contains(c))(c@),
    {
        !list_has(columns, c.as_str())
    };
    if let Some(found) = crate::table::find(
        &wanted,
        gone,
        Ghost(|c: Seq<char>| !columns.deep_view().contains(c)),
    ) {
        let start = "tenant quota aggregate column ".to_owned().concat(wanted[found].as_str());
        return Err(start.concat(" is missing; refusing to start"));
    }
    proof {
        reveal_strlit("CREATE TABLE IF NOT EXISTS tenant_quota_usage");
        reveal_strlit("CREATE INDEX IF NOT EXISTS files_quota_identity");
        reveal_strlit("CREATE INDEX IF NOT EXISTS upload_sessions_quota_live");
        reveal_strlit("");
        assert(""@ =~= Seq::empty());
    }
    let parts = split(QUOTA_SCHEMA, "CREATE TABLE IF NOT EXISTS tenant_quota_usage");
    let table = take_part("CREATE TABLE tenant_quota_usage", &parts, 1);
    if let Err(error) = check_definition(
        &q.table,
        &table,
        "".to_owned(),
        "tenant quota aggregate table definition is invalid; refusing to start".to_owned(),
    ) {
        return Err(error);
    }
    let parts = split(QUOTA_INDEXES, "CREATE INDEX IF NOT EXISTS files_quota_identity");
    let identity = match take_part("", &parts, 1) {
        None => None,
        Some(rest) => {
            let parts = split(
                rest.as_str(),
                "CREATE INDEX IF NOT EXISTS upload_sessions_quota_live",
            );
            take_part("CREATE INDEX files_quota_identity", &parts, 0)
        },
    };
    if let Err(error) = check_definition(
        &q.identity_index,
        &identity,
        "tenant quota identity index is missing; refusing to start".to_owned(),
        "tenant quota identity index definition is invalid; refusing to start".to_owned(),
    ) {
        return Err(error);
    }
    let parts = split(QUOTA_INDEXES, "CREATE INDEX IF NOT EXISTS upload_sessions_quota_live");
    let sessions = take_part("CREATE INDEX upload_sessions_quota_live", &parts, 1);
    check_definition(
        &q.session_index,
        &sessions,
        "tenant retained-session index is missing; refusing to start".to_owned(),
        "tenant retained-session index definition is invalid; refusing to start".to_owned(),
    )
}

/// Whether the quota aggregates are kept as they should be, or what is wrong.
pub fn validate_quota_schema(q: &QuotaSchema) -> (r: Result<(), String>)
    ensures
        outcome(r) == quotas_checked(*q),
{
    if let Err(error) = check_tables(q) {
        return Err(error);
    }
    if let Err(error) = check_trigger(&q.insert_trigger, "tenant_quota_usage_insert") {
        return Err(error);
    }
    if let Err(error) = check_trigger(&q.delete_trigger, "tenant_quota_usage_delete") {
        return Err(error);
    }
    check_trigger(&q.update_trigger, "tenant_quota_usage_update")
}

/// What is to be done about a database's file: `legacy` says whether the state of
/// an older release is there, `promotion` whether a standby is being promoted.
pub fn plan_file(legacy: bool, promotion: bool, there: bool) -> (r: Result<OpenPlan, String>)
    ensures
        match r {
            Ok(plan) => file_planned(legacy, promotion, there) == Ok::<OpenPlan, Seq<char>>(plan),
            Err(e) => file_planned(legacy, promotion, there) == Err::<OpenPlan, Seq<char>>(e@),
        },
{
    if legacy {
        Err(
            "state.json is unsupported; preserve it and use a matching release to export the data".to_owned(),
        )
    } else if there {
        Ok(OpenPlan::UseFile)
    } else if promotion {
        Err("standby has no database; pull a valid replica before promotion".to_owned())
    } else {
        Ok(OpenPlan::CreateFile)
    }
}

/// What is to be done with a database: `empty` says whether it holds nothing,
/// `version` what it says of its version.
pub fn initialize_schema(empty: bool, version: Result<String, String>) -> (r: Result<
    SchemaPlan,
    String,
>)
    ensures
        match r {
            Ok(plan) => planned(empty, outcome(version)) == Ok::<SchemaPlan, Seq<char>>(plan),
            Err(e) => planned(empty, outcome(version)) == Err::<SchemaPlan, Seq<char>>(e@),
        },
{
    if empty {
        return Ok(SchemaPlan::Create);
    }
    match version {
        Err(error) => Err(error),
        Ok(text) => match parse_number(text.as_str(), u64::MAX) {
            None => Err("database schema version is invalid; refusing to start".to_owned()),
            Some(stored) => if stored == 41 || stored == 42 || stored == 43 {
                Ok(
                    SchemaPlan::Upgrade(
                        SchemaUpgrade {
                            stored,
                            share_tokens: stored == 41,
                            quotas: stored == 41 || stored == 42,
                        },
                    ),
                )
            } else {
                Ok(SchemaPlan::Check)
            },
        },
    }
}

fn check_version(
    version: Result<Option<String>, String>,
    layout: Result<Option<String>, String>,
    expected: u64,
) -> (r: Result<(), String>)
    ensures
        outcome(r) == version_checked(outcome(version), outcome(layout), expected),
{
    let text = match version {
        Err(error) => {
            return Err("unsupported database schema: ".to_owned().concat(error.as_str()));
        },
        Ok(None) => {
            return Err("database schema version is missing; refusing to start".to_owned());
        },
        Ok(Some(text)) => text,
    };
    let stored: u64 = match parse_number(text.as_str(), u64::MAX) {
        None => return Err("database schema version is invalid; refusing to start".to_owned()),
        Some(stored) => stored,
    };
    if stored != expected {
        let start = "database schema version ".to_owned().concat(u64_text(stored).as_str());
        let middle = start.concat(" is unsupported by this binary (").concat(
            u64_text(expected).as_str(),
        );
        return Err(
            middle.concat("); preserve the database and use a matching release"),
        );
    }
    match layout {
        Err(error) => Err(error),
        Ok(found) => if same_option(&found, &Some("reserved-v1".to_owned())) {
            Ok(())
        } else {
            Err(
                "unsupported tenant storage layout; preserve the database and receiving files and use a matching release".to_owned(),
            )
        },
    }
}

/// Whether a database is one of version `expected`, or what is wrong: `version`
/// and `layout` are what it says of itself, `q` what it holds.
pub fn validate_schema(
    version: Result<Option<String>, String>,
    layout: Result<Option<String>, String>,
    expected: u64,
    q: &QuotaSchema,
) -> (r: Result<(), String>)
    ensures
        outcome(r) == schema_checked(outcome(version), outcome(layout), expected, *q),
{
    if let Err(error) = check_version(version, layout, expected) {
        return Err(error);
    }
    if expected >= 43 {
        return validate_quota_schema(q);
    }
    Ok(())
}

} // verus!
