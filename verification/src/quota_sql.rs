//! The SQL that keeps the quota aggregates inside the database.
use vstd::prelude::*;

use crate::sql::{replace_all, replaced};

verus! {

/// The table of the aggregates. `state` is 0 for exact, 1 for saturated and 2
/// for dirty.
pub const QUOTA_SCHEMA: &'static str = "
CREATE TABLE IF NOT EXISTS tenant_quota_usage (
    tenant TEXT PRIMARY KEY,
    bytes_hi INTEGER NOT NULL CHECK (bytes_hi BETWEEN 0 AND 4294967295),
    bytes_lo INTEGER NOT NULL CHECK (bytes_lo BETWEEN 0 AND 4294967295),
    state INTEGER NOT NULL CHECK (state IN (0, 1, 2))
);
";

/// The indexes that the aggregates are computed over.
pub const QUOTA_INDEXES: &'static str = "
CREATE INDEX IF NOT EXISTS files_quota_identity ON files(
    tenant,
    CASE WHEN stored_as = '' THEN 1 ELSE 0 END,
    CASE WHEN stored_as = '' THEN '' ELSE stored_as END,
    CASE WHEN stored_as = '' THEN link_id ELSE '' END,
    CASE WHEN stored_as = '' THEN upload_id ELSE '' END,
    CASE WHEN stored_as = '' THEN file_index ELSE 0 END,
    bytes_hi DESC,
    bytes_lo DESC
) WHERE deleted = 0;
CREATE INDEX IF NOT EXISTS upload_sessions_quota_live
    ON upload_sessions(tenant, id) WHERE committed_upload_id IS NULL;
";

/// What tells the stored files of a tenant apart.
pub const IDENTITY: &'static str = "CASE WHEN {alias}.stored_as = '' THEN 1 ELSE 0 END,
         CASE WHEN {alias}.stored_as = '' THEN '' ELSE {alias}.stored_as END,
         CASE WHEN {alias}.stored_as = '' THEN {alias}.link_id ELSE '' END,
         CASE WHEN {alias}.stored_as = '' THEN {alias}.upload_id ELSE '' END,
         CASE WHEN {alias}.stored_as = '' THEN {alias}.file_index ELSE 0 END";

/// The largest other live file that shares a file's storage.
pub const PROBE: &'static str = "SELECT {column} FROM files AS candidate
         WHERE candidate.tenant = {reference}.tenant AND candidate.deleted = 0
           AND ({identity}) = ({reference_identity})
           AND NOT (candidate.link_id = {exclude}.link_id
                    AND candidate.upload_id = {exclude}.upload_id
                    AND candidate.file_index = {exclude}.file_index)
         ORDER BY candidate.bytes_hi DESC, candidate.bytes_lo DESC LIMIT 1";

/// Counts a file that came to be live.
pub const ADD_UPDATE: &'static str = "UPDATE tenant_quota_usage
         SET bytes_hi = CASE WHEN bytes_hi + q.delta_hi + (bytes_lo + q.delta_lo >= {base}) > {max}
                             THEN {max} ELSE bytes_hi + q.delta_hi + (bytes_lo + q.delta_lo >= {base}) END,
             bytes_lo = (bytes_lo + q.delta_lo) % {base},
             state = CASE WHEN bytes_hi + q.delta_hi + (bytes_lo + q.delta_lo >= {base}) > {max}
                               OR (bytes_hi + q.delta_hi + (bytes_lo + q.delta_lo >= {base}) = {max}
                                   AND (bytes_lo + q.delta_lo) % {base} = {max})
                          THEN 1 ELSE 0 END
         FROM (
             SELECT CASE WHEN {reference}.bytes_hi > old.bytes_hi
                              OR ({reference}.bytes_hi = old.bytes_hi AND {reference}.bytes_lo > old.bytes_lo)
                         THEN {reference}.bytes_hi - old.bytes_hi - ({reference}.bytes_lo < old.bytes_lo)
                         ELSE 0 END AS delta_hi,
                    CASE WHEN {reference}.bytes_hi > old.bytes_hi
                              OR ({reference}.bytes_hi = old.bytes_hi AND {reference}.bytes_lo > old.bytes_lo)
                         THEN ({reference}.bytes_lo - old.bytes_lo + {base}) % {base}
                         ELSE 0 END AS delta_lo
             FROM (SELECT COALESCE(({previous_hi}), 0) AS bytes_hi,
                          COALESCE(({previous_lo}), 0) AS bytes_lo) AS old
         ) AS q
         WHERE tenant = {reference}.tenant AND state = 0 AND {live}";

/// Uncounts a file that no longer is live.
pub const REMOVE_UPDATE: &'static str = "UPDATE tenant_quota_usage
         SET bytes_hi = CASE WHEN bytes_hi < q.delta_hi
                                  OR (bytes_hi = q.delta_hi AND bytes_lo < q.delta_lo)
                             THEN bytes_hi
                             ELSE bytes_hi - q.delta_hi - (bytes_lo < q.delta_lo) END,
             bytes_lo = CASE WHEN bytes_hi < q.delta_hi
                                  OR (bytes_hi = q.delta_hi AND bytes_lo < q.delta_lo)
                             THEN bytes_lo
                             ELSE (bytes_lo - q.delta_lo + {base}) % {base} END,
             state = CASE WHEN state = 1 AND q.removed THEN 2
                          WHEN state = 0 AND (bytes_hi < q.delta_hi
                               OR (bytes_hi = q.delta_hi AND bytes_lo < q.delta_lo)) THEN 2
                          ELSE state END
         FROM (
             SELECT CASE WHEN old.bytes_hi > remaining.bytes_hi
                              OR (old.bytes_hi = remaining.bytes_hi AND old.bytes_lo > remaining.bytes_lo)
                         THEN 1 ELSE 0 END AS removed,
                    CASE WHEN old.bytes_hi > remaining.bytes_hi
                              OR (old.bytes_hi = remaining.bytes_hi AND old.bytes_lo > remaining.bytes_lo)
                         THEN old.bytes_hi - remaining.bytes_hi - (old.bytes_lo < remaining.bytes_lo)
                         ELSE 0 END AS delta_hi,
                    CASE WHEN old.bytes_hi > remaining.bytes_hi
                              OR (old.bytes_hi = remaining.bytes_hi AND old.bytes_lo > remaining.bytes_lo)
                         THEN (old.bytes_lo - remaining.bytes_lo + {base}) % {base}
                         ELSE 0 END AS delta_lo
             FROM (SELECT {reference}.bytes_hi, {reference}.bytes_lo) AS old
             CROSS JOIN (SELECT COALESCE(({remaining_hi}), 0) AS bytes_hi,
                                COALESCE(({remaining_lo}), 0) AS bytes_lo) AS remaining
         ) AS q
         WHERE tenant = {reference}.tenant AND state IN (0, 1) AND {live}";

/// Makes sure that a tenant has an aggregate.
pub const ENSURE_ROW: &'static str = "INSERT INTO tenant_quota_usage(tenant, bytes_hi, bytes_lo, state)
         SELECT {reference}.tenant, 0, 0,
                CASE WHEN EXISTS(
                    SELECT 1 FROM files AS existing
                    WHERE existing.tenant = {reference}.tenant AND existing.deleted = 0
                      AND NOT (existing.link_id = {exclude}.link_id
                               AND existing.upload_id = {exclude}.upload_id
                               AND existing.file_index = {exclude}.file_index)
                ) THEN 2 ELSE 0 END
         WHERE NOT EXISTS(SELECT 1 FROM tenant_quota_usage WHERE tenant={reference}.tenant)
         ON CONFLICT(tenant) DO NOTHING;";

/// The triggers that keep the aggregates.
pub const TRIGGERS: &'static str = "CREATE TRIGGER tenant_quota_usage_insert AFTER INSERT ON files
         WHEN NEW.deleted = 0 BEGIN
             {ensure_insert}
             {add_insert};
         END;
         CREATE TRIGGER tenant_quota_usage_delete AFTER DELETE ON files
         WHEN OLD.deleted = 0
              AND NOT EXISTS(
                  SELECT 1 FROM tenant_quota_usage
                  WHERE tenant=OLD.tenant AND state=2
              ) BEGIN
             {ensure_delete}
             {remove_delete};
         END;
         CREATE TRIGGER tenant_quota_usage_update
         AFTER UPDATE OF tenant, link_id, upload_id, file_index, bytes_hi, bytes_lo, deleted, stored_as ON files
         WHEN (OLD.tenant, OLD.link_id, OLD.upload_id, OLD.file_index, OLD.bytes_hi, OLD.bytes_lo, OLD.deleted, OLD.stored_as)
            IS NOT (NEW.tenant, NEW.link_id, NEW.upload_id, NEW.file_index, NEW.bytes_hi, NEW.bytes_lo, NEW.deleted, NEW.stored_as)
         BEGIN
             {ensure_old_update}
             {ensure_new_update}
             {remove_update};
             {add_update};
         END;";

/// The live files of one tenant, those that share storage together.
pub const TENANT_FILES: &'static str = "SELECT tenant,stored_as,link_id,upload_id,file_index,bytes_hi,bytes_lo
         FROM files WHERE tenant=?1 AND deleted=0
         ORDER BY tenant,
             CASE WHEN stored_as='' THEN 1 ELSE 0 END,
             CASE WHEN stored_as='' THEN '' ELSE stored_as END,
             CASE WHEN stored_as='' THEN link_id ELSE '' END,
             CASE WHEN stored_as='' THEN upload_id ELSE '' END,
             CASE WHEN stored_as='' THEN file_index ELSE 0 END,
             bytes_hi DESC, bytes_lo DESC";

/// The live files of all tenants, those that share storage together.
pub const ALL_FILES: &'static str = "SELECT tenant,stored_as,link_id,upload_id,file_index,bytes_hi,bytes_lo
         FROM files WHERE deleted=0
         ORDER BY tenant,
             CASE WHEN stored_as='' THEN 1 ELSE 0 END,
             CASE WHEN stored_as='' THEN '' ELSE stored_as END,
             CASE WHEN stored_as='' THEN link_id ELSE '' END,
             CASE WHEN stored_as='' THEN upload_id ELSE '' END,
             CASE WHEN stored_as='' THEN file_index ELSE 0 END,
             bytes_hi DESC, bytes_lo DESC";

// ------------------------------------------------------------ specifications
/// What tells the stored files of a tenant apart.
pub open spec fn identity_sql(alias: Seq<char>) -> Seq<char> {
    replaced(IDENTITY@, "{alias}"@, alias)
}

/// The largest other live file that shares a file's storage.
pub open spec fn probe_sql(reference: Seq<char>, exclude: Seq<char>, column: Seq<char>) -> Seq<char> {
    let s = replaced(PROBE@, "{identity}"@, identity_sql("candidate"@));
    let s = replaced(s, "{reference_identity}"@, identity_sql(reference));
    let s = replaced(s, "{reference}"@, reference);
    let s = replaced(s, "{exclude}"@, exclude);
    replaced(s, "{column}"@, column)
}

/// Counts a file that came to be live.
pub open spec fn add_update_sql(reference: Seq<char>, exclude: Seq<char>, live: Seq<char>) -> Seq<char> {
    let s = replaced(ADD_UPDATE@, "{previous_hi}"@, probe_sql(reference, exclude, "candidate.bytes_hi"@));
    let s = replaced(s, "{previous_lo}"@, probe_sql(reference, exclude, "candidate.bytes_lo"@));
    let s = replaced(s, "{base}"@, "4294967296"@);
    let s = replaced(s, "{max}"@, "4294967295"@);
    let s = replaced(s, "{reference}"@, reference);
    replaced(s, "{live}"@, live)
}

/// Uncounts a file that no longer is live.
pub open spec fn remove_update_sql(reference: Seq<char>, exclude: Seq<char>, live: Seq<char>) -> Seq<char> {
    let s = replaced(REMOVE_UPDATE@, "{remaining_hi}"@, probe_sql(reference, exclude, "candidate.bytes_hi"@));
    let s = replaced(s, "{remaining_lo}"@, probe_sql(reference, exclude, "candidate.bytes_lo"@));
    let s = replaced(s, "{base}"@, "4294967296"@);
    let s = replaced(s, "{reference}"@, reference);
    replaced(s, "{live}"@, live)
}

/// Makes sure that a tenant has an aggregate.
pub open spec fn ensure_row_sql(reference: Seq<char>, exclude: Seq<char>) -> Seq<char> {
    let s = replaced(ENSURE_ROW@, "{reference}"@, reference);
    replaced(s, "{exclude}"@, exclude)
}

/// The triggers that keep the aggregates.
pub open spec fn trigger_sql() -> Seq<char> {
    let s = replaced(TRIGGERS@, "{add_insert}"@, add_update_sql("NEW"@, "NEW"@, "1"@));
    let s = replaced(s, "{remove_delete}"@, remove_update_sql("OLD"@, "OLD"@, "1"@));
    let s = replaced(s, "{remove_update}"@, remove_update_sql("OLD"@, "NEW"@, "OLD.deleted = 0"@));
    let s = replaced(s, "{add_update}"@, add_update_sql("NEW"@, "NEW"@, "NEW.deleted = 0"@));
    let s = replaced(s, "{ensure_insert}"@, ensure_row_sql("NEW"@, "NEW"@));
    let s = replaced(s, "{ensure_delete}"@, ensure_row_sql("OLD"@, "OLD"@));
    let s = replaced(s, "{ensure_old_update}"@, ensure_row_sql("OLD"@, "NEW"@));
    replaced(s, "{ensure_new_update}"@, ensure_row_sql("NEW"@, "NEW"@))
}

// ---------------------------------------------------------------- operations
/// What tells the stored files of a tenant apart.
pub fn quota_identity(alias: &str) -> (r: String)
    ensures
        r@ == identity_sql(alias@),
{
    proof {
        reveal_strlit("{alias}");
    }
    replace_all(IDENTITY, "{alias}", alias)
}

/// The largest other live file that shares a file's storage.
pub fn quota_probe(reference: &str, exclude: &str, column: &str) -> (r: String)
    ensures
        r@ == probe_sql(reference@, exclude@, column@),
{
    proof {
        reveal_strlit("{identity}");
        reveal_strlit("{reference_identity}");
        reveal_strlit("{reference}");
        reveal_strlit("{exclude}");
        reveal_strlit("{column}");
    }
    let s = replace_all(PROBE, "{identity}", quota_identity("candidate").as_str());
    let s = replace_all(s.as_str(), "{reference_identity}", quota_identity(reference).as_str());
    let s = replace_all(s.as_str(), "{reference}", reference);
    let s = replace_all(s.as_str(), "{exclude}", exclude);
    replace_all(s.as_str(), "{column}", column)
}

/// Counts a file that came to be live.
pub fn quota_add_update(reference: &str, exclude: &str, live: &str) -> (r: String)
    ensures
        r@ == add_update_sql(reference@, exclude@, live@),
{
    proof {
        reveal_strlit("{previous_hi}");
        reveal_strlit("{previous_lo}");
        reveal_strlit("{base}");
        reveal_strlit("{max}");
        reveal_strlit("{reference}");
        reveal_strlit("{live}");
    }
    let s = replace_all(ADD_UPDATE, "{previous_hi}", quota_probe(reference, exclude, "candidate.bytes_hi").as_str());
    let s = replace_all(s.as_str(), "{previous_lo}", quota_probe(reference, exclude, "candidate.bytes_lo").as_str());
    let s = replace_all(s.as_str(), "{base}", "4294967296");
    let s = replace_all(s.as_str(), "{max}", "4294967295");
    let s = replace_all(s.as_str(), "{reference}", reference);
    replace_all(s.as_str(), "{live}", live)
}

/// Uncounts a file that no longer is live.
pub fn quota_remove_update(reference: &str, exclude: &str, live: &str) -> (r: String)
    ensures
        r@ == remove_update_sql(reference@, exclude@, live@),
{
    proof {
        reveal_strlit("{remaining_hi}");
        reveal_strlit("{remaining_lo}");
        reveal_strlit("{base}");
        reveal_strlit("{reference}");
        reveal_strlit("{live}");
    }
    let s = replace_all(REMOVE_UPDATE, "{remaining_hi}", quota_probe(reference, exclude, "candidate.bytes_hi").as_str());
    let s = replace_all(s.as_str(), "{remaining_lo}", quota_probe(reference, exclude, "candidate.bytes_lo").as_str());
    let s = replace_all(s.as_str(), "{base}", "4294967296");
    let s = replace_all(s.as_str(), "{reference}", reference);
    replace_all(s.as_str(), "{live}", live)
}

/// Makes sure that a tenant has an aggregate.
pub fn quota_ensure_row(reference: &str, exclude: &str) -> (r: String)
    ensures
        r@ == ensure_row_sql(reference@, exclude@),
{
    proof {
        reveal_strlit("{reference}");
        reveal_strlit("{exclude}");
    }
    let s = replace_all(ENSURE_ROW, "{reference}", reference);
    replace_all(s.as_str(), "{exclude}", exclude)
}

/// The triggers that keep the aggregates.
pub fn quota_trigger_sql() -> (r: String)
    ensures
        r@ == trigger_sql(),
{
    proof {
        reveal_strlit("{add_insert}");
        reveal_strlit("{remove_delete}");
        reveal_strlit("{remove_update}");
        reveal_strlit("{add_update}");
        reveal_strlit("{ensure_insert}");
        reveal_strlit("{ensure_delete}");
        reveal_strlit("{ensure_old_update}");
        reveal_strlit("{ensure_new_update}");
    }
    let s = replace_all(TRIGGERS, "{add_insert}", quota_add_update("NEW", "NEW", "1").as_str());
    let s = replace_all(s.as_str(), "{remove_delete}", quota_remove_update("OLD", "OLD", "1").as_str());
    let s = replace_all(s.as_str(), "{remove_update}", quota_remove_update("OLD", "NEW", "OLD.deleted = 0").as_str());
    let s = replace_all(s.as_str(), "{add_update}", quota_add_update("NEW", "NEW", "NEW.deleted = 0").as_str());
    let s = replace_all(s.as_str(), "{ensure_insert}", quota_ensure_row("NEW", "NEW").as_str());
    let s = replace_all(s.as_str(), "{ensure_delete}", quota_ensure_row("OLD", "OLD").as_str());
    let s = replace_all(s.as_str(), "{ensure_old_update}", quota_ensure_row("OLD", "NEW").as_str());
    replace_all(s.as_str(), "{ensure_new_update}", quota_ensure_row("NEW", "NEW").as_str())
}

/// The query for the live files of one tenant, or of all, those that share
/// storage together.
pub fn quota_live_file_sql(tenant: bool) -> (r: &'static str)
    ensures
        r@ == if tenant {
            TENANT_FILES@
        } else {
            ALL_FILES@
        },
{
    if tenant {
        TENANT_FILES
    } else {
        ALL_FILES
    }
}

} // verus!
