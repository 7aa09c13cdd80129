//! The quota aggregates stay true of the stored files, whatever is done.
use vstd::prelude::*;

use crate::columns::column;
use crate::files::purged;
use crate::links::{
    buried, buried_files, buried_quotas, in_link, in_upload, not_in_link, not_in_upload, stored_at,
    tombstoned, with_link, with_uploads, without_link, without_upload,
};
use crate::quota::{distinct_keys, live_in, quota_is, rival_of, same_key, sound, true_of, usage};
use crate::records::{LinkView, UploadRecordView};
use crate::rows::{FileRowView, QuotaRowView};
use crate::store::StoreView;
use crate::table::{any, updated};
use crate::tenants::{file_elsewhere, quota_elsewhere, removed};
use crate::uploads::{
    UploadHooks, after_inserts, after_puts, all_put, appended, not_place_from, place_below,
    place_from, record_rows, upload_refused, with_rewritten, with_upload,
};

verus! {

/// Whether every file has a place of its own, and the aggregates are true of the
/// files.
pub open spec fn accounts_hold(s: StoreView) -> bool {
    distinct_keys(s.files) && sound(s.quotas, s.files)
}

/// Whether an upload's files can be numbered in a column.
pub open spec fn countable(upload: UploadRecordView) -> bool {
    upload.files.len() <= i64::MAX
}

proof fn lemma_inserts(quotas: Seq<QuotaRowView>, files: Seq<FileRowView>, rows: Seq<FileRowView>)
    requires
        distinct_keys(files + rows),
        sound(quotas, files),
    ensures
        sound(after_inserts(quotas, files, rows), files + rows),
    decreases rows.len(),
{
    if rows.len() > 0 {
        let head = rows.drop_last();
        assert(files + rows =~= (files + head).push(rows.last()));
        assert(distinct_keys(files + head)) by {
            assert forall|i: int, j: int| 0 <= i < j < (files + head).len() implies !same_key(
                (files + head)[i],
                (files + head)[j],
            ) by {
                assert((files + head)[i] == (files + rows)[i]);
                assert((files + head)[j] == (files + rows)[j]);
            }
        }
        lemma_inserts(quotas, files, head);
        crate::quota::insertion_keeps_aggregates_true(
            after_inserts(quotas, files, head),
            files + head,
            rows.last(),
        );
    } else {
        assert(files + rows =~= files);
    }
}

/// One more upload of a link keeps the accounts.
pub proof fn storing_keeps_accounts(
    s: StoreView,
    tenant: Seq<char>,
    link_id: Seq<char>,
    upload: UploadRecordView,
)
    requires
        accounts_hold(s),
        countable(upload),
        upload_refused(s, link_id, upload) is None,
    ensures
        accounts_hold(with_upload(s, tenant, link_id, upload)),
{
    let rows = record_rows(tenant, link_id, upload);
    let all = s.files + rows;
    let n = s.files.len();
    assert forall|i: int, j: int| 0 <= i < j < all.len() implies !same_key(all[i], all[j]) by {
        if j >= n {
            if i < n {
                assert(all[i] == s.files[i]);
                let p = place_below(link_id, upload.id, column(upload.files.len() as u64));
                if same_key(all[i], all[j]) {
                    assert(p(s.files[i]));
                }
            }
        } else {
            assert(all[i] == s.files[i] && all[j] == s.files[j]);
        }
    }
    lemma_inserts(s.quotas, s.files, rows);
}

proof fn lemma_uploads_kept(
    s: StoreView,
    tenant: Seq<char>,
    link_id: Seq<char>,
    uploads: Seq<UploadRecordView>,
)
    requires
        accounts_hold(s),
        forall|i: int| 0 <= i < uploads.len() ==> countable(#[trigger] uploads[i]),
    ensures
        with_uploads(s, tenant, link_id, uploads) matches Ok(after) ==> accounts_hold(after),
    decreases uploads.len(),
{
    if uploads.len() > 0 {
        lemma_uploads_kept(s, tenant, link_id, uploads.drop_last());
        if let Ok(before) = with_uploads(s, tenant, link_id, uploads.drop_last()) {
            if upload_refused(before, link_id, uploads.last()) is None {
                assert(countable(uploads[uploads.len() - 1]));
                storing_keeps_accounts(before, tenant, link_id, uploads.last());
            }
        }
    }
}

/// A new link keeps the accounts.
pub proof fn new_links_keep_accounts(
    s: StoreView,
    l: LinkView,
    workflow: Option<Result<(), String>>,
)
    requires
        accounts_hold(s),
        forall|i: int| 0 <= i < l.uploads.len() ==> countable(#[trigger] l.uploads[i]),
    ensures
        with_link(s, l, workflow) matches Ok(after) ==> accounts_hold(after),
{
    lemma_uploads_kept(
        StoreView { links: s.links.push(crate::links::link_row(l)), ..s },
        l.tenant,
        l.id,
        l.uploads,
    );
}

proof fn lemma_puts(quotas: Seq<QuotaRowView>, files: Seq<FileRowView>, rows: Seq<FileRowView>)
    requires
        distinct_keys(files),
        sound(quotas, files),
    ensures
        sound(after_puts(quotas, files, rows), all_put(files, rows)),
        distinct_keys(all_put(files, rows)),
    decreases rows.len(),
{
    if rows.len() > 0 {
        lemma_puts(quotas, files, rows.drop_last());
        crate::files::putting_keeps_aggregates_true(
            after_puts(quotas, files, rows.drop_last()),
            all_put(files, rows.drop_last()),
            rows.last(),
        );
    }
}

/// Writing an upload anew keeps the accounts.
pub proof fn rewriting_keeps_accounts(
    s: StoreView,
    tenant: Seq<char>,
    link_id: Seq<char>,
    upload: UploadRecordView,
)
    requires
        accounts_hold(s),
    ensures
        accounts_hold(with_rewritten(s, tenant, link_id, upload)),
{
    let rows = record_rows(tenant, link_id, upload);
    let end = column(upload.files.len() as u64);
    lemma_puts(s.quotas, s.files, rows);
    let files = all_put(s.files, rows);
    lemma_purge(
        after_puts(s.quotas, s.files, rows),
        files,
        place_from(link_id, upload.id, end),
        not_place_from(link_id, upload.id, end),
    );
}

proof fn lemma_purge(
    quotas: Seq<QuotaRowView>,
    files: Seq<FileRowView>,
    gone: spec_fn(FileRowView) -> bool,
    stays: spec_fn(FileRowView) -> bool,
)
    requires
        distinct_keys(files),
        sound(quotas, files),
        forall|f: FileRowView| #[trigger] stays(f) == !gone(f),
    ensures
        sound(purged(quotas, Seq::empty(), files, gone), files.filter(stays)),
        distinct_keys(files.filter(stays)),
{
    let none = Seq::<FileRowView>::empty();
    assert(none + files =~= files);
    crate::files::purging_keeps_aggregates_true(quotas, none, files, gone, stays);
    assert(none + files.filter(stays) =~= files.filter(stays));
}

/// A completed upload keeps the accounts, whether it is new, known or recovered.
pub proof fn appending_keeps_accounts(
    s: StoreView,
    tenant: Seq<char>,
    link_id: Seq<char>,
    upload: UploadRecordView,
    session: Option<Seq<char>>,
    hooks: UploadHooks,
)
    requires
        accounts_hold(s),
        countable(upload),
    ensures
        appended(s, tenant, link_id, upload, session, hooks) matches Ok((after, _))
            ==> accounts_hold(after),
{
    if upload_refused(s, link_id, upload) is None {
        storing_keeps_accounts(s, tenant, link_id, upload);
    }
    if let Ok(Some(known)) = crate::uploads::upload_read(s, tenant, link_id, upload.id) {
        if let Ok(next) = crate::uploads::recovered(known, upload) {
            rewriting_keeps_accounts(s, tenant, link_id, next);
        }
    }
}

/// Removing an upload keeps the accounts.
pub proof fn removing_uploads_keeps_accounts(
    s: StoreView,
    tenant: Seq<char>,
    link_id: Seq<char>,
    upload_id: Seq<char>,
    pending: bool,
)
    requires
        accounts_hold(s),
    ensures
        without_upload(s, tenant, link_id, upload_id, pending) matches Ok((after, _))
            ==> accounts_hold(after),
{
    lemma_purge(
        s.quotas,
        s.files,
        in_upload(tenant, link_id, upload_id),
        not_in_upload(tenant, link_id, upload_id),
    );
}

/// Removing a link keeps the accounts.
pub proof fn removing_links_keeps_accounts(
    s: StoreView,
    tenant: Seq<char>,
    id: Seq<char>,
    pending: bool,
)
    requires
        accounts_hold(s),
    ensures
        without_link(s, tenant, id, pending) matches Ok((after, _)) ==> accounts_hold(after),
{
    lemma_purge(s.quotas, s.files, in_link(id), not_in_link(id));
}

proof fn lemma_buried(
    quotas: Seq<QuotaRowView>,
    files: Seq<FileRowView>,
    tenant: Seq<char>,
    link_id: Seq<char>,
    paths: Seq<Seq<char>>,
)
    requires
        distinct_keys(files),
        sound(quotas, files),
    ensures
        sound(
            buried_quotas(quotas, files, tenant, link_id, paths),
            buried_files(files, tenant, link_id, paths),
        ),
        distinct_keys(buried_files(files, tenant, link_id, paths)),
    decreases paths.len(),
{
    if paths.len() > 0 {
        let head = paths.drop_last();
        lemma_buried(quotas, files, tenant, link_id, head);
        let rows = buried_files(files, tenant, link_id, head);
        let none = Seq::<FileRowView>::empty();
        let hit = stored_at(tenant, link_id, paths.last());
        assert(none + rows =~= rows);
        assert forall|f: FileRowView| same_key(#[trigger] tombstoned()(f), f) by {
        }
        crate::files::revising_keeps_aggregates_true(
            buried_quotas(quotas, files, tenant, link_id, head),
            none,
            rows,
            hit,
            tombstoned(),
        );
        assert(none + updated(rows, hit, tombstoned()) =~= updated(rows, hit, tombstoned()));
    }
}

/// Deleting stored files keeps the accounts.
pub proof fn deleting_files_keeps_accounts(
    s: StoreView,
    tenant: Seq<char>,
    link_id: Seq<char>,
    paths: Seq<Seq<char>>,
)
    requires
        accounts_hold(s),
    ensures
        buried(s, tenant, link_id, paths) matches Ok((after, _)) ==> accounts_hold(after),
{
    lemma_buried(s.quotas, s.files, tenant, link_id, paths);
}

proof fn lemma_usage_elsewhere(files: Seq<FileRowView>, key: Seq<char>, tenant: Seq<char>)
    requires
        tenant != key,
    ensures
        usage(files.filter(file_elsewhere(key)), tenant) == usage(files, tenant),
    decreases files.len(),
{
    let p = file_elsewhere(key);
    if files.len() > 0 {
        let head = files.drop_last();
        let f = files.last();
        lemma_usage_elsewhere(head, key, tenant);
        assert(files =~= head.push(f));
        crate::table::lemma_filter_push(head, f, p);
        if p(f) {
            let kept = head.filter(p).push(f);
            assert(kept.drop_last() =~= head.filter(p));
            if live_in(tenant)(f) {
                lemma_filter_twice(head, p, rival_of(f));
            }
        }
    } else {
        reveal(Seq::filter);
        assert(files.filter(p) =~= files);
    }
}

/// Rows that a first test keeps wherever a second does are kept by both alike.
pub proof fn lemma_filter_twice<V>(s: Seq<V>, p: spec_fn(V) -> bool, q: spec_fn(V) -> bool)
    requires
        forall|x: V| #[trigger] q(x) ==> p(x),
    ensures
        s.filter(p).filter(q) == s.filter(q),
    decreases s.len(),
{
    if s.len() > 0 {
        let head = s.drop_last();
        lemma_filter_twice(head, p, q);
        assert(s =~= head.push(s.last()));
        crate::table::lemma_filter_push(head, s.last(), p);
        crate::table::lemma_filter_push(head, s.last(), q);
        if p(s.last()) {
            crate::table::lemma_filter_push(head.filter(p), s.last(), q);
        }
    } else {
        reveal(Seq::filter);
        assert(s.filter(p) =~= s);
    }
}

proof fn lemma_filtered_distinct(files: Seq<FileRowView>, p: spec_fn(FileRowView) -> bool)
    requires
        distinct_keys(files),
    ensures
        distinct_keys(files.filter(p)),
    decreases files.len(),
{
    reveal(Seq::filter);
    if files.len() > 0 {
        let head = files.drop_last();
        lemma_filtered_distinct(head, p);
        crate::table::lemma_filter_any_of(head, p);
        let kept = head.filter(p);
        if p(files.last()) {
            assert forall|i: int, j: int| 0 <= i < j < files.filter(p).len() implies !same_key(
                files.filter(p)[i],
                files.filter(p)[j],
            ) by {
                if j == kept.len() {
                    let k = choose|k: int| 0 <= k < head.len() && head[k] == kept[i];
                    assert(files[k] == kept[i]);
                    assert(!same_key(files[k], files[files.len() - 1]));
                }
            }
        }
    }
}

/// Removing a tenant keeps the accounts.
pub proof fn removing_tenants_keeps_accounts(
    s: StoreView,
    key: Seq<char>,
    storage: Result<(), String>,
)
    requires
        accounts_hold(s),
    ensures
        removed(s, key, storage) matches Ok((after, _)) ==> accounts_hold(after),
{
    let files = s.files.filter(file_elsewhere(key));
    let quotas = s.quotas.filter(quota_elsewhere(key));
    lemma_filtered_distinct(s.files, file_elsewhere(key));
    crate::table::lemma_filter_any_of(s.quotas, quota_elsewhere(key));
    crate::table::lemma_filter_any_of(s.files, file_elsewhere(key));
    assert forall|i: int| 0 <= i < quotas.len() implies true_of(#[trigger] quotas[i], files) by {
        let k = choose|k: int| 0 <= k < s.quotas.len() && s.quotas[k] == quotas[i];
        assert(true_of(s.quotas[k], s.files));
        lemma_usage_elsewhere(s.files, key, quotas[i].tenant);
        assert(quota_elsewhere(key)(quotas[i]));
    }
    lemma_filtered_tenants(s.quotas, quota_elsewhere(key));
    assert forall|t: Seq<char>| !any(quotas, quota_is(t)) implies !#[trigger] any(
        files,
        live_in(t),
    ) by {
        if any(files, live_in(t)) {
            let i = choose|i: int| 0 <= i < files.len() && live_in(t)(#[trigger] files[i]);
            assert(file_elsewhere(key)(files[i]));
            let k = choose|k: int| 0 <= k < s.files.len() && s.files[k] == files[i];
            assert(live_in(t)(s.files[k]));
            assert(any(s.files, live_in(t)));
            let m = choose|m: int| 0 <= m < s.quotas.len() && quota_is(t)(#[trigger] s.quotas[m]);
            lemma_kept(s.quotas, quota_elsewhere(key), m);
            let n = choose|n: int| 0 <= n < quotas.len() && quotas[n] == s.quotas[m];
            assert(quota_is(t)(quotas[n]));
        }
    }
}

proof fn lemma_kept<V>(s: Seq<V>, p: spec_fn(V) -> bool, m: int)
    requires
        0 <= m < s.len(),
        p(s[m]),
    ensures
        s.filter(p).contains(s[m]),
    decreases s.len(),
{
    reveal(Seq::filter);
    let head = s.drop_last();
    if m < head.len() {
        lemma_kept(head, p, m);
        let k = choose|k: int| 0 <= k < head.filter(p).len() && head.filter(p)[k] == s[m];
        assert(s.filter(p)[k] == s[m]);
    } else {
        assert(s.filter(p).last() == s[m]);
    }
}

proof fn lemma_filtered_tenants(quotas: Seq<QuotaRowView>, p: spec_fn(QuotaRowView) -> bool)
    requires
        forall|i: int, j: int|
            0 <= i < j < quotas.len() ==> quotas[i].tenant != quotas[j].tenant,
    ensures
        forall|i: int, j: int|
            0 <= i < j < quotas.filter(p).len() ==> quotas.filter(p)[i].tenant != quotas.filter(
                p,
            )[j].tenant,
    decreases quotas.len(),
{
    reveal(Seq::filter);
    if quotas.len() > 0 {
        let head = quotas.drop_last();
        lemma_filtered_tenants(head, p);
        crate::table::lemma_filter_any_of(head, p);
        let kept = head.filter(p);
        if p(quotas.last()) {
            assert forall|i: int, j: int|
                0 <= i < j < quotas.filter(p).len() implies quotas.filter(p)[i].tenant
                != quotas.filter(p)[j].tenant by {
                if j == kept.len() {
                    let k = choose|k: int| 0 <= k < head.len() && head[k] == kept[i];
                    assert(quotas[k] == kept[i]);
                    assert(quotas[k].tenant != quotas[quotas.len() - 1].tenant);
                }
            }
        }
    }
}

} // verus!
