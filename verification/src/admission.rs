//! What a tenant is told to use: the bytes of its stored files, each counted once, and the
//! sessions that have not become an upload yet.
use vstd::prelude::*;

use crate::quota::{heaviest, live_in, quota_is, rival_of, same_object, sound, usage, weight};
use crate::records::{RetainedReservationView, TenantUsageView, UploadRecordView};
use crate::rows::{FileRowView, LinkRowView, SessionFileRowView, SessionRowView, TenantRowView};
use crate::selection::{lemma_counted, lemma_found, lemma_ordered, lemma_read, lemma_selected};
use crate::store::StoreView;
use crate::table::{any, distinct, first, sorted_by};
use crate::uploads::{UploadHooks, appended};
use crate::usage::{
    counting_order, in_order, leaders, lemma_first_of_object, lemma_sorted_in_order, link_in,
    link_tenant, misshapen, namespaces, open_session, received, reservation_of, session_file_of,
    stored_files, tenant_key, text_order, usage_of, usages,
};

verus! {

// -------------------------------------------------------------- reservations
/// What a tenant's sessions hold against its quota.
pub open spec fn reserved(s: StoreView, tenant: Seq<char>) -> Seq<RetainedReservationView> {
    s.sessions.filter(open_session(tenant, s.session_files)).map_values(reservation_of())
}

/// Whether a session still holds its bytes against its tenant's quota: it has not become an
/// upload, and has files.
pub open spec fn holds_bytes(s: StoreView, tenant: Seq<char>, x: SessionRowView) -> bool {
    &&& x.tenant == tenant
    &&& x.committed_upload_id is None
    &&& exists|f: SessionFileRowView| #[trigger] s.session_files.contains(f) && f.session_id == x.id
}

/// Each reservation is of a session of the tenant that has not become an upload, with its
/// length and its key, and each such session has one.
pub proof fn reservations_are_of_open_sessions(s: StoreView, tenant: Seq<char>)
    ensures
        forall|r: RetainedReservationView| #[trigger]
            reserved(s, tenant).contains(r) ==> exists|x: SessionRowView| #[trigger]
                s.sessions.contains(x) && holds_bytes(s, tenant, x) && r.id == x.id && r.push_key
                    == x.push_key && r.bytes == if x.package_length >= 0 {
                    x.package_length as int
                } else {
                    0
                },
        forall|x: SessionRowView| #[trigger]
            s.sessions.contains(x) && holds_bytes(s, tenant, x) ==> reserved(s, tenant).contains(
                RetainedReservationView {
                    id: x.id,
                    push_key: x.push_key,
                    bytes: if x.package_length >= 0 {
                        x.package_length as u64
                    } else {
                        0
                    },
                },
            ),
        reserved(s, tenant).len() == s.sessions.filter(
            |x: SessionRowView| holds_bytes(s, tenant, x),
        ).len(),
{
    let p = open_session(tenant, s.session_files);
    let chosen = s.sessions.filter(p);
    lemma_selected(s.sessions, p);
    assert forall|x: SessionRowView| #[trigger] p(x) == holds_bytes(s, tenant, x) by {
        lemma_found(s.session_files, session_file_of(x.id));
    }
    let raw = |x: SessionRowView| holds_bytes(s, tenant, x);
    assert forall|x: SessionRowView| #[trigger] p(x) == raw(x) by {}
    lemma_counted(s.sessions, p, raw);
    assert forall|r: RetainedReservationView| #[trigger]
        reserved(s, tenant).contains(r) implies exists|x: SessionRowView| #[trigger]
        s.sessions.contains(x) && holds_bytes(s, tenant, x) && r.id == x.id && r.push_key
            == x.push_key && r.bytes == if x.package_length >= 0 {
            x.package_length as int
        } else {
            0
        } by {
        let i = choose|i: int| 0 <= i < reserved(s, tenant).len() && reserved(s, tenant)[i] == r;
        assert(chosen.contains(chosen[i]));
        assert(p(chosen[i]));
    }
    assert forall|x: SessionRowView| #[trigger]
        s.sessions.contains(x) && holds_bytes(s, tenant, x) implies reserved(s, tenant).contains(
        RetainedReservationView {
            id: x.id,
            push_key: x.push_key,
            bytes: if x.package_length >= 0 {
                x.package_length as u64
            } else {
                0
            },
        },
    ) by {
        assert(p(x));
        assert(chosen.contains(x));
        let i = choose|i: int| 0 <= i < chosen.len() && chosen[i] == x;
        assert(reserved(s, tenant)[i] == reservation_of()(x));
    }
}

/// A session that has become an upload reserves nothing any more.
pub proof fn finished_sessions_reserve_nothing(
    s: StoreView,
    tenant: Seq<char>,
    link_id: Seq<char>,
    upload: UploadRecordView,
    session: Seq<char>,
    hooks: UploadHooks,
)
    requires
        !upload.partial,
        forall|i: int, j: int|
            0 <= i < j < s.sessions.len() ==> s.sessions[i].id != s.sessions[j].id,
    ensures
        appended(s, tenant, link_id, upload, Some(session), hooks) matches Ok((after, Some(_)))
            ==> forall|r: RetainedReservationView, t: Seq<char>| #[trigger]
            reserved(after, t).contains(r) ==> r.id != session,
{
    if let Ok((after, Some(_))) = appended(s, tenant, link_id, upload, Some(session), hooks) {
        crate::recovery::sessions_become_their_upload(
            s,
            tenant,
            link_id,
            upload,
            session,
            hooks,
            upload,
            hooks,
        );
        assert forall|r: RetainedReservationView, t: Seq<char>| #[trigger]
            reserved(after, t).contains(r) implies r.id != session by {
            reservations_are_of_open_sessions(after, t);
            let x = choose|x: SessionRowView| #[trigger]
                after.sessions.contains(x) && holds_bytes(after, t, x) && r.id == x.id;
            let i = choose|i: int| 0 <= i < after.sessions.len() && after.sessions[i] == x;
            assert(after.sessions[i].id == x.id);
        }
    }
}

// --------------------------------------------------------------------- usage
/// Whether two records are of the same stored file: of one tenant and under the same stored
/// path, or at the same place where they have none.
pub open spec fn one_file(a: FileRowView, b: FileRowView) -> bool {
    &&& a.tenant == b.tenant
    &&& a.stored_as == b.stored_as
    &&& a.stored_as.len() == 0 ==> a.link_id == b.link_id && a.upload_id == b.upload_id
        && a.file_index == b.file_index
}

/// The length of a record.
pub open spec fn length_of(f: FileRowView) -> int {
    f.bytes_hi * 0x1_0000_0000 + f.bytes_lo
}

/// Whether a record's length is told in two limbs.
pub open spec fn well_told(f: FileRowView) -> bool {
    0 <= f.bytes_hi < 0x1_0000_0000 && 0 <= f.bytes_lo < 0x1_0000_0000
}

proof fn lemma_one_file(a: FileRowView, b: FileRowView)
    ensures
        same_object(a, b) == one_file(a, b),
{
    if a.stored_as.len() == 0 && b.stored_as.len() == 0 {
        assert(a.stored_as =~= b.stored_as);
    }
}

proof fn lemma_heaviest_of(s: Seq<FileRowView>)
    ensures
        forall|x: FileRowView| #[trigger] s.contains(x) ==> weight(x) <= heaviest(s),
        heaviest(s) > 0 ==> exists|x: FileRowView| #[trigger]
            s.contains(x) && weight(x) == heaviest(s),
    decreases s.len(),
{
    assert forall|x: FileRowView| #[trigger] s.contains(x) implies weight(x) <= heaviest(s) by {
        let i = choose|i: int| 0 <= i < s.len() && s[i] == x;
        crate::usage::lemma_heaviest_bound(s, i);
    }
    if s.len() > 0 {
        let h = s.drop_last();
        lemma_heaviest_of(h);
        assert(s[s.len() - 1] == s.last());
        if heaviest(s) > 0 && weight(s.last()) != heaviest(s) {
            let x = choose|x: FileRowView| #[trigger] h.contains(x) && weight(x) == heaviest(h);
            let i = choose|i: int| 0 <= i < h.len() && h[i] == x;
            assert(s[i] == x);
            assert(s.contains(x));
        } else {
            assert(s.contains(s[s.len() - 1]));
        }
    }
}

/// What a tenant stores grows with each record by what that file was not counted for yet:
/// nothing for a deleted record or one of another tenant, the whole length for a file that
/// was not there, and for one that was there what it exceeds the longest record of it by.
pub proof fn each_stored_file_counts_once(files: Seq<FileRowView>, f: FileRowView, tenant: Seq<char>)
    requires
        well_told(f),
        forall|x: FileRowView| #[trigger] files.contains(x) ==> well_told(x),
    ensures
        usage(Seq::empty(), tenant) == 0,
        f.deleted || f.tenant != tenant ==> usage(files.push(f), tenant) == usage(files, tenant),
        !f.deleted && f.tenant == tenant && (forall|x: FileRowView| #[trigger]
            files.contains(x) ==> x.deleted || !one_file(x, f)) ==> usage(files.push(f), tenant)
            == usage(files, tenant) + length_of(f),
        forall|x: FileRowView| #[trigger]
            files.contains(x) && !f.deleted && f.tenant == tenant && !x.deleted && one_file(x, f)
                && (forall|y: FileRowView| #[trigger]
                files.contains(y) && !y.deleted && one_file(y, f) ==> length_of(y) <= length_of(x))
                ==> usage(files.push(f), tenant) == usage(files, tenant) + if length_of(f)
                > length_of(x) {
                length_of(f) - length_of(x)
            } else {
                0
            },
{
    let p = rival_of(f);
    let rivals = files.filter(p);
    assert(files.push(f).drop_last() =~= files);
    lemma_selected(files, p);
    lemma_heaviest_of(rivals);
    assert forall|x: FileRowView| #[trigger] p(x) <==> !x.deleted && one_file(x, f) by {
        lemma_one_file(x, f);
    }
    assert forall|x: FileRowView| #[trigger] files.contains(x) implies weight(x) == length_of(x) by {}
    assert(weight(f) == length_of(f));
    if forall|x: FileRowView| #[trigger] files.contains(x) ==> x.deleted || !one_file(x, f) {
        if heaviest(rivals) > 0 {
            let x = choose|x: FileRowView| #[trigger]
                rivals.contains(x) && weight(x) == heaviest(rivals);
            assert(files.contains(x) && p(x));
        }
    }
    assert forall|x: FileRowView| #[trigger]
        files.contains(x) && !f.deleted && f.tenant == tenant && !x.deleted && one_file(x, f) && (
        forall|y: FileRowView| #[trigger]
            files.contains(y) && !y.deleted && one_file(y, f) ==> length_of(y) <= length_of(
                x,
            )) implies usage(files.push(f), tenant) == usage(files, tenant) + if length_of(f)
        > length_of(x) {
        length_of(f) - length_of(x)
    } else {
        0
    } by {
        assert(p(x));
        assert(rivals.contains(x));
        if heaviest(rivals) > 0 {
            let y = choose|y: FileRowView| #[trigger]
                rivals.contains(y) && weight(y) == heaviest(rivals);
            assert(files.contains(y) && p(y));
        }
        assert(heaviest(rivals) == length_of(x));
    }
}

/// A tenant whose accounts are true and whose records tell their length is told what it
/// stores, up to the greatest number; it is never refused.
pub proof fn usage_is_told(s: StoreView, tenant: Seq<char>)
    requires
        sound(s.quotas, s.files),
        forall|x: FileRowView| #[trigger] s.files.contains(x) ==> well_told(x),
    ensures
        received(s, tenant) matches Ok((after, bytes)) && {
            &&& usage(s.files, tenant) <= u64::MAX ==> bytes == usage(s.files, tenant)
            &&& usage(s.files, tenant) > u64::MAX ==> bytes == u64::MAX
            &&& after == StoreView { quotas: after.quotas, ..s }
        },
{
    crate::table::lemma_first_found(s.quotas, quota_is(tenant));
    lemma_selected(s.files, live_in(tenant));
    if any(s.files.filter(live_in(tenant)), misshapen()) {
        let k = choose|k: int|
            0 <= k < s.files.filter(live_in(tenant)).len() && misshapen()(
                #[trigger] s.files.filter(live_in(tenant))[k],
            );
        assert(s.files.filter(live_in(tenant)).contains(s.files.filter(live_in(tenant))[k]));
    }
    match first(s.quotas, quota_is(tenant)) {
        None => {
            assert(!any(s.quotas, quota_is(tenant)));
        },
        Some(q) => {
            let k = choose|k: int| 0 <= k < s.quotas.len() && s.quotas[k] == q;
            assert(crate::quota::true_of(s.quotas[k], s.files));
        },
    }
    crate::usage::tenants_are_told_their_usage(s, tenant);
    crate::quota::lemma_usage_natural(s.files, tenant);
}

proof fn lemma_leaders(s: Seq<FileRowView>)
    requires
        in_order(s),
    ensures
        forall|x: FileRowView| #[trigger] leaders(s).contains(x) ==> s.contains(x),
        forall|i: int, j: int|
            0 <= i < j < leaders(s).len() ==> !same_object(leaders(s)[i], leaders(s)[j]),
        forall|x: FileRowView, y: FileRowView| #[trigger]
            leaders(s).contains(x) && #[trigger] s.contains(y) && same_object(x, y)
                ==> !counting_order()(y, x),
        forall|y: FileRowView| #[trigger]
            s.contains(y) ==> exists|x: FileRowView| #[trigger]
                leaders(s).contains(x) && same_object(x, y),
    decreases s.len(),
{
    if s.len() > 0 {
        let h = s.drop_last();
        let z = s.last();
        let n = s.len() - 1;
        assert forall|i: int, j: int| 0 <= i < j < h.len() implies !counting_order()(h[j], h[i]) by {
            assert(!counting_order()(s[j], s[i]));
        }
        lemma_leaders(h);
        let before = leaders(h);
        let now = leaders(s);
        let more = !(s.len() > 1 && same_object(s[n - 1], z));
        assert forall|x: FileRowView| h.contains(x) implies s.contains(x) by {
            let i = choose|i: int| 0 <= i < h.len() && h[i] == x;
            assert(s[i] == x);
        }
        assert forall|x: FileRowView| s.contains(x) implies h.contains(x) || x == z by {
            let i = choose|i: int| 0 <= i < s.len() && s[i] == x;
            if i < n {
                assert(h[i] == x);
            }
        }
        assert(s[n] == z);
        assert(s.contains(z));
        assert forall|x: FileRowView| before.contains(x) implies now.contains(x) by {
            let i = choose|i: int| 0 <= i < before.len() && before[i] == x;
            assert(now[i] == x);
        }
        assert forall|x: FileRowView| now.contains(x) implies before.contains(x) || (more && x
            == z) by {
            let i = choose|i: int| 0 <= i < now.len() && now[i] == x;
            if i < before.len() {
                assert(before[i] == x);
            }
        }
        if more {
            assert(now[before.len() as int] == z);
            assert(now.contains(z));
            assert forall|x: FileRowView| #[trigger] h.contains(x) implies !same_object(x, z) by {
                let k = choose|k: int| 0 <= k < h.len() && h[k] == x;
                assert(s[k] == x);
                lemma_first_of_object(s, n, k);
            }
        }
        assert forall|i: int, j: int| 0 <= i < j < now.len() implies !same_object(now[i], now[j]) by {
            if j < before.len() {
                assert(!same_object(before[i], before[j]));
            } else {
                assert(before.contains(before[i]));
                assert(h.contains(now[i]));
            }
        }
        assert forall|x: FileRowView, y: FileRowView| #[trigger]
            now.contains(x) && #[trigger] s.contains(y) && same_object(
                x,
                y,
            ) implies !counting_order()(y, x) by {
            if before.contains(x) && h.contains(y) {
            } else if before.contains(x) {
                assert(h.contains(x));
                let k = choose|k: int| 0 <= k < h.len() && h[k] == x;
                assert(s[k] == x);
                assert(!counting_order()(s[n], s[k]));
            } else if h.contains(y) {
                assert(!same_object(y, z));
            }
        }
        assert forall|y: FileRowView| #[trigger] s.contains(y) implies exists|x: FileRowView|
         #[trigger]
            now.contains(x) && same_object(x, y) by {
            if h.contains(y) {
                let x = choose|x: FileRowView| #[trigger]
                    before.contains(x) && same_object(x, y);
                assert(now.contains(x));
            } else if !more {
                let w = s[n - 1];
                assert(h[n - 1] == w);
                assert(h.contains(w));
                let x = choose|x: FileRowView| #[trigger]
                    before.contains(x) && same_object(x, w);
                assert(now.contains(x));
                assert(same_object(x, z));
            }
        }
    }
}

/// The stored files of a tenant are told once each: the records told are live records of the
/// tenant, no two of the same file, each the longest of its file, and no file is left out.
pub proof fn stored_files_are_told_once(files: Seq<FileRowView>, tenant: Seq<char>)
    ensures
        stored_files(files, live_in(tenant)) matches Ok(told) ==> {
            &&& forall|x: FileRowView| #[trigger]
                told.contains(x) ==> files.contains(x) && x.tenant == tenant && !x.deleted
                    && well_told(x)
            &&& forall|i: int, j: int| 0 <= i < j < told.len() ==> !one_file(told[i], told[j])
            &&& forall|y: FileRowView| #[trigger]
                files.contains(y) && y.tenant == tenant && !y.deleted ==> exists|x: FileRowView|
                 #[trigger]
                    told.contains(x) && one_file(x, y) && length_of(y) <= length_of(x)
        },
        (forall|x: FileRowView| #[trigger] files.contains(x) ==> well_told(x)) ==> stored_files(
            files,
            live_in(tenant),
        ) is Ok,
{
    let p = live_in(tenant);
    let chosen = files.filter(p);
    let s = sorted_by(chosen, counting_order());
    lemma_selected(files, p);
    lemma_ordered(chosen, counting_order());
    lemma_sorted_in_order(chosen);
    lemma_leaders(s);
    lemma_found(chosen, misshapen());
    if let Ok(told) = stored_files(files, p) {
        assert forall|x: FileRowView| #[trigger] told.contains(x) implies files.contains(x)
            && x.tenant == tenant && !x.deleted && well_told(x) by {
            assert(s.contains(x));
            assert(chosen.contains(x));
            assert(!misshapen()(x));
        }
        assert forall|y: FileRowView| #[trigger]
            files.contains(y) && y.tenant == tenant && !y.deleted implies exists|x: FileRowView|
         #[trigger]
            told.contains(x) && one_file(x, y) && length_of(y) <= length_of(x) by {
            assert(p(y));
            assert(chosen.contains(y));
            assert(s.contains(y));
            let x = choose|x: FileRowView| #[trigger] told.contains(x) && same_object(x, y);
            assert(!counting_order()(y, x));
            assert(!misshapen()(y));
            assert(chosen.contains(x));
            assert(!misshapen()(x));
            lemma_one_file(x, y);
        }
        assert forall|i: int, j: int| 0 <= i < j < told.len() implies !one_file(told[i], told[j]) by {
            lemma_one_file(told[i], told[j]);
        }
    }
}

// ------------------------------------------------------------------- reports
proof fn lemma_namespaces(s: StoreView)
    ensures
        forall|t: Seq<char>| #[trigger]
            namespaces(s).contains(t) <==> t.len() == 0 || (exists|x: TenantRowView| #[trigger]
                s.tenants.contains(x) && x.key == t) || (exists|l: LinkRowView| #[trigger]
                s.links.contains(l) && l.tenant == t),
{
    let keys = s.tenants.map_values(tenant_key());
    let owners = s.links.map_values(link_tenant());
    let all = seq![Seq::<char>::empty()] + keys + owners;
    crate::table::lemma_distinct(all);
    lemma_ordered(distinct(all), text_order());
    assert forall|t: Seq<char>| #[trigger] namespaces(s).contains(t) <==> t.len() == 0 || (
    exists|x: TenantRowView| #[trigger] s.tenants.contains(x) && x.key == t) || (exists|
        l: LinkRowView,
    | #[trigger] s.links.contains(l) && l.tenant == t) by {
        if t.len() == 0 {
            assert(t =~= Seq::empty());
            assert(all[0] == t);
        }
        if exists|x: TenantRowView| #[trigger] s.tenants.contains(x) && x.key == t {
            let x = choose|x: TenantRowView| #[trigger] s.tenants.contains(x) && x.key == t;
            let i = choose|i: int| 0 <= i < s.tenants.len() && s.tenants[i] == x;
            assert(keys[i] == t);
            assert(all[1 + i] == t);
        }
        if exists|l: LinkRowView| #[trigger] s.links.contains(l) && l.tenant == t {
            let l = choose|l: LinkRowView| #[trigger] s.links.contains(l) && l.tenant == t;
            let i = choose|i: int| 0 <= i < s.links.len() && s.links[i] == l;
            assert(owners[i] == t);
            assert(all[1 + keys.len() + i] == t);
        }
        if all.contains(t) && t.len() > 0 {
            let i = choose|i: int| 0 <= i < all.len() && all[i] == t;
            if 1 <= i < 1 + keys.len() {
                assert(s.tenants.contains(s.tenants[i - 1]));
                assert(keys[i - 1] == t);
            } else if i > 0 {
                let k = i - 1 - keys.len();
                assert(s.links.contains(s.links[k]));
                assert(owners[k] == t);
            }
        }
    }
}

/// The report of what is used has one line for the default namespace, each tenant and each
/// owner of a link, and no other; each tells how many links there are of it, and where the
/// accounts are true, what it stores.
pub proof fn reports_tell_every_namespace(s: StoreView)
    requires
        s.links.len() <= u64::MAX,
    ensures
        usages(s) matches Ok((after, list)) ==> {
            &&& forall|u: TenantUsageView| #[trigger]
                list.contains(u) ==> u.links == s.links.filter(
                    |l: LinkRowView| l.tenant == u.tenant,
                ).len()
            &&& forall|u: TenantUsageView| #[trigger]
                list.contains(u) ==> u.tenant.len() == 0 || (exists|x: TenantRowView| #[trigger]
                    s.tenants.contains(x) && x.key == u.tenant) || (exists|l: LinkRowView|
                 #[trigger]
                    s.links.contains(l) && l.tenant == u.tenant)
            &&& forall|x: TenantRowView| #[trigger]
                s.tenants.contains(x) ==> exists|u: TenantUsageView| #[trigger]
                    list.contains(u) && u.tenant == x.key
            &&& forall|l: LinkRowView| #[trigger]
                s.links.contains(l) ==> exists|u: TenantUsageView| #[trigger]
                    list.contains(u) && u.tenant == l.tenant
            &&& exists|u: TenantUsageView| #[trigger] list.contains(u) && u.tenant.len() == 0
            &&& sound(s.quotas, s.files) ==> forall|u: TenantUsageView| #[trigger]
                list.contains(u) ==> u.received_bytes == if usage(s.files, u.tenant) <= u64::MAX {
                    usage(s.files, u.tenant)
                } else {
                    u64::MAX as int
                }
            &&& after == StoreView { quotas: after.quotas, ..s }
        },
{
    if let Ok((after, list)) = usages(s) {
        let names = namespaces(s);
        let f = usage_of(after.quotas, s.links);
        lemma_namespaces(s);
        lemma_read(names, f);
        assert forall|u: TenantUsageView| #[trigger] list.contains(u) implies names.contains(u.tenant)
            && u.links == s.links.filter(|l: LinkRowView| l.tenant == u.tenant).len() by {
            let i = choose|i: int| 0 <= i < list.len() && list[i] == u;
            assert(f(names[i]) == Ok::<TenantUsageView, Seq<char>>(list[i]));
            let raw = |l: LinkRowView| l.tenant == u.tenant;
            lemma_counted(s.links, link_in(u.tenant), raw);
            lemma_selected(s.links, raw);
        }
        assert forall|t: Seq<char>| names.contains(t) implies exists|u: TenantUsageView| #[trigger]
            list.contains(u) && u.tenant == t by {
            let i = choose|i: int| 0 <= i < names.len() && names[i] == t;
            assert(f(names[i]) == Ok::<TenantUsageView, Seq<char>>(list[i]));
            assert(list.contains(list[i]));
        }
        assert(names.contains(Seq::empty()));
        assert forall|x: TenantRowView| #[trigger]
            s.tenants.contains(x) implies exists|u: TenantUsageView| #[trigger]
            list.contains(u) && u.tenant == x.key by {
            assert(names.contains(x.key));
        }
        assert forall|l: LinkRowView| #[trigger]
            s.links.contains(l) implies exists|u: TenantUsageView| #[trigger]
            list.contains(u) && u.tenant == l.tenant by {
            assert(names.contains(l.tenant));
        }
        if sound(s.quotas, s.files) {
            assert forall|u: TenantUsageView| #[trigger]
                list.contains(u) implies u.received_bytes == if usage(s.files, u.tenant)
                <= u64::MAX {
                usage(s.files, u.tenant)
            } else {
                u64::MAX as int
            } by {
                let i = choose|i: int| 0 <= i < list.len() && list[i] == u;
                crate::usage::reports_agree_with_admission(s, i);
                crate::quota::lemma_usage_natural(s.files, u.tenant);
            }
        }
    }
}

} // verus!
