//! Upload sessions in progress.
use vstd::prelude::*;

use crate::clock::{clock_gave, now_unix, time_of};
use crate::columns::{
    column, from_column, index_of, natural, optional_column, size_to_column, to_column, to_index,
    to_optional_column,
};
use crate::hexadecimal::{array16, array32, hex_bytes, hex_decode, hex_encode, hex_text, is_hex};
use crate::kinds::{CommitProfile, NasContract};
use crate::records::{
    ObjectId, ObjectIdView, PendingUploadPath, PendingUploadPathView, PersistedUploadFile,
    PersistedUploadFileView, PersistedUploadSession, PersistedUploadSessionView,
};
use crate::rows::{SessionFileRow, SessionFileRowView, SessionRow, SessionRowView};
use crate::store::{Store, StoreView, follows};
use crate::table::{
    Row, any, append_row, append_rows, count, delete_where, dup_option, dup_rows, exists_where,
    find, first, outcome, project, select, sort_rows, sorted_by, try_map, try_project, update_where,
    updated,
};
use crate::text::same;
use crate::usage::session_file_of;

verus! {

// ------------------------------------------------------------ specifications
/// The refusal of an object root that is not one.
pub open spec fn bad_root() -> Seq<char> {
    "Conversion error from type Text at index: 0, object root is not 32 bytes"@
}

/// The object that columns stand for.
pub open spec fn object_of(suite: i64, root: Seq<char>, length: i64) -> Result<
    ObjectIdView,
    Seq<char>,
> {
    if is_hex(root) && root.len() == 64 {
        Ok(
            ObjectIdView {
                suite: if 0 <= suite <= u16::MAX {
                    suite as u16
                } else {
                    0
                },
                root: hex_bytes(root),
                length: natural(length),
            },
        )
    } else {
        Err(bad_root())
    }
}

/// The name of a commit profile.
pub open spec fn profile_name(p: CommitProfile) -> Seq<char> {
    match p {
        CommitProfile::Fast => "fast"@,
        CommitProfile::Balanced => "balanced"@,
        CommitProfile::Strict => "strict"@,
    }
}

/// The commit profile of a name.
pub open spec fn profile_named(s: Seq<char>) -> Option<CommitProfile> {
    if s == "fast"@ {
        Some(CommitProfile::Fast)
    } else if s == "balanced"@ {
        Some(CommitProfile::Balanced)
    } else if s == "strict"@ {
        Some(CommitProfile::Strict)
    } else {
        None
    }
}

/// The name of a storage contract.
pub open spec fn contract_name(c: NasContract) -> Seq<char> {
    match c {
        NasContract::Unqualified => "unqualified"@,
        NasContract::ServerAcknowledged => "server_acknowledged"@,
    }
}

/// The storage contract of a name.
pub open spec fn contract_named(s: Seq<char>) -> Option<NasContract> {
    if s == "unqualified"@ {
        Some(NasContract::Unqualified)
    } else if s == "server_acknowledged"@ {
        Some(NasContract::ServerAcknowledged)
    } else {
        None
    }
}

/// The session that a row stands for, without its files.
pub open spec fn session_of() -> spec_fn(SessionRowView) -> Result<
    PersistedUploadSessionView,
    Seq<char>,
> {
    |s: SessionRowView|
        match object_of(s.package_suite, s.package_root, s.package_length) {
            Err(e) => Err(e),
            Ok(package) => Ok(
                PersistedUploadSessionView {
                    committed_upload_id: s.committed_upload_id,
                    push_key: s.push_key,
                    id: s.id,
                    link_id: s.link_id,
                    tenant: s.tenant,
                    dest_dir: s.dest_dir,
                    dest_rel: s.dest_rel,
                    package,
                    max_total_bytes: match s.max_total_bytes {
                        Some(n) => Some(natural(n)),
                        None => None,
                    },
                    started_at: natural(s.started_at),
                    files: Seq::empty(),
                },
            ),
        }
}

/// The file that a row of a session stands for.
pub open spec fn session_file_read() -> spec_fn(SessionFileRowView) -> Result<
    PersistedUploadFileView,
    Seq<char>,
> {
    |f: SessionFileRowView|
        if !is_hex(f.incarnation) || f.incarnation.len() != 32 {
            Err("Conversion error from type Text at index: 8, incarnation is not 16 bytes"@)
        } else {
            match object_of(f.object_suite, f.object_root, f.object_length) {
                Err(e) => Err(e),
                Ok(object) => match profile_named(f.commit_profile) {
                    None => Err(
                        "Conversion error from type Text at index: 12, invalid commit profile"@,
                    ),
                    Some(profile) => match contract_named(f.nas_contract) {
                        None => Err(
                            "Conversion error from type Text at index: 13, invalid NAS contract"@,
                        ),
                        Some(nas_contract) => Ok(
                            PersistedUploadFileView {
                                entry: index_of(f.entry),
                                display_path: f.display_path,
                                stored_components: if f.components_error is Some {
                                    Seq::empty()
                                } else {
                                    f.stored_components
                                },
                                object,
                                staging_path: f.staging_path,
                                journal_path: f.journal_path,
                                incarnation: hex_bytes(f.incarnation),
                                profile,
                                nas_contract,
                                prefix_bytes: natural(f.prefix_bytes),
                                published: f.published,
                                receipt: f.receipt,
                            },
                        ),
                    },
                },
            }
        }
}

/// Lower entries first.
pub open spec fn lower_entry() -> spec_fn(SessionFileRowView, SessionFileRowView) -> bool {
    |a: SessionFileRowView, b: SessionFileRowView| a.entry < b.entry
}

/// A session with its files.
pub open spec fn session_filled(files: Seq<SessionFileRowView>) -> spec_fn(
    PersistedUploadSessionView,
) -> Result<PersistedUploadSessionView, Seq<char>> {
    |s: PersistedUploadSessionView|
        match try_map(
            sorted_by(files.filter(session_file_of(s.id)), lower_entry()),
            session_file_read(),
        ) {
            Err(e) => Err(e),
            Ok(files) => Ok(PersistedUploadSessionView { files, ..s }),
        }
}

/// Sessions of a push, or of one under a key.
pub open spec fn session_asked(push_only: bool, push_key: Option<Seq<char>>) -> spec_fn(
    SessionRowView,
) -> bool {
    |s: SessionRowView|
        (!push_only || s.push_key is Some) && (push_key is None || s.push_key == push_key)
}

/// Older sessions first.
pub open spec fn older_session() -> spec_fn(SessionRowView, SessionRowView) -> bool {
    |a: SessionRowView, b: SessionRowView| a.created_at < b.created_at
}

/// Sessions with their files, oldest first.
pub open spec fn sessions_loaded(s: StoreView, push_only: bool, push_key: Option<Seq<char>>) -> Result<
    Seq<PersistedUploadSessionView>,
    Seq<char>,
> {
    match try_map(
        sorted_by(s.sessions.filter(session_asked(push_only, push_key)), older_session()),
        session_of(),
    ) {
        Err(e) => Err(e),
        Ok(sessions) => try_map(sessions, session_filled(s.session_files)),
    }
}

/// Sessions under an id or push key that have become uploads.
pub open spec fn completed_as(id: Seq<char>, push_key: Option<Seq<char>>) -> spec_fn(
    SessionRowView,
) -> bool {
    |s: SessionRowView|
        (s.id == id || (push_key is Some && s.push_key == push_key)) && s.committed_upload_id is Some
}

/// Sessions that another under an id and push key replaces.
pub open spec fn superseded(id: Seq<char>, push_key: Option<Seq<char>>) -> spec_fn(
    SessionRowView,
) -> bool {
    |s: SessionRowView| s.id == id || (push_key is Some && s.push_key == push_key)
}

/// Sessions that stay beside another under an id and push key.
pub open spec fn unaffected(id: Seq<char>, push_key: Option<Seq<char>>) -> spec_fn(
    SessionRowView,
) -> bool {
    |s: SessionRowView| !superseded(id, push_key)(s)
}

/// The row of a session.
pub open spec fn session_row(s: PersistedUploadSessionView, now: u64) -> SessionRowView {
    SessionRowView {
        id: s.id,
        link_id: s.link_id,
        tenant: s.tenant,
        dest_dir: s.dest_dir,
        dest_rel: s.dest_rel,
        package_suite: s.package.suite as i64,
        package_root: hex_text(s.package.root),
        package_length: column(s.package.length),
        max_total_bytes: optional_column(s.max_total_bytes),
        started_at: column(s.started_at),
        created_at: column(now),
        push_key: s.push_key,
        committed_upload_id: None,
    }
}

/// The row of a session's file.
pub open spec fn session_file_row(id: Seq<char>) -> spec_fn(PersistedUploadFileView) -> SessionFileRowView {
    |f: PersistedUploadFileView|
        SessionFileRowView {
            session_id: id,
            entry: column(f.entry as u64),
            display_path: f.display_path,
            stored_components: f.stored_components,
            components_error: None,
            object_suite: f.object.suite as i64,
            object_root: hex_text(f.object.root),
            object_length: column(f.object.length),
            staging_path: f.staging_path,
            journal_path: f.journal_path,
            incarnation: hex_text(f.incarnation),
            prefix_bytes: column(f.prefix_bytes),
            published: f.published,
            receipt: f.receipt,
            commit_profile: profile_name(f.profile),
            nas_contract: contract_name(f.nas_contract),
        }
}

/// Files of other sessions.
pub open spec fn session_file_of_others(id: Seq<char>) -> spec_fn(SessionFileRowView) -> bool {
    |f: SessionFileRowView| f.session_id != id
}

/// Whether two files of a session have the same entry.
pub open spec fn entries_clash(files: Seq<PersistedUploadFileView>) -> bool {
    exists|i: int, j: int|
        0 <= i < j < files.len() && column((#[trigger] files[i]).entry as u64) == column(
            (#[trigger] files[j]).entry as u64,
        )
}

/// A session recorded at time `now`, in place of one under its id or push key.
pub open spec fn admitted_session(s: StoreView, session: PersistedUploadSessionView, now: u64) -> Result<
    (StoreView, ()),
    Seq<char>,
> {
    if any(s.sessions, completed_as(session.id, session.push_key)) || session.committed_upload_id
        is Some {
        Err("completed upload is awaiting publication cleanup"@)
    } else if entries_clash(session.files) {
        Err(
            "UNIQUE constraint failed: upload_session_files.session_id, upload_session_files.entry"@,
        )
    } else {
        Ok(
            (
                StoreView {
                    sessions: s.sessions.filter(
                        unaffected(session.id, session.push_key),
                    ).push(session_row(session, now)),
                    session_files: s.session_files.filter(session_file_of_others(session.id))
                        + session.files.map_values(session_file_row(session.id)),
                    ..s
                },
                (),
            ),
        )
    }
}

/// One entry of a session.
pub open spec fn entry_of(id: Seq<char>, entry: i64) -> spec_fn(SessionFileRowView) -> bool {
    |f: SessionFileRowView| f.session_id == id && f.entry == entry
}

/// A file of a session with its progress.
pub open spec fn progressed(prefix_bytes: i64, published: bool, receipt: bool) -> spec_fn(
    SessionFileRowView,
) -> SessionFileRowView {
    |f: SessionFileRowView| SessionFileRowView { prefix_bytes, published, receipt, ..f }
}

/// The progress of one entry: the covered prefix, whether it is published, and
/// whether its receipt was written.
pub type Progress = (usize, u64, bool, bool);

/// The files of sessions after checkpoints were taken one by one.
pub open spec fn checkpointed(
    files: Seq<SessionFileRowView>,
    id: Seq<char>,
    progress: Seq<Progress>,
) -> Result<Seq<SessionFileRowView>, Seq<char>>
    decreases progress.len(),
{
    if progress.len() == 0 {
        Ok(files)
    } else {
        match checkpointed(files, id, progress.drop_last()) {
            Err(e) => Err(e),
            Ok(files) => {
                let p = progress.last();
                let hit = entry_of(id, column(p.0 as u64));
                if count(files, hit) == 1 {
                    Ok(updated(files, hit, progressed(column(p.1), p.2, p.3)))
                } else {
                    Err("upload admission is missing at checkpoint"@)
                }
            },
        }
    }
}

/// A session of a tenant that has not become an upload.
pub open spec fn pending_session(tenant: Seq<char>, id: Seq<char>) -> spec_fn(SessionRowView) -> bool {
    |s: SessionRowView| s.tenant == tenant && s.id == id && s.committed_upload_id is None
}

/// Files not yet published of a tenant's sessions in progress.
pub open spec fn unpublished(sessions: Seq<SessionRowView>, tenant: Seq<char>) -> spec_fn(
    SessionFileRowView,
) -> bool {
    |f: SessionFileRowView| !f.published && any(sessions, pending_session(tenant, f.session_id))
}

/// The path that a file of a session will be published to.
pub open spec fn pending_path(sessions: Seq<SessionRowView>, tenant: Seq<char>) -> spec_fn(
    SessionFileRowView,
) -> PendingUploadPathView {
    |f: SessionFileRowView|
        PendingUploadPathView {
            destination: match first(sessions, pending_session(tenant, f.session_id)) {
                Some(s) => s.dest_rel,
                None => Seq::empty(),
            },
            components: f.stored_components,
            components_error: f.components_error,
        }
}

/// Sessions other than one.
pub open spec fn other_session(id: Seq<char>) -> spec_fn(SessionRowView) -> bool {
    |s: SessionRowView| s.id != id
}

/// The session `id`.
pub open spec fn session_is(id: Seq<char>) -> spec_fn(SessionRowView) -> bool {
    |s: SessionRowView| s.id == id
}

// ---------------------------------------------------------------------- laws
/// A commit profile and a storage contract survive being stored.
pub proof fn names_round_trip(p: CommitProfile, c: NasContract)
    ensures
        profile_named(profile_name(p)) == Some(p),
        contract_named(contract_name(c)) == Some(c),
{
    reveal_strlit("fast");
    reveal_strlit("balanced");
    reveal_strlit("strict");
    reveal_strlit("unqualified");
    reveal_strlit("server_acknowledged");
    assert("fast"@.len() == 4);
    assert("balanced"@.len() == 8);
    assert("strict"@.len() == 6);
    assert("unqualified"@.len() == 11);
    assert("server_acknowledged"@.len() == 19);
}

/// A session's file whose numbers fit in their columns is loaded as it was
/// recorded.
pub proof fn session_file_round_trip(id: Seq<char>, f: PersistedUploadFileView)
    requires
        f.entry <= i64::MAX,
        f.prefix_bytes <= i64::MAX,
        f.object.length <= i64::MAX,
        f.object.root.len() == 32,
        f.incarnation.len() == 16,
    ensures
        session_file_read()(session_file_row(id)(f)) == Ok::<PersistedUploadFileView, Seq<char>>(f),
{
    crate::hexadecimal::hex_round_trip(f.object.root);
    crate::hexadecimal::hex_round_trip(f.incarnation);
    names_round_trip(f.profile, f.nas_contract);
}

// ---------------------------------------------------------------- operations
/// The object that columns stand for.
pub fn object_from_row(suite: i64, root: &str, length: i64) -> (r: Result<ObjectId, String>)
    ensures
        outcome(r) == object_of(suite, root@, length),
{
    if let Some(bytes) = hex_decode(root) {
        if bytes.len() == 32 {
            return Ok(
                ObjectId {
                    suite: if 0 <= suite && suite <= u16::MAX as i64 {
                        suite as u16
                    } else {
                        0
                    },
                    root: array32(&bytes),
                    length: from_column(length),
                },
            );
        }
    }
    Err("Conversion error from type Text at index: 0, object root is not 32 bytes".to_owned())
}

fn name_of_profile(p: CommitProfile) -> (s: String)
    ensures
        s@ == profile_name(p),
{
    match p {
        CommitProfile::Fast => "fast".to_owned(),
        CommitProfile::Balanced => "balanced".to_owned(),
        CommitProfile::Strict => "strict".to_owned(),
    }
}

fn profile_by_name(s: &str) -> (p: Option<CommitProfile>)
    ensures
        p == profile_named(s@),
{
    if same(s, "fast") {
        Some(CommitProfile::Fast)
    } else if same(s, "balanced") {
        Some(CommitProfile::Balanced)
    } else if same(s, "strict") {
        Some(CommitProfile::Strict)
    } else {
        None
    }
}

fn name_of_contract(c: NasContract) -> (s: String)
    ensures
        s@ == contract_name(c),
{
    match c {
        NasContract::Unqualified => "unqualified".to_owned(),
        NasContract::ServerAcknowledged => "server_acknowledged".to_owned(),
    }
}

fn contract_by_name(s: &str) -> (c: Option<NasContract>)
    ensures
        c == contract_named(s@),
{
    if same(s, "unqualified") {
        Some(NasContract::Unqualified)
    } else if same(s, "server_acknowledged") {
        Some(NasContract::ServerAcknowledged)
    } else {
        None
    }
}

fn read_session(s: &SessionRow) -> (r: Result<PersistedUploadSession, String>)
    ensures
        outcome(r) == session_of()(s@),
{
    let package = match object_from_row(
        s.package_suite,
        s.package_root.as_str(),
        s.package_length,
    ) {
        Ok(package) => package,
        Err(error) => {
            return Err(error);
        },
    };
    let files: Vec<PersistedUploadFile> = Vec::new();
    assert(files.deep_view() =~= Seq::<PersistedUploadFileView>::empty());
    Ok(
        PersistedUploadSession {
            committed_upload_id: dup_option(&s.committed_upload_id),
            push_key: dup_option(&s.push_key),
            id: s.id.clone(),
            link_id: s.link_id.clone(),
            tenant: s.tenant.clone(),
            dest_dir: s.dest_dir.clone(),
            dest_rel: s.dest_rel.clone(),
            package,
            max_total_bytes: match s.max_total_bytes {
                Some(n) => Some(from_column(n)),
                None => None,
            },
            started_at: from_column(s.started_at),
            files,
        },
    )
}

fn read_session_file(f: &SessionFileRow) -> (r: Result<PersistedUploadFile, String>)
    ensures
        outcome(r) == session_file_read()(f@),
{
    let bytes = match hex_decode(f.incarnation.as_str()) {
        Some(bytes) => bytes,
        None => {
            return Err(
                "Conversion error from type Text at index: 8, incarnation is not 16 bytes".to_owned(),
            );
        },
    };
    if bytes.len() != 16 {
        return Err(
            "Conversion error from type Text at index: 8, incarnation is not 16 bytes".to_owned(),
        );
    }
    let object = match object_from_row(f.object_suite, f.object_root.as_str(), f.object_length) {
        Ok(object) => object,
        Err(error) => {
            return Err(error);
        },
    };
    let profile = match profile_by_name(f.commit_profile.as_str()) {
        Some(profile) => profile,
        None => {
            return Err(
                "Conversion error from type Text at index: 12, invalid commit profile".to_owned(),
            );
        },
    };
    let nas_contract = match contract_by_name(f.nas_contract.as_str()) {
        Some(contract) => contract,
        None => {
            return Err(
                "Conversion error from type Text at index: 13, invalid NAS contract".to_owned(),
            );
        },
    };
    let stored_components = if f.components_error.is_some() {
        let none: Vec<String> = Vec::new();
        assert(none.deep_view() =~= Seq::<Seq<char>>::empty());
        none
    } else {
        dup_rows(&f.stored_components)
    };
    Ok(
        PersistedUploadFile {
            entry: to_index(f.entry),
            display_path: f.display_path.clone(),
            stored_components,
            object,
            staging_path: f.staging_path.clone(),
            journal_path: f.journal_path.clone(),
            incarnation: array16(&bytes),
            profile,
            nas_contract,
            prefix_bytes: from_column(f.prefix_bytes),
            published: f.published,
            receipt: f.receipt,
        },
    )
}

fn fill_session(files: &Vec<SessionFileRow>, s: &PersistedUploadSession) -> (r: Result<
    PersistedUploadSession,
    String,
>)
    ensures
        outcome(r) == session_filled(files.deep_view())(s@),
{
    let id = s.id.as_str();
    let own = |f: &SessionFileRow| -> (b: bool)
        ensures
            b == session_file_of(id@)(f@),
    {
        same(f.session_id.as_str(), id)
    };
    let lower = |a: &SessionFileRow, b: &SessionFileRow| -> (r: bool)
        ensures
            r == lower_entry()(a@, b@),
    {
        a.entry < b.entry
    };
    let read = |f: &SessionFileRow| -> (r: Result<PersistedUploadFile, String>)
        ensures
            outcome(r) == session_file_read()(f@),
    {
        read_session_file(f)
    };
    let rows = select(files, own, Ghost(session_file_of(id@)));
    let rows = sort_rows(rows, lower, Ghost(lower_entry()));
    match try_project(&rows, read, Ghost(session_file_read())) {
        Ok(files) => {
            let mut filled = s.dup();
            filled.files = files;
            Ok(filled)
        },
        Err(error) => Err(error),
    }
}

fn file_row(id: &str, f: &PersistedUploadFile) -> (r: SessionFileRow)
    ensures
        r@ == session_file_row(id@)(f@),
{
    SessionFileRow {
        session_id: id.to_owned(),
        entry: size_to_column(f.entry),
        display_path: f.display_path.clone(),
        stored_components: dup_rows(&f.stored_components),
        components_error: None,
        object_suite: f.object.suite as i64,
        object_root: hex_encode(f.object.root.as_slice()),
        object_length: to_column(f.object.length),
        staging_path: f.staging_path.clone(),
        journal_path: f.journal_path.clone(),
        incarnation: hex_encode(f.incarnation.as_slice()),
        prefix_bytes: to_column(f.prefix_bytes),
        published: f.published,
        receipt: f.receipt,
        commit_profile: name_of_profile(f.profile),
        nas_contract: name_of_contract(f.nas_contract),
    }
}

fn has_clash(files: &Vec<PersistedUploadFile>) -> (r: bool)
    ensures
        r == entries_clash(files.deep_view()),
{
    let ghost all = files.deep_view();
    let mut i: usize = 0;
    while i < files.len()
        invariant
            i <= files.len(),
            all == files.deep_view(),
            forall|a: int, b: int|
                0 <= a < b < all.len() && a < i ==> column((#[trigger] all[a]).entry as u64)
                    != column((#[trigger] all[b]).entry as u64),
        decreases files.len() - i,
    {
        let mut j: usize = i + 1;
        while j < files.len()
            invariant
                i < j <= files.len(),
                all == files.deep_view(),
                forall|b: int|
                    i < b < j ==> column(all[i as int].entry as u64) != column(
                        (#[trigger] all[b]).entry as u64,
                    ),
            decreases files.len() - j,
        {
            if size_to_column(files[i].entry) == size_to_column(files[j].entry) {
                assert(column(all[i as int].entry as u64) == column(all[j as int].entry as u64));
                return true;
            }
            j += 1;
        }
        i += 1;
    }
    false
}

fn is_superseded(s: &SessionRow, id: &str, push_key: &Option<String>) -> (r: bool)
    ensures
        r == superseded(id@, push_key.deep_view())(s@),
{
    same(s.id.as_str(), id) || match (push_key, &s.push_key) {
        (Some(a), Some(b)) => same(a.as_str(), b.as_str()),
        _ => false,
    }
}

proof fn lemma_checkpoint_refused(
    files: Seq<SessionFileRowView>,
    id: Seq<char>,
    progress: Seq<Progress>,
    i: int,
)
    requires
        0 <= i <= progress.len(),
        checkpointed(files, id, progress.take(i)) is Err,
    ensures
        checkpointed(files, id, progress) == checkpointed(files, id, progress.take(i)),
    decreases progress.len() - i,
{
    if i < progress.len() {
        assert(progress.take(i + 1).drop_last() =~= progress.take(i));
        lemma_checkpoint_refused(files, id, progress, i + 1);
    } else {
        assert(progress.take(i) =~= progress);
    }
}

impl Store {
    /// Records a session now, in place of one under its id or push key.
    pub fn insert_upload_session(&mut self, session: &PersistedUploadSession) -> (r: Result<
        (),
        String,
    >)
        ensures
            exists|reading: Option<u64>| #[trigger]
                clock_gave(reading) && follows(
                    admitted_session(old(self)@, session@, time_of(reading)),
                    old(self)@,
                    final(self)@,
                    r,
                ),
    {
        let now: u64 = now_unix();
        self.insert_upload_session_at(session, now)
    }

    /// Records a session at time `now`, in place of one under its id or push
    /// key. A session that has become an upload stays.
    pub fn insert_upload_session_at(&mut self, session: &PersistedUploadSession, now: u64) -> (r: Result<
        (),
        String,
    >)
        ensures
            follows(
                admitted_session(old(self)@, session@, now),
                old(self)@,
                final(self)@,
                r,
            ),
    {
        let id = session.id.as_str();
        let key = &session.push_key;
        let done = |s: &SessionRow| -> (b: bool)
            ensures
                b == completed_as(id@, key.deep_view())(s@),
        {
            is_superseded(s, id, key) && s.committed_upload_id.is_some()
        };
        if exists_where(&self.sessions, done, Ghost(completed_as(id@, key.deep_view())))
            || session.committed_upload_id.is_some() {
            return Err("completed upload is awaiting publication cleanup".to_owned());
        }
        if has_clash(&session.files) {
            return Err(
                "UNIQUE constraint failed: upload_session_files.session_id, upload_session_files.entry".to_owned(),
            );
        }
        let gone = |s: &SessionRow| -> (b: bool)
            ensures
                b == superseded(id@, key.deep_view())(s@),
        {
            is_superseded(s, id, key)
        };
        delete_where(
            &mut self.sessions,
            gone,
            Ghost(superseded(id@, key.deep_view())),
            Ghost(unaffected(id@, key.deep_view())),
        );
        append_row(
            &mut self.sessions,
            SessionRow {
                id: session.id.clone(),
                link_id: session.link_id.clone(),
                tenant: session.tenant.clone(),
                dest_dir: session.dest_dir.clone(),
                dest_rel: session.dest_rel.clone(),
                package_suite: session.package.suite as i64,
                package_root: hex_encode(session.package.root.as_slice()),
                package_length: to_column(session.package.length),
                max_total_bytes: to_optional_column(session.max_total_bytes),
                started_at: to_column(session.started_at),
                created_at: to_column(now),
                push_key: dup_option(&session.push_key),
                committed_upload_id: None,
            },
        );
        let own = |f: &SessionFileRow| -> (b: bool)
            ensures
                b == session_file_of(id@)(f@),
        {
            same(f.session_id.as_str(), id)
        };
        delete_where(
            &mut self.session_files,
            own,
            Ghost(session_file_of(id@)),
            Ghost(session_file_of_others(id@)),
        );
        let row = |f: &PersistedUploadFile| -> (r: SessionFileRow)
            ensures
                r@ == session_file_row(id@)(f@),
        {
            file_row(id, f)
        };
        let rows = project(&session.files, row, Ghost(session_file_row(id@)));
        append_rows(&mut self.session_files, &rows);
        Ok(())
    }

    /// Takes checkpoints of a session's files, all or none.
    pub fn update_upload_file_progress(&mut self, session_id: &str, progress: &[Progress]) -> (r: Result<
        (),
        String,
    >)
        ensures
            follows(
                crate::answers::with_checkpoints(old(self)@, session_id@, progress@),
                old(self)@,
                final(self)@,
                r,
            ),
    {
        let ghost before = self@.session_files;
        let mut files = dup_rows(&self.session_files);
        let mut i: usize = 0;
        assert(progress@.take(0) =~= Seq::<Progress>::empty());
        while i < progress.len()
            invariant
                i <= progress.len(),
                self@ == old(self)@,
                before == old(self)@.session_files,
                checkpointed(before, session_id@, progress@.take(i as int)) == Ok::<
                    Seq<SessionFileRowView>,
                    Seq<char>,
                >(files.deep_view()),
            decreases progress.len() - i,
        {
            let entry: i64 = size_to_column(progress[i].0);
            let prefix_bytes: i64 = to_column(progress[i].1);
            let published = progress[i].2;
            let receipt = progress[i].3;
            proof {
                assert(progress@.take(i + 1).drop_last() =~= progress@.take(i as int));
                assert(progress@.take(i + 1).last() == progress@[i as int]);
            }
            let hit = |f: &SessionFileRow| -> (b: bool)
                ensures
                    b == entry_of(session_id@, entry)(f@),
            {
                same(f.session_id.as_str(), session_id) && f.entry == entry
            };
            let change = |f: &SessionFileRow| -> (r: SessionFileRow)
                ensures
                    r@ == progressed(prefix_bytes, published, receipt)(f@),
            {
                let mut f = f.dup();
                f.prefix_bytes = prefix_bytes;
                f.published = published;
                f.receipt = receipt;
                f
            };
            let n: usize = update_where(
                &mut files,
                hit,
                change,
                Ghost(entry_of(session_id@, entry)),
                Ghost(progressed(prefix_bytes, published, receipt)),
            );
            if n != 1 {
                proof {
                    lemma_checkpoint_refused(before, session_id@, progress@, i + 1);
                }
                return Err("upload admission is missing at checkpoint".to_owned());
            }
            i += 1;
        }
        assert(progress@.take(i as int) =~= progress@);
        self.session_files = files;
        Ok(())
    }

    /// The paths that a tenant's uploads in progress will publish to. A caller
    /// visits them in order, up to the first that does not decode.
    pub fn pending_upload_paths(&self, tenant: &str) -> (r: Vec<PendingUploadPath>)
        ensures
            r.deep_view() == crate::progress::paths_pending(self@, tenant@),
    {
        let sessions = &self.sessions;
        let open = |f: &SessionFileRow| -> (b: bool)
            ensures
                b == unpublished(sessions.deep_view(), tenant@)(f@),
        {
            let id = f.session_id.as_str();
            let own = |s: &SessionRow| -> (b: bool)
                ensures
                    b == pending_session(tenant@, id@)(s@),
            {
                same(s.tenant.as_str(), tenant) && same(s.id.as_str(), id)
                    && s.committed_upload_id.is_none()
            };
            !f.published && exists_where(sessions, own, Ghost(pending_session(tenant@, id@)))
        };
        let path = |f: &SessionFileRow| -> (r: PendingUploadPath)
            ensures
                r@ == pending_path(sessions.deep_view(), tenant@)(f@),
        {
            let id = f.session_id.as_str();
            let own = |s: &SessionRow| -> (b: bool)
                ensures
                    b == pending_session(tenant@, id@)(s@),
            {
                same(s.tenant.as_str(), tenant) && same(s.id.as_str(), id)
                    && s.committed_upload_id.is_none()
            };
            PendingUploadPath {
                destination: match find(sessions, own, Ghost(pending_session(tenant@, id@))) {
                    Some(at) => sessions[at].dest_rel.clone(),
                    None => String::new(),
                },
                components: dup_rows(&f.stored_components),
                components_error: dup_option(&f.components_error),
            }
        };
        let rows = select(
            &self.session_files,
            open,
            Ghost(unpublished(sessions.deep_view(), tenant@)),
        );
        project(&rows, path, Ghost(pending_path(sessions.deep_view(), tenant@)))
    }

    /// Every session with its files.
    pub fn load_upload_sessions(&self) -> (r: Result<Vec<PersistedUploadSession>, String>)
        ensures
            outcome(r) == sessions_loaded(self@, false, None),
    {
        self.load_sessions(false, None)
    }

    /// Every session of a push with its files.
    pub fn load_push_sessions(&self) -> (r: Result<Vec<PersistedUploadSession>, String>)
        ensures
            outcome(r) == sessions_loaded(self@, true, None),
    {
        self.load_sessions(true, None)
    }

    /// The session of the push under a key.
    pub fn load_push_session(&self, key: &str) -> (r: Result<Option<PersistedUploadSession>, String>)
        ensures
            outcome(r) == match sessions_loaded(self@, true, Some(key@)) {
                Err(e) => Err(e),
                Ok(sessions) => Ok(
                    if sessions.len() > 0 {
                        Some(sessions[0])
                    } else {
                        None
                    },
                ),
            },
    {
        match self.load_sessions(true, Some(key)) {
            Ok(sessions) => if sessions.len() > 0 {
                Ok(Some(sessions[0].dup()))
            } else {
                Ok(None)
            },
            Err(error) => Err(error),
        }
    }

    /// Sessions with their files, oldest first.
    pub fn load_sessions(&self, push_only: bool, push_key: Option<&str>) -> (r: Result<
        Vec<PersistedUploadSession>,
        String,
    >)
        ensures
            outcome(r) == sessions_loaded(self@, push_only, push_key.deep_view()),
    {
        let asked = |s: &SessionRow| -> (b: bool)
            ensures
                b == session_asked(push_only, push_key.deep_view())(s@),
        {
            (!push_only || s.push_key.is_some()) && match (push_key, &s.push_key) {
                (None, _) => true,
                (Some(a), Some(b)) => same(a, b.as_str()),
                (Some(_), None) => false,
            }
        };
        let older = |a: &SessionRow, b: &SessionRow| -> (r: bool)
            ensures
                r == older_session()(a@, b@),
        {
            a.created_at < b.created_at
        };
        let read = |s: &SessionRow| -> (r: Result<PersistedUploadSession, String>)
            ensures
                outcome(r) == session_of()(s@),
        {
            read_session(s)
        };
        let files = &self.session_files;
        let fill = |s: &PersistedUploadSession| -> (r: Result<PersistedUploadSession, String>)
            ensures
                outcome(r) == session_filled(files.deep_view())(s@),
        {
            fill_session(files, s)
        };
        let rows = select(
            &self.sessions,
            asked,
            Ghost(session_asked(push_only, push_key.deep_view())),
        );
        let rows = sort_rows(rows, older, Ghost(older_session()));
        match try_project(&rows, read, Ghost(session_of())) {
            Ok(sessions) => try_project(&sessions, fill, Ghost(session_filled(files.deep_view()))),
            Err(error) => Err(error),
        }
    }

    /// Removes a session and its files.
    pub fn delete_upload_session(&mut self, session_id: &str) -> (r: Result<(), String>)
        ensures
            r is Ok,
            final(self)@ == crate::progress::without_session(old(self)@, session_id@),
    {
        let own = |f: &SessionFileRow| -> (b: bool)
            ensures
                b == session_file_of(session_id@)(f@),
        {
            same(f.session_id.as_str(), session_id)
        };
        delete_where(
            &mut self.session_files,
            own,
            Ghost(session_file_of(session_id@)),
            Ghost(session_file_of_others(session_id@)),
        );
        let hit = |s: &SessionRow| -> (b: bool)
            ensures
                b == session_is(session_id@)(s@),
        {
            same(s.id.as_str(), session_id)
        };
        delete_where(
            &mut self.sessions,
            hit,
            Ghost(session_is(session_id@)),
            Ghost(other_session(session_id@)),
        );
        Ok(())
    }
}

} // verus!
