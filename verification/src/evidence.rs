//! Delivery evidence and the signed chain of delivery events.
use vstd::prelude::*;
use vstd::utf8::encode_utf8;

use crate::columns::{to_wrapped, wrapped};
use crate::decimal::{decimal, i64_text, signed_decimal, u64_text};
use crate::downloads::grant_is;
use crate::grants::{full_of, read_first};
use crate::hexadecimal::{array32, hex_bytes, hex_decode, hex_encode, hex_text, is_hex};
use crate::issue::digest_of;
use crate::json::{json_object, json_string, member, object, parse_json, parsed_json, quoted};
use crate::kinds::EvidenceKind;
use crate::records::{
    DeliveryEvent, DeliveryEventView, EventCheckpoint, EventCheckpointView, EventExport,
    EventExportView, Evidence, EvidenceView,
};
use crate::rows::{
    DigestRow, DigestRowView, EventRow, EventRowView, EvidenceRow, EvidenceRowView, GrantRow,
};
use crate::signatures::{digest, sha256, strictly_signed, verify_strict};
use crate::store::{Store, StoreView, follows};
use crate::table::{
    Row, allot_id, any, append_row, count, count_where, exists_where, find, first, next_id, outcome,
    page, page_rows, project, select, sort_rows, sorted_by, try_project,
};
use crate::text::same;

verus! {

/// The most bytes that a page of events takes when it is written out.
pub const MAX_EVENT_PAGE_BYTES: usize = 16777216;

// ------------------------------------------------------------ specifications
/// What is said of a chain that does not hold.
pub open spec fn broken_chain() -> Seq<char> {
    "invalid or incomplete delivery event chain"@
}

/// The bytes that a text takes.
pub open spec fn width(s: Seq<char>) -> nat {
    encode_utf8(s).len()
}

/// What is signed of an event.
pub open spec fn document_of(e: DeliveryEventView) -> Seq<char> {
    json_object(
        seq![
            ("created_at"@, decimal(e.created_at as nat)),
            ("grant_id"@, json_string(e.grant_id)),
            ("id"@, decimal(e.id as nat)),
            ("issuer"@, json_string(e.issuer)),
            ("kind"@, json_string(e.kind)),
            ("payload"@, e.payload),
            ("previous_hash"@, json_string(e.previous_hash)),
            ("tenant"@, json_string(e.tenant)),
        ],
    )
}

/// The hash of a signed document.
pub open spec fn event_hash(document: Seq<char>, signature: Seq<char>) -> Seq<char> {
    hex_text(
        sha256(
            encode_utf8(
                json_object(
                    seq![("document"@, document), ("signature"@, json_string(signature))],
                ),
            ),
        ),
    )
}

/// The bytes that a signature of a document covers.
pub open spec fn signed_message(document: Seq<char>) -> Seq<u8> {
    encode_utf8("votport-delivery-event-v1\0"@) + encode_utf8(document)
}

/// Whether a signature of a document holds under an issuer's key.
pub open spec fn signature_holds(
    issuer: Seq<char>,
    document: Seq<char>,
    signature: Seq<char>,
) -> bool {
    &&& is_hex(issuer) && hex_bytes(issuer).len() == 32
    &&& is_hex(signature)
    &&& strictly_signed(hex_bytes(issuer), signed_message(document), hex_bytes(signature))
}

/// Whether an event's hash is its own and its issuer signed it.
pub open spec fn event_verifies(e: DeliveryEventView) -> bool {
    e.hash == event_hash(document_of(e), e.signature) && signature_holds(
        e.issuer,
        document_of(e),
        e.signature,
    )
}

/// Whether an event is a valid one of this issuer in this tenant's chain.
pub open spec fn event_stands(e: DeliveryEventView, issuer: Seq<char>, tenant: Seq<char>) -> bool {
    e.issuer == issuer && e.tenant == tenant && e.id > 0 && event_verifies(e)
}

/// An event written out.
pub open spec fn event_text(e: DeliveryEventView) -> Seq<char> {
    json_object(
        seq![
            ("id"@, decimal(e.id as nat)),
            ("tenant"@, json_string(e.tenant)),
            ("grant_id"@, json_string(e.grant_id)),
            ("kind"@, json_string(e.kind)),
            ("created_at"@, decimal(e.created_at as nat)),
            ("payload"@, e.payload),
            ("previous_hash"@, json_string(e.previous_hash)),
            ("hash"@, json_string(e.hash)),
            ("issuer"@, json_string(e.issuer)),
            ("signature"@, json_string(e.signature)),
        ],
    )
}

/// A checkpoint written out.
pub open spec fn checkpoint_text(c: EventCheckpointView) -> Seq<char> {
    json_object(seq![("id"@, decimal(c.id as nat)), ("hash"@, json_string(c.hash))])
}

/// An export without events, from its start to its terminal, written out.
pub open spec fn envelope_text(
    issuer: Seq<char>,
    tenant: Seq<char>,
    start: EventCheckpointView,
    terminal: EventCheckpointView,
) -> Seq<char> {
    json_object(
        seq![
            ("format"@, json_string("votport-delivery-events-v1"@)),
            ("issuer"@, json_string(issuer)),
            ("tenant"@, json_string(tenant)),
            ("start"@, checkpoint_text(start)),
            ("end"@, checkpoint_text(terminal)),
            ("terminal"@, checkpoint_text(terminal)),
            ("complete"@, "false"@),
            ("events"@, "[]"@),
        ],
    )
}

/// Where an event stands in its chain.
pub open spec fn checkpoint_of(e: DeliveryEventView) -> EventCheckpointView {
    EventCheckpointView { id: e.id, hash: e.hash }
}

/// The start of every chain.
pub open spec fn genesis() -> EventCheckpointView {
    EventCheckpointView { id: 0, hash: Seq::empty() }
}

/// A column read as an unsigned number, bit for bit.
pub open spec fn unwrapped(value: i64) -> u64 {
    if value < 0 {
        (value + 0x1_0000_0000_0000_0000) as u64
    } else {
        value as u64
    }
}

/// Whether no text of a row is longer than a page.
pub open spec fn row_fits(e: EventRowView) -> bool {
    &&& width(e.tenant) <= MAX_EVENT_PAGE_BYTES
    &&& width(e.grant_id) <= MAX_EVENT_PAGE_BYTES
    &&& width(e.kind) <= MAX_EVENT_PAGE_BYTES
    &&& width(e.payload) <= MAX_EVENT_PAGE_BYTES
    &&& width(e.previous_hash) <= MAX_EVENT_PAGE_BYTES
    &&& width(e.hash) <= MAX_EVENT_PAGE_BYTES
    &&& width(e.issuer) <= MAX_EVENT_PAGE_BYTES
    &&& width(e.signature) <= MAX_EVENT_PAGE_BYTES
}

/// The event that a row stands for, its payload being what the decoder makes of
/// it.
pub open spec fn event_with(e: EventRowView, payload: Result<Seq<char>, Seq<char>>) -> Result<
    DeliveryEventView,
    Seq<char>,
> {
    if !row_fits(e) {
        Err(broken_chain())
    } else {
        match payload {
            Err(_) => Err(broken_chain()),
            Ok(payload) => Ok(
                DeliveryEventView {
                    id: unwrapped(e.id),
                    tenant: e.tenant,
                    grant_id: e.grant_id,
                    kind: e.kind,
                    created_at: unwrapped(e.created_at),
                    payload,
                    previous_hash: e.previous_hash,
                    hash: e.hash,
                    issuer: e.issuer,
                    signature: e.signature,
                },
            ),
        }
    }
}

/// The event that a row stands for.
pub open spec fn event_of(e: EventRowView) -> Result<DeliveryEventView, Seq<char>> {
    event_with(e, parsed_json(e.payload))
}

/// A tenant's events after one and up to another.
pub open spec fn event_between(tenant: Seq<char>, after: i64, through: i64) -> spec_fn(
    EventRowView,
) -> bool {
    |e: EventRowView| e.tenant == tenant && e.id > after && e.id <= through
}

/// A tenant's events up to one.
pub open spec fn event_until(tenant: Seq<char>, through: i64) -> spec_fn(EventRowView) -> bool {
    |e: EventRowView| e.tenant == tenant && e.id <= through
}

/// By number.
pub open spec fn earlier_event() -> spec_fn(EventRowView, EventRowView) -> bool {
    |a: EventRowView, b: EventRowView| a.id < b.id
}

/// By number, the last first.
pub open spec fn later_event() -> spec_fn(EventRowView, EventRowView) -> bool {
    |a: EventRowView, b: EventRowView| a.id > b.id
}

/// The last row of a tenant's chain up to a number.
pub open spec fn last_event(events: Seq<EventRowView>, tenant: Seq<char>, through: i64) -> Option<
    EventRowView,
> {
    let rows = sorted_by(events.filter(event_until(tenant, through)), later_event());
    if rows.len() == 0 {
        None
    } else {
        Some(rows[0])
    }
}

/// Where a tenant's chain stands at a number.
pub open spec fn reached(
    events: Seq<EventRowView>,
    issuer: Seq<char>,
    tenant: Seq<char>,
    through: u64,
) -> Result<EventCheckpointView, Seq<char>> {
    match last_event(events, tenant, wrapped(through)) {
        None => Ok(genesis()),
        Some(row) => match event_of(row) {
            Err(e) => Err(e),
            Ok(event) => if event_stands(event, issuer, tenant) {
                Ok(checkpoint_of(event))
            } else {
                Err(broken_chain())
            },
        },
    }
}

/// Whether a checkpoint is one of a tenant's chain.
pub open spec fn is_reached(
    events: Seq<EventRowView>,
    issuer: Seq<char>,
    tenant: Seq<char>,
    c: EventCheckpointView,
) -> bool {
    c.id <= i64::MAX && reached(events, issuer, tenant, c.id) == Ok::<
        EventCheckpointView,
        Seq<char>,
    >(c)
}

/// The event of a row that continues a chain from `previous`.
#[verifier::opaque]
pub open spec fn continued(
    row: EventRowView,
    issuer: Seq<char>,
    tenant: Seq<char>,
    previous: EventCheckpointView,
) -> Result<DeliveryEventView, Seq<char>> {
    match event_of(row) {
        Err(e) => Err(e),
        Ok(event) => if !event_stands(event, issuer, tenant) || event.id <= previous.id
            || event.previous_hash != previous.hash {
            Err(broken_chain())
        } else {
            Ok(event)
        },
    }
}

/// The bytes that an event takes on a page.
#[verifier::opaque]
pub open spec fn cost(e: DeliveryEventView) -> nat {
    width(event_text(e)) + 1
}

/// The events of rows that continue a chain from `previous`, within a budget of
/// bytes; `taken` came before them.
pub open spec fn linked(
    rows: Seq<EventRowView>,
    issuer: Seq<char>,
    tenant: Seq<char>,
    previous: EventCheckpointView,
    budget: int,
    taken: Seq<DeliveryEventView>,
) -> Result<Seq<DeliveryEventView>, Seq<char>>
    decreases rows.len(),
{
    if rows.len() == 0 {
        Ok(taken)
    } else {
        match continued(rows[0], issuer, tenant, previous) {
            Err(e) => Err(e),
            Ok(event) => if cost(event) > budget {
                if taken.len() == 0 {
                    Err(broken_chain())
                } else {
                    Ok(taken)
                }
            } else {
                linked(
                    rows.skip(1),
                    issuer,
                    tenant,
                    checkpoint_of(event),
                    budget - cost(event),
                    taken.push(event),
                )
            },
        }
    }
}

/// At most this many events are on one page.
pub open spec fn page_limit(limit: usize) -> int {
    if limit > 100 {
        100
    } else {
        limit as int
    }
}

/// One page of a tenant's chain.
pub open spec fn page_of_events(
    events: Seq<EventRowView>,
    issuer: Seq<char>,
    tenant: Seq<char>,
    start: EventCheckpointView,
    through: u64,
    limit: usize,
    budget: int,
) -> Result<Seq<DeliveryEventView>, Seq<char>> {
    let rows = sorted_by(
        events.filter(event_between(tenant, wrapped(start.id), wrapped(through))),
        earlier_event(),
    );
    linked(page(rows, 0, page_limit(limit)), issuer, tenant, start, budget, Seq::empty())
}

/// The events after a number.
pub open spec fn events_after(
    events: Seq<EventRowView>,
    issuer: Seq<char>,
    tenant: Seq<char>,
    after: u64,
    limit: usize,
) -> Result<Seq<DeliveryEventView>, Seq<char>> {
    if after > i64::MAX {
        Err(broken_chain())
    } else {
        match reached(events, issuer, tenant, after) {
            Err(e) => Err(e),
            Ok(start) => page_of_events(
                events,
                issuer,
                tenant,
                start,
                i64::MAX as u64,
                limit,
                MAX_EVENT_PAGE_BYTES - 128,
            ),
        }
    }
}

/// Where an export that started at `start` ends.
pub open spec fn end_of(start: EventCheckpointView, events: Seq<DeliveryEventView>) -> EventCheckpointView {
    if events.len() == 0 {
        start
    } else {
        checkpoint_of(events.last())
    }
}

/// The checkpoint that an export goes up to.
pub open spec fn goal(
    events: Seq<EventRowView>,
    issuer: Seq<char>,
    tenant: Seq<char>,
    terminal: Option<EventCheckpointView>,
) -> Result<EventCheckpointView, Seq<char>> {
    match terminal {
        Some(terminal) => if is_reached(events, issuer, tenant, terminal) {
            Ok(terminal)
        } else {
            Err(broken_chain())
        },
        None => reached(events, issuer, tenant, i64::MAX as u64),
    }
}

/// An export of a tenant's chain from `start` on.
pub open spec fn exported(
    events: Seq<EventRowView>,
    issuer: Seq<char>,
    tenant: Seq<char>,
    start: EventCheckpointView,
    terminal: Option<EventCheckpointView>,
    limit: usize,
) -> Result<EventExportView, Seq<char>> {
    if limit < 1 || limit > 100 || !is_reached(events, issuer, tenant, start) {
        Err(broken_chain())
    } else {
        match goal(events, issuer, tenant, terminal) {
            Err(e) => Err(e),
            Ok(terminal) => {
                let envelope = width(envelope_text(issuer, tenant, start, terminal));
                if start.id > terminal.id || envelope > MAX_EVENT_PAGE_BYTES {
                    Err(broken_chain())
                } else {
                    match page_of_events(
                        events,
                        issuer,
                        tenant,
                        start,
                        terminal.id,
                        limit,
                        MAX_EVENT_PAGE_BYTES - envelope,
                    ) {
                        Err(e) => Err(e),
                        Ok(found) => {
                            let end = end_of(start, found);
                            if end != terminal && found.len() == 0 {
                                Err(broken_chain())
                            } else {
                                Ok(
                                    EventExportView {
                                        format: "votport-delivery-events-v1"@,
                                        issuer,
                                        tenant,
                                        start,
                                        end,
                                        terminal,
                                        complete: end == terminal,
                                        events: found,
                                    },
                                )
                            }
                        },
                    }
                }
            },
        }
    }
}

/// Every number that an event may have had.
pub open spec fn event_ids(s: StoreView) -> Seq<i64> {
    s.events.map_values(|e: EventRowView| e.id).push(s.event_sequence)
}

/// The hash at the end of a tenant's chain.
pub open spec fn last_hash(events: Seq<EventRowView>, tenant: Seq<char>) -> Seq<char> {
    match last_event(events, tenant, i64::MAX) {
        Some(row) => row.hash,
        None => Seq::empty(),
    }
}

/// The next event of a tenant's chain, not signed yet.
pub open spec fn drafted(
    s: StoreView,
    issuer: Seq<char>,
    tenant: Seq<char>,
    grant_id: Seq<char>,
    kind: Seq<char>,
    payload: Seq<char>,
    now: u64,
) -> Result<DeliveryEventView, Seq<char>> {
    match next_id(event_ids(s)) {
        None => Err("database or disk is full"@),
        Some(id) => Ok(
            DeliveryEventView {
                id: id as u64,
                tenant,
                grant_id,
                kind,
                created_at: now,
                payload,
                previous_hash: last_hash(s.events, tenant),
                hash: Seq::empty(),
                issuer,
                signature: Seq::empty(),
            },
        ),
    }
}

/// The row of a signed event.
pub open spec fn event_row_of(e: DeliveryEventView, signature: Seq<char>) -> EventRowView {
    EventRowView {
        id: wrapped(e.id),
        tenant: e.tenant,
        grant_id: e.grant_id,
        kind: e.kind,
        created_at: wrapped(e.created_at),
        payload: e.payload,
        previous_hash: e.previous_hash,
        hash: event_hash(document_of(e), signature),
        issuer: e.issuer,
        signature,
    }
}

/// The store with one more event.
pub open spec fn chained(s: StoreView, e: DeliveryEventView, signature: Seq<char>) -> StoreView {
    StoreView {
        events: s.events.push(event_row_of(e, signature)),
        event_sequence: wrapped(e.id),
        ..s
    }
}

/// Whether `sign` gives this signature for this document.
pub open spec fn signs<F: Fn(&str) -> String>(
    sign: F,
    document: Seq<char>,
    signature: Seq<char>,
) -> bool {
    exists|d: &str, s: String|
        d@ == document && s@ == signature && #[trigger] sign.ensures((d,), s)
}

/// The digest of a delivery, which is remembered.
pub open spec fn manifest_known(s: StoreView, id: Seq<char>, digest: Seq<char>) -> Result<
    (StoreView, Seq<char>),
    Seq<char>,
> {
    match first(s.digests, digest_of(id)) {
        Some(d) => Ok((s, d.digest)),
        None => match read_first(first(s.grants, grant_is(id)), full_of(s.grant_files)) {
            Err(e) => Err(e),
            Ok(None) => Err("delivery not found"@),
            Ok(Some(_)) => Ok(
                (
                    StoreView {
                        digests: s.digests.push(DigestRowView { grant_id: id, digest }),
                        ..s
                    },
                    digest,
                ),
            ),
        },
    }
}

/// The name of what a device attests.
pub open spec fn kind_name(kind: EvidenceKind) -> Seq<char> {
    match kind {
        EvidenceKind::Verified => "verified"@,
        EvidenceKind::Accepted => "accepted"@,
    }
}

/// The kind of the event that a report gives.
pub open spec fn kind_of_event(kind: EvidenceKind) -> Seq<char> {
    match kind {
        EvidenceKind::Verified => "recipient_verified"@,
        EvidenceKind::Accepted => "recipient_accepted"@,
    }
}

/// The report under an id.
pub open spec fn evidence_is(id: Seq<char>) -> spec_fn(EvidenceRowView) -> bool {
    |e: EvidenceRowView| e.id == id
}

/// The reports on a delivery.
pub open spec fn evidence_on(grant_id: Seq<char>) -> spec_fn(EvidenceRowView) -> bool {
    |e: EvidenceRowView| e.grant_id == grant_id
}

/// A device's reports of a kind on a delivery.
pub open spec fn evidence_by(grant_id: Seq<char>, holder: Seq<char>, kind: Seq<char>) -> spec_fn(
    EvidenceRowView,
) -> bool {
    |e: EvidenceRowView| e.grant_id == grant_id && e.holder == holder && e.kind == kind
}

/// The numbers of the reports.
pub open spec fn evidence_ids(rows: Seq<EvidenceRowView>) -> Seq<i64> {
    rows.map_values(|e: EvidenceRowView| e.rowid)
}

/// What the chain says of a report.
pub open spec fn evidence_payload(e: EvidenceView) -> Seq<char> {
    json_object(
        seq![
            ("evidence_id"@, json_string(e.id)),
            ("holder"@, json_string(e.holder)),
            ("manifest"@, json_string(e.manifest)),
        ],
    )
}

/// Whether a report is refused, was there before, or is new.
pub open spec fn evidence_admitted(s: StoreView, e: EvidenceView) -> Result<bool, Seq<char>> {
    if !any(s.grants, grant_is(e.grant_id)) {
        Err("delivery not found"@)
    } else {
        match first(s.digests, digest_of(e.grant_id)) {
            None => Err("delivery manifest missing"@),
            Some(d) => if d.digest != e.manifest {
                Err("delivery manifest changed"@)
            } else if any(s.evidence, evidence_is(e.id)) {
                Ok(false)
            } else if e.kind is Accepted && !any(
                s.evidence,
                evidence_by(e.grant_id, e.holder, "verified"@),
            ) {
                Err("this device must report verification before acceptance"@)
            } else if count(s.evidence, evidence_on(e.grant_id)) >= 2000 {
                Err("delivery evidence limit reached"@)
            } else if next_id(evidence_ids(s.evidence)) is None {
                Err("database or disk is full"@)
            } else {
                Ok(true)
            },
        }
    }
}

/// Whether a report is the first of its kind from its device.
pub open spec fn is_news(s: StoreView, e: EvidenceView) -> bool {
    !any(s.evidence, evidence_by(e.grant_id, e.holder, kind_name(e.kind)))
}

/// The store with one more report.
pub open spec fn with_evidence(s: StoreView, e: EvidenceView, now: u64) -> StoreView {
    StoreView {
        evidence: s.evidence.push(
            EvidenceRowView {
                rowid: next_id(evidence_ids(s.evidence))->0,
                id: e.id,
                grant_id: e.grant_id,
                holder: e.holder,
                kind: kind_name(e.kind),
                received_at: wrapped(now),
                document: e.document,
            },
        ),
        ..s
    }
}

/// The event that a report gives.
pub open spec fn evidence_event(s: StoreView, issuer: Seq<char>, e: EvidenceView, now: u64) -> Result<
    DeliveryEventView,
    Seq<char>,
> {
    drafted(
        with_evidence(s, e, now),
        issuer,
        (first(s.grants, grant_is(e.grant_id))->0).tenant,
        e.grant_id,
        kind_of_event(e.kind),
        evidence_payload(e),
        now,
    )
}

/// What recording a report gives back.
pub open spec fn evidence_outcome(s: StoreView, issuer: Seq<char>, e: EvidenceView, now: u64) -> Result<
    bool,
    Seq<char>,
> {
    match evidence_admitted(s, e) {
        Ok(true) => if !is_news(s, e) {
            Ok(true)
        } else {
            match evidence_event(s, issuer, e, now) {
                Ok(_) => Ok(true),
                Err(error) => Err(error),
            }
        },
        other => other,
    }
}

/// The store after a report; `signature` is the one of the event that it gives.
pub open spec fn evidence_recorded(
    s: StoreView,
    issuer: Seq<char>,
    e: EvidenceView,
    now: u64,
    signature: Seq<char>,
) -> StoreView {
    if evidence_outcome(s, issuer, e, now) != Ok::<bool, Seq<char>>(true) {
        s
    } else if !is_news(s, e) {
        with_evidence(s, e, now)
    } else {
        match evidence_event(s, issuer, e, now) {
            Ok(event) => chained(with_evidence(s, e, now), event, signature),
            Err(_) => s,
        }
    }
}

/// The document that recording a report has signed, if it gives an event.
pub open spec fn evidence_document(s: StoreView, issuer: Seq<char>, e: EvidenceView, now: u64) -> Option<
    Seq<char>,
> {
    if evidence_outcome(s, issuer, e, now) == Ok::<bool, Seq<char>>(true) && is_news(s, e) {
        Some(document_of(evidence_event(s, issuer, e, now)->Ok_0))
    } else {
        None
    }
}

/// The reports on a delivery after a number.
pub open spec fn evidence_after(grant_id: Seq<char>, after: i64) -> spec_fn(
    EvidenceRowView,
) -> bool {
    |e: EvidenceRowView| e.grant_id == grant_id && e.rowid > after
}

/// By number.
pub open spec fn earlier_evidence() -> spec_fn(EvidenceRowView, EvidenceRowView) -> bool {
    |a: EvidenceRowView, b: EvidenceRowView| a.rowid < b.rowid
}

/// A report as listed.
pub open spec fn listed_evidence() -> spec_fn(EvidenceRowView) -> Result<Seq<char>, Seq<char>> {
    |e: EvidenceRowView|
        match parsed_json(e.document) {
            Err(error) => Err(error),
            Ok(document) => Ok(
                json_object(
                    seq![
                        ("cursor"@, signed_decimal(e.rowid as int)),
                        ("evidence"@, document),
                        ("received_at"@, signed_decimal(e.received_at as int)),
                    ],
                ),
            ),
        }
}

// ---------------------------------------------------------------------- laws
/// Whether events follow each other from `start` on, all of them valid.
pub open spec fn is_chain(
    start: EventCheckpointView,
    events: Seq<DeliveryEventView>,
    issuer: Seq<char>,
    tenant: Seq<char>,
) -> bool
    decreases events.len(),
{
    events.len() == 0 || {
        let before = end_of(start, events.drop_last());
        &&& is_chain(start, events.drop_last(), issuer, tenant)
        &&& event_stands(events.last(), issuer, tenant)
        &&& events.last().id > before.id
        &&& events.last().previous_hash == before.hash
    }
}

/// The bytes that events take on a page.
pub open spec fn total_cost(events: Seq<DeliveryEventView>) -> nat
    decreases events.len(),
{
    if events.len() == 0 {
        0
    } else {
        total_cost(events.drop_last()) + cost(events.last())
    }
}

proof fn lemma_linked(
    rows: Seq<EventRowView>,
    issuer: Seq<char>,
    tenant: Seq<char>,
    start: EventCheckpointView,
    budget: int,
    taken: Seq<DeliveryEventView>,
)
    requires
        is_chain(start, taken, issuer, tenant),
        budget >= 0,
    ensures
        linked(rows, issuer, tenant, end_of(start, taken), budget, taken) matches Ok(found)
            ==> is_chain(start, found, issuer, tenant) && total_cost(found) <= total_cost(taken)
            + budget && taken.len() <= found.len() <= taken.len() + rows.len(),
    decreases rows.len(),
{
    reveal(continued);
    if rows.len() > 0 {
        if let Ok(event) = continued(rows[0], issuer, tenant, end_of(start, taken)) {
            if cost(event) <= budget {
                let more = taken.push(event);
                assert(more.drop_last() =~= taken);
                assert(more.last() == event);
                lemma_linked(
                    rows.skip(1),
                    issuer,
                    tenant,
                    start,
                    budget - cost(event),
                    more,
                );
            }
        }
    }
}

/// A page of events is a chain of valid events from its start on, of no more
/// bytes than its budget and no more events than its limit.
pub proof fn pages_are_chains(
    events: Seq<EventRowView>,
    issuer: Seq<char>,
    tenant: Seq<char>,
    start: EventCheckpointView,
    through: u64,
    limit: usize,
    budget: int,
)
    requires
        budget >= 0,
    ensures
        page_of_events(events, issuer, tenant, start, through, limit, budget) matches Ok(found)
            ==> is_chain(start, found, issuer, tenant) && total_cost(found) <= budget
            && found.len() <= page_limit(limit),
{
    let rows = sorted_by(
        events.filter(event_between(tenant, wrapped(start.id), wrapped(through))),
        earlier_event(),
    );
    lemma_linked(
        page(rows, 0, page_limit(limit)),
        issuer,
        tenant,
        start,
        budget,
        Seq::empty(),
    );
}

/// An export is a chain of valid events from its start to its end, and fits on a
/// page. It is complete exactly when it ends at its terminal, and goes on
/// otherwise.
pub proof fn exports_are_chains(
    events: Seq<EventRowView>,
    issuer: Seq<char>,
    tenant: Seq<char>,
    start: EventCheckpointView,
    terminal: Option<EventCheckpointView>,
    limit: usize,
)
    ensures
        exported(events, issuer, tenant, start, terminal, limit) matches Ok(x) ==> {
            &&& x.start == start
            &&& is_chain(x.start, x.events, issuer, tenant)
            &&& x.end == end_of(x.start, x.events)
            &&& x.complete == (x.end == x.terminal)
            &&& x.complete || x.end.id > x.start.id
            &&& x.events.len() <= limit
            &&& width(envelope_text(issuer, tenant, start, x.terminal)) + total_cost(x.events)
                <= MAX_EVENT_PAGE_BYTES
        },
{
    if let Ok(x) = exported(events, issuer, tenant, start, terminal, limit) {
        let budget = MAX_EVENT_PAGE_BYTES - width(
            envelope_text(issuer, tenant, start, x.terminal),
        );
        pages_are_chains(events, issuer, tenant, start, x.terminal.id, limit, budget);
        lemma_chain_grows(start, x.events, issuer, tenant);
    }
}

proof fn lemma_chain_grows(
    start: EventCheckpointView,
    events: Seq<DeliveryEventView>,
    issuer: Seq<char>,
    tenant: Seq<char>,
)
    requires
        is_chain(start, events, issuer, tenant),
    ensures
        events.len() > 0 ==> end_of(start, events).id > start.id,
    decreases events.len(),
{
    if events.len() > 0 {
        lemma_chain_grows(start, events.drop_last(), issuer, tenant);
    }
}

/// An event with its signature.
pub open spec fn signed(e: DeliveryEventView, signature: Seq<char>) -> DeliveryEventView {
    DeliveryEventView { hash: event_hash(document_of(e), signature), signature, ..e }
}

/// A stored event is read back as it was signed, and stands under a signature
/// that holds.
pub proof fn events_read_back(e: DeliveryEventView, signature: Seq<char>)
    requires
        parsed_json(e.payload) == Ok::<Seq<char>, Seq<char>>(e.payload),
        row_fits(event_row_of(e, signature)),
    ensures
        event_of(event_row_of(e, signature)) == Ok::<DeliveryEventView, Seq<char>>(
            signed(e, signature),
        ),
        event_verifies(signed(e, signature)) == signature_holds(
            e.issuer,
            document_of(e),
            signature,
        ),
{
    assert(document_of(signed(e, signature)) == document_of(e));
}

/// Checkpoints of a chain outlive the events that are appended to it.
pub proof fn checkpoints_outlive_appends(
    s: StoreView,
    e: DeliveryEventView,
    signature: Seq<char>,
    issuer: Seq<char>,
    tenant: Seq<char>,
    c: EventCheckpointView,
)
    requires
        c.id < e.id <= i64::MAX,
    ensures
        is_reached(chained(s, e, signature).events, issuer, tenant, c) == is_reached(
            s.events,
            issuer,
            tenant,
            c,
        ),
{
    if c.id <= i64::MAX {
        let p = event_until(tenant, wrapped(c.id));
        let row = event_row_of(e, signature);
        crate::table::lemma_filter_push(s.events, row, p);
        assert(!p(row));
    }
}

/// An appended event is where its chain then stands, if its signature holds.
pub proof fn appends_extend_the_chain(
    s: StoreView,
    issuer: Seq<char>,
    tenant: Seq<char>,
    grant_id: Seq<char>,
    kind: Seq<char>,
    payload: Seq<char>,
    now: u64,
    signature: Seq<char>,
)
    requires
        parsed_json(payload) == Ok::<Seq<char>, Seq<char>>(payload),
    ensures
        drafted(s, issuer, tenant, grant_id, kind, payload, now) matches Ok(e) ==> row_fits(
            event_row_of(e, signature),
        ) && signature_holds(issuer, document_of(e), signature) ==> reached(
            chained(s, e, signature).events,
            issuer,
            tenant,
            i64::MAX as u64,
        ) == Ok::<EventCheckpointView, Seq<char>>(checkpoint_of(signed(e, signature))),
{
    if let Ok(e) = drafted(s, issuer, tenant, grant_id, kind, payload, now) {
        let p = event_until(tenant, i64::MAX);
        let row = event_row_of(e, signature);
        let rows = s.events.filter(p);
        let ids = event_ids(s);
        crate::table::lemma_greatest(ids);
        crate::table::lemma_filter_push(s.events, row, p);
        assert(p(row));
        let sorted = sorted_by(rows, later_event());
        assert forall|k: int| 0 <= k < sorted.len() implies later_event()(
            row,
            #[trigger] sorted[k],
        ) by {
            crate::table::lemma_sorted_multiset(rows, later_event());
            assert(sorted.to_multiset().contains(sorted[k])) by {
                sorted.to_multiset_ensures();
            }
            rows.to_multiset_ensures();
            assert(rows.contains(sorted[k]));
            let i = choose|i: int| 0 <= i < rows.len() && rows[i] == sorted[k];
            crate::table::lemma_filter_any_of(s.events, p);
            let j = choose|j: int| 0 <= j < s.events.len() && s.events[j] == sorted[k];
            assert(ids[j] == sorted[k].id);
        }
        crate::table::lemma_insert_by(sorted, row, later_event(), 0);
        assert(rows.push(row).drop_last() =~= rows);
        if row_fits(row) && signature_holds(issuer, document_of(e), signature) {
            events_read_back(e, signature);
        }
    }
}

// ---------------------------------------------------------------- operations
fn broken() -> (s: String)
    ensures
        s@ == broken_chain(),
{
    "invalid or incomplete delivery event chain".to_owned()
}

fn byte_len(s: &str) -> (n: usize)
    ensures
        n == width(s@),
{
    s.as_bytes().len()
}

fn from_wrapped(value: i64) -> (r: u64)
    ensures
        r == unwrapped(value),
{
    if value < 0 {
        (value as i128 + 0x1_0000_0000_0000_0000) as u64
    } else {
        value as u64
    }
}

fn hash_document(document: &str, signature: &str) -> (s: String)
    ensures
        s@ == event_hash(document@, signature@),
{
    let mut members: Vec<(String, String)> = Vec::new();
    members.push(member("document", document.to_owned()));
    members.push(member("signature", quoted(signature)));
    proof {
        assert(members.deep_view() =~= seq![
            ("document"@, document@),
            ("signature"@, json_string(signature@)),
        ]);
    }
    let text = object(&members);
    let bytes = digest(text.as_str().as_bytes());
    hex_encode(bytes.as_slice())
}

fn holds(issuer: &str, document: &str, signature: &str) -> (r: bool)
    ensures
        r == signature_holds(issuer@, document@, signature@),
{
    let key = match hex_decode(issuer) {
        Some(key) => key,
        None => return false,
    };
    if key.len() != 32 {
        return false;
    }
    let signature = match hex_decode(signature) {
        Some(signature) => signature,
        None => return false,
    };
    let key = array32(&key);
    let prefix = "votport-delivery-event-v1\0";
    let mut message: Vec<u8> = Vec::new();
    message.extend_from_slice(prefix.as_bytes());
    message.extend_from_slice(document.as_bytes());
    assert(message@ =~= signed_message(document@));
    verify_strict(&key, message.as_slice(), signature.as_slice())
}

impl EventCheckpoint {
    /// Where an event stands in its chain.
    pub fn of(event: &DeliveryEvent) -> (c: EventCheckpoint)
        ensures
            c@ == checkpoint_of(event@),
    {
        EventCheckpoint { id: event.id, hash: event.hash.clone() }
    }

    /// The start of every chain.
    pub fn start() -> (c: EventCheckpoint)
        ensures
            c@ == genesis(),
    {
        let c = EventCheckpoint { id: 0, hash: "".to_owned() };
        proof {
            reveal_strlit("");
            assert(c@.hash =~= Seq::empty());
        }
        c
    }

    fn same(&self, other: &EventCheckpoint) -> (r: bool)
        ensures
            r == (self@ == other@),
    {
        self.id == other.id && same(self.hash.as_str(), other.hash.as_str())
    }

    /// The checkpoint as JSON text.
    pub fn text(&self) -> (s: String)
        ensures
            s@ == checkpoint_text(self@),
    {
        let mut members: Vec<(String, String)> = Vec::new();
        members.push(member("id", u64_text(self.id)));
        members.push(member("hash", quoted(self.hash.as_str())));
        assert(members.deep_view() =~= seq![
            ("id"@, decimal(self.id as nat)),
            ("hash"@, json_string(self.hash@)),
        ]);
        object(&members)
    }
}

impl DeliveryEvent {
    /// Whether the event is a valid one of this issuer in this tenant's chain.
    pub fn verify_for(&self, issuer: &str, tenant: &str) -> (r: bool)
        ensures
            r == event_stands(self@, issuer@, tenant@),
    {
        same(self.issuer.as_str(), issuer) && same(self.tenant.as_str(), tenant) && self.id > 0
            && self.verify()
    }

    /// Whether the event's hash is its own and its issuer signed it.
    pub fn verify(&self) -> (r: bool)
        ensures
            r == event_verifies(self@),
    {
        let document = self.document();
        let hash = hash_document(document.as_str(), self.signature.as_str());
        let signed = holds(self.issuer.as_str(), document.as_str(), self.signature.as_str());
        self.verify_with(hash.as_str(), signed)
    }

    /// Whether the event stands, `hash` being that of its signed document and
    /// `signed` whether its signature holds.
    pub fn verify_with(&self, hash: &str, signed: bool) -> (r: bool)
        ensures
            r == (hash@ == self@.hash && signed),
    {
        same(hash, self.hash.as_str()) && signed
    }

    /// What is signed of the event, as JSON text.
    pub fn document(&self) -> (s: String)
        ensures
            s@ == document_of(self@),
    {
        let mut members: Vec<(String, String)> = Vec::new();
        members.push(member("created_at", u64_text(self.created_at)));
        members.push(member("grant_id", quoted(self.grant_id.as_str())));
        members.push(member("id", u64_text(self.id)));
        members.push(member("issuer", quoted(self.issuer.as_str())));
        members.push(member("kind", quoted(self.kind.as_str())));
        members.push(member("payload", self.payload.clone()));
        members.push(member("previous_hash", quoted(self.previous_hash.as_str())));
        members.push(member("tenant", quoted(self.tenant.as_str())));
        assert(members.deep_view() =~= seq![
            ("created_at"@, decimal(self.created_at as nat)),
            ("grant_id"@, json_string(self.grant_id@)),
            ("id"@, decimal(self.id as nat)),
            ("issuer"@, json_string(self.issuer@)),
            ("kind"@, json_string(self.kind@)),
            ("payload"@, self.payload@),
            ("previous_hash"@, json_string(self.previous_hash@)),
            ("tenant"@, json_string(self.tenant@)),
        ]);
        object(&members)
    }

    /// The event as JSON text.
    pub fn text(&self) -> (s: String)
        ensures
            s@ == event_text(self@),
    {
        let mut members: Vec<(String, String)> = Vec::new();
        members.push(member("id", u64_text(self.id)));
        members.push(member("tenant", quoted(self.tenant.as_str())));
        members.push(member("grant_id", quoted(self.grant_id.as_str())));
        members.push(member("kind", quoted(self.kind.as_str())));
        members.push(member("created_at", u64_text(self.created_at)));
        members.push(member("payload", self.payload.clone()));
        members.push(member("previous_hash", quoted(self.previous_hash.as_str())));
        members.push(member("hash", quoted(self.hash.as_str())));
        members.push(member("issuer", quoted(self.issuer.as_str())));
        members.push(member("signature", quoted(self.signature.as_str())));
        assert(members.deep_view() =~= seq![
            ("id"@, decimal(self.id as nat)),
            ("tenant"@, json_string(self.tenant@)),
            ("grant_id"@, json_string(self.grant_id@)),
            ("kind"@, json_string(self.kind@)),
            ("created_at"@, decimal(self.created_at as nat)),
            ("payload"@, self.payload@),
            ("previous_hash"@, json_string(self.previous_hash@)),
            ("hash"@, json_string(self.hash@)),
            ("issuer"@, json_string(self.issuer@)),
            ("signature"@, json_string(self.signature@)),
        ]);
        object(&members)
    }
}

fn empty_export(issuer: &str, tenant: &str, start: &EventCheckpoint, terminal: &EventCheckpoint) -> (s:
    String)
    ensures
        s@ == envelope_text(issuer@, tenant@, start@, terminal@),
{
    let mut members: Vec<(String, String)> = Vec::new();
    members.push(member("format", quoted("votport-delivery-events-v1")));
    members.push(member("issuer", quoted(issuer)));
    members.push(member("tenant", quoted(tenant)));
    members.push(member("start", start.text()));
    members.push(member("end", terminal.text()));
    members.push(member("terminal", terminal.text()));
    members.push(member("complete", "false".to_owned()));
    members.push(member("events", "[]".to_owned()));
    assert(members.deep_view() =~= seq![
        ("format"@, json_string("votport-delivery-events-v1"@)),
        ("issuer"@, json_string(issuer@)),
        ("tenant"@, json_string(tenant@)),
        ("start"@, checkpoint_text(start@)),
        ("end"@, checkpoint_text(terminal@)),
        ("terminal"@, checkpoint_text(terminal@)),
        ("complete"@, "false"@),
        ("events"@, "[]"@),
    ]);
    object(&members)
}

/// The event that a row stands for.
pub fn event_row(e: &EventRow) -> (r: Result<DeliveryEvent, String>)
    ensures
        outcome(r) == event_of(e@),
{
    read_event(e, parse_json(e.payload.as_str()))
}

/// The event that a row stands for, its payload being what the decoder makes of
/// it.
pub fn read_event(e: &EventRow, payload: Result<String, String>) -> (r: Result<
    DeliveryEvent,
    String,
>)
    ensures
        outcome(r) == event_with(e@, outcome(payload)),
{
    if byte_len(e.tenant.as_str()) > MAX_EVENT_PAGE_BYTES || byte_len(e.grant_id.as_str())
        > MAX_EVENT_PAGE_BYTES || byte_len(e.kind.as_str()) > MAX_EVENT_PAGE_BYTES || byte_len(
        e.payload.as_str(),
    ) > MAX_EVENT_PAGE_BYTES || byte_len(e.previous_hash.as_str()) > MAX_EVENT_PAGE_BYTES
        || byte_len(e.hash.as_str()) > MAX_EVENT_PAGE_BYTES || byte_len(e.issuer.as_str())
        > MAX_EVENT_PAGE_BYTES || byte_len(e.signature.as_str()) > MAX_EVENT_PAGE_BYTES {
        return Err(broken());
    }
    match payload {
        Err(_) => Err(broken()),
        Ok(payload) => Ok(
            DeliveryEvent {
                id: from_wrapped(e.id),
                tenant: e.tenant.clone(),
                grant_id: e.grant_id.clone(),
                kind: e.kind.clone(),
                created_at: from_wrapped(e.created_at),
                payload,
                previous_hash: e.previous_hash.clone(),
                hash: e.hash.clone(),
                issuer: e.issuer.clone(),
                signature: e.signature.clone(),
            },
        ),
    }
}

fn last_row(events: &Vec<EventRow>, tenant: &str, through: i64) -> (r: Option<EventRow>)
    ensures
        r.deep_view() == last_event(events.deep_view(), tenant@, through),
{
    let hit = |e: &EventRow| -> (b: bool)
        ensures
            b == event_until(tenant@, through)(e@),
    {
        same(e.tenant.as_str(), tenant) && e.id <= through
    };
    let before = |a: &EventRow, b: &EventRow| -> (r: bool)
        ensures
            r == later_event()(a@, b@),
    {
        a.id > b.id
    };
    let rows = select(events, hit, Ghost(event_until(tenant@, through)));
    let rows = sort_rows(rows, before, Ghost(later_event()));
    assert(rows.deep_view().len() == rows.len());
    if rows.len() == 0 {
        None
    } else {
        assert(rows.deep_view()[0] == rows@[0].deep_view());
        Some(rows[0].dup())
    }
}

/// Where a tenant's chain stands at a number.
pub fn predecessor(events: &Vec<EventRow>, issuer: &str, tenant: &str, through: u64) -> (r: Result<
    EventCheckpoint,
    String,
>)
    ensures
        outcome(r) == reached(events.deep_view(), issuer@, tenant@, through),
{
    match last_row(events, tenant, to_wrapped(through)) {
        None => Ok(EventCheckpoint::start()),
        Some(row) => match event_row(&row) {
            Err(error) => Err(error),
            Ok(event) => if event.verify_for(issuer, tenant) {
                Ok(EventCheckpoint::of(&event))
            } else {
                Err(broken())
            },
        },
    }
}

/// Refuses a checkpoint that is not one of the tenant's chain.
pub fn require_checkpoint(
    events: &Vec<EventRow>,
    issuer: &str,
    tenant: &str,
    checkpoint: &EventCheckpoint,
) -> (r: Result<(), String>)
    ensures
        match r {
            Ok(_) => is_reached(events.deep_view(), issuer@, tenant@, checkpoint@),
            Err(e) => !is_reached(events.deep_view(), issuer@, tenant@, checkpoint@) && e@
                == broken_chain(),
        },
{
    if checkpoint.id > i64::MAX as u64 {
        return Err(broken());
    }
    match predecessor(events, issuer, tenant, checkpoint.id) {
        Ok(found) => if found.same(checkpoint) {
            Ok(())
        } else {
            Err(broken())
        },
        Err(error) => {
            Err(error)
        },
    }
}

fn next_event(row: &EventRow, issuer: &str, tenant: &str, previous: &EventCheckpoint) -> (r: Result<
    (DeliveryEvent, usize),
    String,
>)
    ensures
        match r {
            Ok((event, bytes)) => continued(row@, issuer@, tenant@, previous@) == Ok::<
                DeliveryEventView,
                Seq<char>,
            >(event@) && cost(event@) == bytes + 1,
            Err(e) => continued(row@, issuer@, tenant@, previous@) == Err::<
                DeliveryEventView,
                Seq<char>,
            >(e@),
        },
{
    proof {
        reveal(continued);
        reveal(cost);
    }
    match event_row(row) {
        Err(error) => Err(error),
        Ok(event) => {
            if !event.verify_for(issuer, tenant) || event.id <= previous.id || !same(
                event.previous_hash.as_str(),
                previous.hash.as_str(),
            ) {
                return Err(broken());
            }
            let text = event.text();
            let bytes: usize = byte_len(text.as_str());
            Ok((event, bytes))
        },
    }
}

/// One page of a tenant's chain.
pub fn event_page(
    events: &Vec<EventRow>,
    issuer: &str,
    tenant: &str,
    start: &EventCheckpoint,
    through: u64,
    limit: usize,
    byte_budget: usize,
) -> (r: Result<Vec<DeliveryEvent>, String>)
    ensures
        outcome(r) == page_of_events(
            events.deep_view(),
            issuer@,
            tenant@,
            start@,
            through,
            limit,
            byte_budget as int,
        ),
{
    let after: i64 = to_wrapped(start.id);
    let last: i64 = to_wrapped(through);
    let hit = |e: &EventRow| -> (b: bool)
        ensures
            b == event_between(tenant@, after, last)(e@),
    {
        same(e.tenant.as_str(), tenant) && e.id > after && e.id <= last
    };
    let before = |a: &EventRow, b: &EventRow| -> (r: bool)
        ensures
            r == earlier_event()(a@, b@),
    {
        a.id < b.id
    };
    let rows = select(events, hit, Ghost(event_between(tenant@, after, last)));
    let rows = sort_rows(rows, before, Ghost(earlier_event()));
    let rows = page_rows(
        &rows,
        0,
        if limit > 100 {
            100
        } else {
            limit
        },
    );
    let ghost all = rows.deep_view();
    let mut previous = start.dup();
    let mut found: Vec<DeliveryEvent> = Vec::new();
    let mut budget: usize = byte_budget;
    let mut i: usize = 0;
    proof {
        assert(all.skip(0) =~= all);
        assert(found.deep_view() =~= Seq::empty());
    }
    while i < rows.len()
        invariant
            i <= rows.len(),
            all == rows.deep_view(),
            page_of_events(
                events.deep_view(),
                issuer@,
                tenant@,
                start@,
                through,
                limit,
                byte_budget as int,
            ) == linked(
                all.skip(i as int),
                issuer@,
                tenant@,
                previous@,
                budget as int,
                found.deep_view(),
            ),
        decreases rows.len() - i,
    {
        assert(all.skip(i as int)[0] == rows@[i as int].deep_view());
        assert(all.skip(i as int).skip(1) =~= all.skip(i + 1));
        match next_event(&rows[i], issuer, tenant, &previous) {
            Err(error) => {
                return Err(error);
            },
            Ok((event, bytes)) => {
                assert(found.deep_view().len() == found.len());
                if bytes >= budget {
                    if found.len() == 0 {
                        return Err(broken());
                    }
                    return Ok(found);
                }
                budget = budget - bytes - 1;
                previous = EventCheckpoint::of(&event);
                let ghost taken = found.deep_view();
                found.push(event);
                assert(found.deep_view() =~= taken.push(event@));
            },
        }
        i += 1;
    }
    Ok(found)
}

impl Store {
    /// The next event of a tenant's chain, not signed yet; `payload` is JSON text.
    pub fn draft_delivery_event(
        &self,
        issuer: &str,
        tenant: &str,
        grant_id: &str,
        kind: &str,
        payload: &str,
        now: u64,
    ) -> (r: Result<DeliveryEvent, String>)
        ensures
            outcome(r) == drafted(self@, issuer@, tenant@, grant_id@, kind@, payload@, now),
    {
        let id_of = |e: &EventRow| -> (r: i64)
            ensures
                r.deep_view() == (|e: EventRowView| e.id)(e@),
        {
            e.id
        };
        let mut ids = project(&self.events, id_of, Ghost(|e: EventRowView| e.id));
        let ghost given = ids.deep_view();
        ids.push(self.event_sequence);
        assert(ids@ =~= event_ids(self@)) by {
            assert forall|i: int| 0 <= i < ids@.len() implies ids@[i] == event_ids(self@)[i] by {
                if i < given.len() {
                    assert(given[i] == ids@[i]);
                }
            }
        }
        let id: i64 = match allot_id(&ids) {
            Some(id) => id,
            None => return Err("database or disk is full".to_owned()),
        };
        proof {
            crate::table::lemma_greatest(event_ids(self@));
            reveal_strlit("");
            assert(""@ =~= Seq::empty());
        }
        let previous_hash = match last_row(&self.events, tenant, i64::MAX) {
            Some(row) => row.hash,
            None => "".to_owned(),
        };
        Ok(
            DeliveryEvent {
                id: id as u64,
                tenant: tenant.to_owned(),
                grant_id: grant_id.to_owned(),
                kind: kind.to_owned(),
                created_at: now,
                payload: payload.to_owned(),
                previous_hash,
                hash: "".to_owned(),
                issuer: issuer.to_owned(),
                signature: "".to_owned(),
            },
        )
    }

    /// Puts a drafted event at the end of its chain under its signature.
    pub fn append_delivery_event(&mut self, draft: &DeliveryEvent, signature: &str)
        ensures
            final(self)@ == chained(old(self)@, draft@, signature@),
    {
        let document = draft.document();
        append_row(
            &mut self.events,
            EventRow {
                id: to_wrapped(draft.id),
                tenant: draft.tenant.clone(),
                grant_id: draft.grant_id.clone(),
                kind: draft.kind.clone(),
                created_at: to_wrapped(draft.created_at),
                payload: draft.payload.clone(),
                previous_hash: draft.previous_hash.clone(),
                hash: hash_document(document.as_str(), signature),
                issuer: draft.issuer.clone(),
                signature: signature.to_owned(),
            },
        );
        self.event_sequence = to_wrapped(draft.id);
    }

    /// Appends an event, signed by `sign`, to a tenant's chain.
    pub fn delivery_event<F: Fn(&str) -> String>(
        &mut self,
        issuer: &str,
        tenant: &str,
        grant_id: &str,
        kind: &str,
        payload: &str,
        now: u64,
        sign: F,
    ) -> (r: Result<(), String>)
        requires
            forall|d: &str| sign.requires((d,)),
        ensures
            match drafted(old(self)@, issuer@, tenant@, grant_id@, kind@, payload@, now) {
                Ok(event) => r is Ok && exists|signature: Seq<char>|
                    (#[trigger] signs(sign, document_of(event), signature)) && final(self)@
                        == chained(old(self)@, event, signature),
                Err(e) => final(self)@ == old(self)@ && (r matches Err(error) && error@ == e),
            },
    {
        match self.draft_delivery_event(issuer, tenant, grant_id, kind, payload, now) {
            Ok(draft) => {
                let document = draft.document();
                let text = document.as_str();
                let signature = sign(text);
                assert(sign.ensures((text,), signature));
                assert(signs(sign, document_of(draft@), signature@));
                self.append_delivery_event(&draft, signature.as_str());
                proof {
                    let event = drafted(
                        old(self)@,
                        issuer@,
                        tenant@,
                        grant_id@,
                        kind@,
                        payload@,
                        now,
                    )->Ok_0;
                    assert(signs(sign, document_of(event), signature@));
                    assert(self@ == chained(old(self)@, event, signature@));
                }
                Ok(())
            },
            Err(error) => Err(error),
        }
    }

    /// The digest of a delivery. `digest` is the one of the grant's
    /// [`manifest_entries`](crate::records::OutboundGrant::manifest_entries),
    /// and is remembered where none was.
    pub fn delivery_manifest(&mut self, grant_id: &str, digest: &str) -> (r: Result<String, String>)
        ensures
            follows(
                manifest_known(old(self)@, grant_id@, digest@),
                old(self)@,
                final(self)@,
                r,
            ),
    {
        let hit = |d: &DigestRow| -> (b: bool)
            ensures
                b == digest_of(grant_id@)(d@),
        {
            same(d.grant_id.as_str(), grant_id)
        };
        if let Some(found) = find(&self.digests, hit, Ghost(digest_of(grant_id@))) {
            return Ok(self.digests[found].digest.clone());
        }
        match self.outbound_grant_by_id(grant_id) {
            Err(error) => Err(error),
            Ok(None) => Err("delivery not found".to_owned()),
            Ok(Some(_)) => {
                append_row(
                    &mut self.digests,
                    DigestRow { grant_id: grant_id.to_owned(), digest: digest.to_owned() },
                );
                Ok(digest.to_owned())
            },
        }
    }

    fn admit_evidence(&self, evidence: &Evidence) -> (r: Result<bool, String>)
        ensures
            outcome(r) == evidence_admitted(self@, evidence@),
    {
        let grant_id = evidence.grant_id.as_str();
        let holder = evidence.holder.as_str();
        let id = evidence.id.as_str();
        let granted = |g: &GrantRow| -> (b: bool)
            ensures
                b == grant_is(grant_id@)(g@),
        {
            same(g.id.as_str(), grant_id)
        };
        if !exists_where(&self.grants, granted, Ghost(grant_is(grant_id@))) {
            return Err("delivery not found".to_owned());
        }
        let known = |d: &DigestRow| -> (b: bool)
            ensures
                b == digest_of(grant_id@)(d@),
        {
            same(d.grant_id.as_str(), grant_id)
        };
        let found: usize = match find(&self.digests, known, Ghost(digest_of(grant_id@))) {
            Some(found) => found,
            None => return Err("delivery manifest missing".to_owned()),
        };
        if !same(self.digests[found].digest.as_str(), evidence.manifest.as_str()) {
            return Err("delivery manifest changed".to_owned());
        }
        let reported = |e: &EvidenceRow| -> (b: bool)
            ensures
                b == evidence_is(id@)(e@),
        {
            same(e.id.as_str(), id)
        };
        if exists_where(&self.evidence, reported, Ghost(evidence_is(id@))) {
            return Ok(false);
        }
        if evidence.kind == EvidenceKind::Accepted {
            let verified = |e: &EvidenceRow| -> (b: bool)
                ensures
                    b == evidence_by(grant_id@, holder@, "verified"@)(e@),
            {
                same(e.grant_id.as_str(), grant_id) && same(e.holder.as_str(), holder) && same(
                    e.kind.as_str(),
                    "verified",
                )
            };
            if !exists_where(
                &self.evidence,
                verified,
                Ghost(evidence_by(grant_id@, holder@, "verified"@)),
            ) {
                return Err("this device must report verification before acceptance".to_owned());
            }
        }
        let on_it = |e: &EvidenceRow| -> (b: bool)
            ensures
                b == evidence_on(grant_id@)(e@),
        {
            same(e.grant_id.as_str(), grant_id)
        };
        if count_where(&self.evidence, on_it, Ghost(evidence_on(grant_id@))) >= 2000 {
            return Err("delivery evidence limit reached".to_owned());
        }
        match self.next_evidence_id() {
            Some(_) => Ok(true),
            None => Err("database or disk is full".to_owned()),
        }
    }

    fn next_evidence_id(&self) -> (r: Option<i64>)
        ensures
            r == next_id(evidence_ids(self@.evidence)),
    {
        let id_of = |e: &EvidenceRow| -> (r: i64)
            ensures
                r.deep_view() == (|e: EvidenceRowView| e.rowid)(e@),
        {
            e.rowid
        };
        let ids = project(&self.evidence, id_of, Ghost(|e: EvidenceRowView| e.rowid));
        assert(ids@ =~= evidence_ids(self@.evidence)) by {
            assert forall|i: int| 0 <= i < ids@.len() implies ids@[i] == evidence_ids(
                self@.evidence,
            )[i] by {
                assert(ids.deep_view()[i] == evidence_ids(self@.evidence)[i]);
            }
        }
        allot_id(&ids)
    }

    /// Records a device's report on a delivery, and says whether it was new. The
    /// first of its kind from its device goes into the tenant's chain, signed by
    /// `sign` for `issuer`.
    pub fn record_delivery_evidence<F: Fn(&str) -> String>(
        &mut self,
        evidence: &Evidence,
        now: u64,
        issuer: &str,
        sign: F,
    ) -> (r: Result<bool, String>)
        requires
            forall|d: &str| sign.requires((d,)),
        ensures
            outcome(r) == evidence_outcome(old(self)@, issuer@, evidence@, now),
            match evidence_document(old(self)@, issuer@, evidence@, now) {
                Some(document) => exists|signature: Seq<char>|
                    (#[trigger] signs(sign, document, signature)) && final(self)@
                        == evidence_recorded(old(self)@, issuer@, evidence@, now, signature),
                None => final(self)@ == evidence_recorded(
                    old(self)@,
                    issuer@,
                    evidence@,
                    now,
                    Seq::empty(),
                ),
            },
    {
        match self.admit_evidence(evidence) {
            Ok(true) => {},
            other => return other,
        }
        let grant_id = evidence.grant_id.as_str();
        let holder = evidence.holder.as_str();
        let kind = match evidence.kind {
            EvidenceKind::Verified => "verified",
            EvidenceKind::Accepted => "accepted",
        };
        let granted = |g: &GrantRow| -> (b: bool)
            ensures
                b == grant_is(grant_id@)(g@),
        {
            same(g.id.as_str(), grant_id)
        };
        let tenant = match find(&self.grants, granted, Ghost(grant_is(grant_id@))) {
            Some(found) => self.grants[found].tenant.clone(),
            None => return Err("delivery not found".to_owned()),
        };
        let before = |e: &EvidenceRow| -> (b: bool)
            ensures
                b == evidence_by(grant_id@, holder@, kind@)(e@),
        {
            same(e.grant_id.as_str(), grant_id) && same(e.holder.as_str(), holder) && same(
                e.kind.as_str(),
                kind,
            )
        };
        let previous = exists_where(
            &self.evidence,
            before,
            Ghost(evidence_by(grant_id@, holder@, kind@)),
        );
        let rowid: i64 = match self.next_evidence_id() {
            Some(rowid) => rowid,
            None => return Err("database or disk is full".to_owned()),
        };
        let row = EvidenceRow {
            rowid,
            id: evidence.id.clone(),
            grant_id: evidence.grant_id.clone(),
            holder: evidence.holder.clone(),
            kind: kind.to_owned(),
            received_at: to_wrapped(now),
            document: evidence.document.clone(),
        };
        if previous {
            append_row(&mut self.evidence, row);
            return Ok(true);
        }
        let name = match evidence.kind {
            EvidenceKind::Verified => "recipient_verified",
            EvidenceKind::Accepted => "recipient_accepted",
        };
        let mut members: Vec<(String, String)> = Vec::new();
        members.push(member("evidence_id", quoted(evidence.id.as_str())));
        members.push(member("holder", quoted(holder)));
        members.push(member("manifest", quoted(evidence.manifest.as_str())));
        assert(members.deep_view() =~= seq![
            ("evidence_id"@, json_string(evidence.id@)),
            ("holder"@, json_string(evidence.holder@)),
            ("manifest"@, json_string(evidence.manifest@)),
        ]);
        let payload = object(&members);
        match self.draft_delivery_event(
            issuer,
            tenant.as_str(),
            grant_id,
            name,
            payload.as_str(),
            now,
        ) {
            Ok(draft) => {
                assert(evidence_event(old(self)@, issuer@, evidence@, now) == Ok::<
                    DeliveryEventView,
                    Seq<char>,
                >(draft@));
                append_row(&mut self.evidence, row);
                let document = draft.document();
                let text = document.as_str();
                let signature = sign(text);
                assert(sign.ensures((text,), signature));
                assert(signs(sign, document_of(draft@), signature@));
                self.append_delivery_event(&draft, signature.as_str());
                proof {
                    let document = evidence_document(old(self)@, issuer@, evidence@, now)->0;
                    assert(signs(sign, document, signature@));
                    assert(self@ == evidence_recorded(
                        old(self)@,
                        issuer@,
                        evidence@,
                        now,
                        signature@,
                    ));
                }
                Ok(true)
            },
            Err(error) => {
                Err(error)
            },
        }
    }

    /// Whether a report is on record.
    pub fn delivery_evidence_recorded(&self, id: &str) -> (r: Result<bool, String>)
        ensures
            outcome(r) == Ok::<bool, Seq<char>>(crate::attestations::on_record(self@, id@)),
    {
        let hit = |e: &EvidenceRow| -> (b: bool)
            ensures
                b == evidence_is(id@)(e@),
        {
            same(e.id.as_str(), id)
        };
        Ok(exists_where(&self.evidence, hit, Ghost(evidence_is(id@))))
    }

    /// The reports on a delivery after a number, as JSON texts.
    pub fn delivery_evidence(&self, grant_id: &str, after: u64, limit: usize) -> (r: Result<
        Vec<String>,
        String,
    >)
        ensures
            outcome(r) == crate::attestations::reports_listed(self@, grant_id@, after, limit),
    {
        let after: i64 = to_wrapped(after);
        let hit = |e: &EvidenceRow| -> (b: bool)
            ensures
                b == evidence_after(grant_id@, after)(e@),
        {
            same(e.grant_id.as_str(), grant_id) && e.rowid > after
        };
        let before = |a: &EvidenceRow, b: &EvidenceRow| -> (r: bool)
            ensures
                r == earlier_evidence()(a@, b@),
        {
            a.rowid < b.rowid
        };
        let show = |e: &EvidenceRow| -> (r: Result<String, String>)
            ensures
                outcome(r) == listed_evidence()(e@),
        {
            list_evidence(e)
        };
        let rows = select(&self.evidence, hit, Ghost(evidence_after(grant_id@, after)));
        let rows = sort_rows(rows, before, Ghost(earlier_evidence()));
        let rows = page_rows(
            &rows,
            0,
            if limit > 100 {
                100
            } else {
                limit
            },
        );
        try_project(&rows, show, Ghost(listed_evidence()))
    }

    /// The events of a tenant's chain after a number, each verified.
    pub fn delivery_events(&self, issuer: &str, tenant: &str, after: u64, limit: usize) -> (r: Result<
        Vec<DeliveryEvent>,
        String,
    >)
        ensures
            outcome(r) == events_after(self@.events, issuer@, tenant@, after, limit),
    {
        if after > i64::MAX as u64 {
            return Err(broken());
        }
        match predecessor(&self.events, issuer, tenant, after) {
            Ok(start) => event_page(
                &self.events,
                issuer,
                tenant,
                &start,
                i64::MAX as u64,
                limit,
                MAX_EVENT_PAGE_BYTES - 128,
            ),
            Err(error) => Err(error),
        }
    }

    /// An export of a tenant's chain from one checkpoint on, up to another or to
    /// the chain's end.
    pub fn delivery_event_export(
        &self,
        issuer: &str,
        tenant: &str,
        start: EventCheckpoint,
        terminal: Option<EventCheckpoint>,
        limit: usize,
    ) -> (r: Result<EventExport, String>)
        ensures
            outcome(r) == exported(
                self@.events,
                issuer@,
                tenant@,
                start@,
                terminal.deep_view(),
                limit,
            ),
    {
        if limit < 1 || limit > 100 {
            return Err(broken());
        }
        if let Err(error) = require_checkpoint(&self.events, issuer, tenant, &start) {
            return Err(error);
        }
        let terminal = match terminal {
            Some(terminal) => {
                if let Err(error) = require_checkpoint(&self.events, issuer, tenant, &terminal) {
                    return Err(error);
                }
                terminal
            },
            None => match predecessor(&self.events, issuer, tenant, i64::MAX as u64) {
                Ok(terminal) => terminal,
                Err(error) => return Err(error),
            },
        };
        if start.id > terminal.id {
            return Err(broken());
        }
        let envelope = empty_export(issuer, tenant, &start, &terminal);
        let envelope: usize = byte_len(envelope.as_str());
        if envelope > MAX_EVENT_PAGE_BYTES {
            return Err(broken());
        }
        let events = match event_page(
            &self.events,
            issuer,
            tenant,
            &start,
            terminal.id,
            limit,
            MAX_EVENT_PAGE_BYTES - envelope,
        ) {
            Ok(events) => events,
            Err(error) => return Err(error),
        };
        assert(events.deep_view().len() == events.len());
        let end = if events.len() == 0 {
            start.dup()
        } else {
            assert(events.deep_view().last() == events@[events.len() - 1].deep_view());
            EventCheckpoint::of(&events[events.len() - 1])
        };
        let complete = end.same(&terminal);
        if !complete && events.len() == 0 {
            return Err(broken());
        }
        Ok(
            EventExport {
                format: "votport-delivery-events-v1".to_owned(),
                issuer: issuer.to_owned(),
                tenant: tenant.to_owned(),
                start,
                end,
                terminal,
                complete,
                events,
            },
        )
    }
}

fn list_evidence(e: &EvidenceRow) -> (r: Result<String, String>)
    ensures
        outcome(r) == listed_evidence()(e@),
{
    match parse_json(e.document.as_str()) {
        Err(error) => Err(error),
        Ok(document) => {
            let mut members: Vec<(String, String)> = Vec::new();
            members.push(member("cursor", i64_text(e.rowid)));
            members.push(member("evidence", document));
            members.push(member("received_at", i64_text(e.received_at)));
            assert(members.deep_view() =~= seq![
                ("cursor"@, signed_decimal(e.rowid as int)),
                ("evidence"@, document@),
                ("received_at"@, signed_decimal(e.received_at as int)),
            ]);
            Ok(object(&members))
        },
    }
}

} // verus!
