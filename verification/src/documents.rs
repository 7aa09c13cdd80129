//! Documents say what they are about: from the text of an object the values of its members can
//! be told, so that what is signed or kept of a record is that record and no other.
use vstd::prelude::*;

use crate::conversion::{conversion_text, prepared_text, token_message};
use crate::decimal::{decimal, decimal_stands_for_its_number, is_digit, signed_decimal};
use crate::evidence::{checkpoint_text, document_of, event_text, evidence_payload};
use crate::hexadecimal::{hex_digit, hex_text, hex_value};
use crate::json::{
    json_array, json_bool, json_escape, json_escaped, json_members, json_object, json_string,
};
use crate::notifications::public_text;
use crate::records::{
    ConversionView, DeliveryEventView, EventCheckpointView, EvidenceView,
    NotificationDestinationView,
};
use crate::text::{contains, occurs_at};
use crate::upgrade::rotation_payload;

verus! {

// -------------------------------------------------------------------- strings
proof fn lemma_escaped_front(s: Seq<char>)
    requires
        s.len() > 0,
    ensures
        json_escaped(s) == json_escape(s[0]) + json_escaped(s.skip(1)),
    decreases s.len(),
{
    let h = s.drop_last();
    let tail = s.skip(1);
    if s.len() == 1 {
        assert(h =~= Seq::<char>::empty());
        assert(tail =~= Seq::<char>::empty());
        assert(json_escaped(h) + json_escape(s.last()) =~= json_escape(s[0]) + json_escaped(tail));
    } else {
        lemma_escaped_front(h);
        assert(tail.drop_last() =~= h.skip(1));
        assert(tail.last() == s.last());
        assert(json_escape(h[0]) + json_escaped(h.skip(1)) + json_escape(s.last()) =~= json_escape(
            s[0],
        ) + (json_escaped(h.skip(1)) + json_escape(s.last())));
    }
}

proof fn lemma_hex_digits(n: int)
    requires
        0 <= n < 32,
    ensures
        hex_value(hex_digit(n / 16)) == Some(n / 16),
        hex_value(hex_digit(n % 16)) == Some(n % 16),
        n == (n / 16) * 16 + n % 16,
{
}

proof fn lemma_escape_apart(c: char, d: char, u: Seq<char>, v: Seq<char>)
    requires
        json_escape(c) + u == json_escape(d) + v,
    ensures
        c == d,
        u == v,
{
    let a = json_escape(c);
    let b = json_escape(d);
    let x = a + u;
    let y = b + v;
    assert(x[0] == a[0] && y[0] == b[0]);
    if a.len() > 1 {
        assert(x[1] == a[1]);
    }
    if b.len() > 1 {
        assert(y[1] == b[1]);
    }
    assert(a.len() == 1 ==> a[0] == c && c != '\\');
    assert(b.len() == 1 ==> b[0] == d && d != '\\');
    assert(a.len() > 1 ==> a[0] == '\\');
    assert(b.len() > 1 ==> b[0] == '\\');
    if a.len() > 1 && b.len() > 1 {
        assert(a[1] == b[1]);
        if a.len() == 6 {
            assert(a[1] == 'u');
            assert(b.len() == 6);
            assert(x[4] == a[4] && x[5] == a[5] && y[4] == b[4] && y[5] == b[5]);
            lemma_hex_digits(c as int);
            lemma_hex_digits(d as int);
            assert(c as int == d as int);
        } else {
            assert(a.len() == 2);
            assert(b.len() == 2);
        }
    }
    assert(c == d);
    assert(x.skip(a.len() as int) =~= u);
    assert(y.skip(b.len() as int) =~= v);
}

proof fn lemma_string_apart(a: Seq<char>, b: Seq<char>, x: Seq<char>, y: Seq<char>)
    requires
        json_escaped(a) + seq!['"'] + x == json_escaped(b) + seq!['"'] + y,
    ensures
        a == b,
        x == y,
    decreases a.len() + b.len(),
{
    let l = json_escaped(a) + seq!['"'] + x;
    let r = json_escaped(b) + seq!['"'] + y;
    if a.len() > 0 {
        lemma_escaped_front(a);
        assert(json_escape(a[0])[0] != '"');
        assert(l[0] == json_escape(a[0])[0]);
    } else {
        assert(l[0] == '"');
    }
    if b.len() > 0 {
        lemma_escaped_front(b);
        assert(json_escape(b[0])[0] != '"');
        assert(r[0] == json_escape(b[0])[0]);
    } else {
        assert(r[0] == '"');
    }
    if a.len() > 0 {
        let p = a.skip(1);
        let q = b.skip(1);
        let u = json_escaped(p) + seq!['"'] + x;
        let v = json_escaped(q) + seq!['"'] + y;
        assert(l =~= json_escape(a[0]) + u);
        assert(r =~= json_escape(b[0]) + v);
        lemma_escape_apart(a[0], b[0], u, v);
        lemma_string_apart(p, q, x, y);
        assert(a =~= seq![a[0]] + p);
        assert(b =~= seq![b[0]] + q);
    } else {
        assert(l.skip(1) =~= x);
        assert(r.skip(1) =~= y);
        assert(a =~= b);
    }
}

/// A JSON string tells the text it stands for, and where it ends.
pub proof fn strings_tell_their_text(a: Seq<char>, b: Seq<char>, x: Seq<char>, y: Seq<char>)
    requires
        json_string(a) + x == json_string(b) + y,
    ensures
        a == b,
        x == y,
{
    let u = json_escaped(a) + seq!['"'] + x;
    let v = json_escaped(b) + seq!['"'] + y;
    assert((json_string(a) + x).skip(1) =~= u);
    assert((json_string(b) + y).skip(1) =~= v);
    lemma_string_apart(a, b, x, y);
}

// --------------------------------------------------------------------- numbers
/// A number in decimal tells the number, and where it ends.
pub proof fn numbers_tell_themselves(m: nat, n: nat, x: Seq<char>, y: Seq<char>)
    requires
        decimal(m) + x == decimal(n) + y,
        x.len() > 0 ==> !is_digit(x[0]),
        y.len() > 0 ==> !is_digit(y[0]),
    ensures
        m == n,
        x == y,
{
    decimal_stands_for_its_number(m);
    decimal_stands_for_its_number(n);
    let a = decimal(m);
    let b = decimal(n);
    let l = a + x;
    let r = b + y;
    if a.len() < b.len() {
        assert(l[a.len() as int] == x[0]);
        assert(r[a.len() as int] == b[a.len() as int]);
    }
    if b.len() < a.len() {
        assert(r[b.len() as int] == y[0]);
        assert(l[b.len() as int] == a[b.len() as int]);
    }
    assert(a =~= l.take(a.len() as int));
    assert(b =~= r.take(b.len() as int));
    assert(x =~= l.skip(a.len() as int));
    assert(y =~= r.skip(b.len() as int));
}

/// A number with a sign is its digits, behind a minus sign where it is negative.
pub proof fn signs_stand_before_digits(n: nat)
    ensures
        signed_decimal(n as int) == decimal(n),
        n > 0 ==> signed_decimal(-(n as int)) == seq!['-'] + decimal(n),
{
}

/// A byte in hexadecimal is two digits, the higher half first, of `0` to `9` and `a` to `f`.
pub proof fn bytes_are_two_digits(bytes: Seq<u8>, i: int)
    requires
        0 <= i < bytes.len(),
    ensures
        hex_text(bytes).len() == 2 * bytes.len(),
        hex_value(hex_text(bytes)[2 * i]) == Some(bytes[i] as int / 16),
        hex_value(hex_text(bytes)[2 * i + 1]) == Some(bytes[i] as int % 16),
        hex_text(bytes)[2 * i] < 'g' && hex_text(bytes)[2 * i] >= '0',
        !('A' <= hex_text(bytes)[2 * i] && hex_text(bytes)[2 * i] <= 'Z'),
        hex_value('0') == Some(0int) && hex_value('9') == Some(9int) && hex_value('a') == Some(10int)
            && hex_value('f') == Some(15int) && hex_value('A') == Some(10int) && hex_value('g')
            is None,
{
    let b = bytes[i] as int;
    assert((2 * i) / 2 == i && (2 * i) % 2 == 0);
    assert((2 * i + 1) / 2 == i && (2 * i + 1) % 2 == 1);
    assert(0 <= b / 16 < 16 && 0 <= b % 16 < 16);
}

// --------------------------------------------------------------------- objects
/// Whether two values can be told apart: both are strings, or both are numbers; or they are
/// the same.
pub open spec fn alike(v: Seq<char>, w: Seq<char>) -> bool {
    ||| v == w
    ||| exists|a: Seq<char>, b: Seq<char>|
        v == #[trigger] json_string(a) && w == #[trigger] json_string(b)
    ||| exists|m: nat, n: nat| v == #[trigger] decimal(m) && w == #[trigger] decimal(n)
}

/// Whether a text goes on as an object does behind a value.
pub open spec fn goes_on(x: Seq<char>) -> bool {
    x.len() > 0 && (x[0] == ',' || x[0] == '}')
}

proof fn lemma_value_apart(v: Seq<char>, w: Seq<char>, x: Seq<char>, y: Seq<char>)
    requires
        alike(v, w),
        v + x == w + y,
        goes_on(x),
        goes_on(y),
    ensures
        v == w,
        x == y,
{
    if v == w {
        assert((v + x).skip(v.len() as int) =~= x);
        assert((w + y).skip(w.len() as int) =~= y);
    } else if exists|a: Seq<char>, b: Seq<char>|
        v == #[trigger] json_string(a) && w == #[trigger] json_string(b) {
        let (a, b) = choose|a: Seq<char>, b: Seq<char>|
            v == #[trigger] json_string(a) && w == #[trigger] json_string(b);
        strings_tell_their_text(a, b, x, y);
    } else {
        let (m, n) = choose|m: nat, n: nat|
            v == #[trigger] decimal(m) && w == #[trigger] decimal(n);
        numbers_tell_themselves(m, n, x, y);
    }
}

/// A member of an object.
pub open spec fn member_text(m: (Seq<char>, Seq<char>)) -> Seq<char> {
    json_string(m.0) + seq![':'] + m.1
}

proof fn lemma_members_front(ms: Seq<(Seq<char>, Seq<char>)>)
    requires
        ms.len() > 1,
    ensures
        json_members(ms) == member_text(ms[0]) + seq![','] + json_members(ms.skip(1)),
    decreases ms.len(),
{
    let h = ms.drop_last();
    let tail = ms.skip(1);
    assert(tail.last() == ms.last());
    assert(tail.drop_last() =~= h.skip(1));
    if ms.len() == 2 {
        assert(h.last() == ms[0]);
        assert(tail.len() == 1);
        assert(json_members(h) == member_text(ms[0]));
        assert(json_members(tail) == member_text(ms.last()));
        assert(json_members(ms) =~= member_text(ms[0]) + seq![','] + json_members(tail));
    } else {
        lemma_members_front(h);
        assert(h[0] == ms[0]);
        assert(json_members(tail) == json_members(h.skip(1)) + seq![','] + member_text(ms.last()));
        assert(json_members(ms) =~= member_text(ms[0]) + seq![','] + json_members(tail));
    }
}

proof fn lemma_members_apart(
    a: Seq<(Seq<char>, Seq<char>)>,
    b: Seq<(Seq<char>, Seq<char>)>,
    x: Seq<char>,
    y: Seq<char>,
)
    requires
        a.len() == b.len(),
        a.len() > 0,
        forall|i: int| 0 <= i < a.len() ==> (#[trigger] a[i]).0 == b[i].0 && alike(a[i].1, b[i].1),
        json_members(a) + x == json_members(b) + y,
        goes_on(x),
        goes_on(y),
    ensures
        a == b,
    decreases a.len(),
{
    let key = json_string(a[0].0) + seq![':'];
    let n = key.len() as int;
    if a.len() == 1 {
        assert(json_members(a) == key + a[0].1);
        assert(json_members(b) == key + b[0].1);
        assert((json_members(a) + x).skip(n) =~= a[0].1 + x);
        assert((json_members(b) + y).skip(n) =~= b[0].1 + y);
        lemma_value_apart(a[0].1, b[0].1, x, y);
        assert(a =~= b);
    } else {
        lemma_members_front(a);
        lemma_members_front(b);
        let p = a.skip(1);
        let q = b.skip(1);
        let u = seq![','] + json_members(p) + x;
        let v = seq![','] + json_members(q) + y;
        assert((json_members(a) + x).skip(n) =~= a[0].1 + u);
        assert((json_members(b) + y).skip(n) =~= b[0].1 + v);
        lemma_value_apart(a[0].1, b[0].1, u, v);
        assert(u.skip(1) =~= json_members(p) + x);
        assert(v.skip(1) =~= json_members(q) + y);
        assert forall|i: int| 0 <= i < p.len() implies (#[trigger] p[i]).0 == q[i].0 && alike(
            p[i].1,
            q[i].1,
        ) by {
            assert(p[i] == a[i + 1] && q[i] == b[i + 1]);
        }
        lemma_members_apart(p, q, x, y);
        assert(a =~= seq![a[0]] + p);
        assert(b =~= seq![b[0]] + q);
    }
}

/// Two objects of the same keys whose values can be told apart are the same text only if they
/// are of the same members.
pub proof fn objects_tell_their_members(
    a: Seq<(Seq<char>, Seq<char>)>,
    b: Seq<(Seq<char>, Seq<char>)>,
)
    requires
        a.len() == b.len(),
        a.len() > 0,
        forall|i: int| 0 <= i < a.len() ==> (#[trigger] a[i]).0 == b[i].0 && alike(a[i].1, b[i].1),
        json_object(a) == json_object(b),
    ensures
        a == b,
{
    let end = seq!['}'];
    assert(json_object(a).skip(1) =~= json_members(a) + end);
    assert(json_object(b).skip(1) =~= json_members(b) + end);
    lemma_members_apart(a, b, end, end);
}

proof fn lemma_texts(a: Seq<char>, b: Seq<char>)
    ensures
        alike(json_string(a), json_string(b)),
        json_string(a) == json_string(b) ==> a == b,
{
    if json_string(a) == json_string(b) {
        assert(json_string(a) + Seq::<char>::empty() =~= json_string(a));
        assert(json_string(b) + Seq::<char>::empty() =~= json_string(b));
        strings_tell_their_text(a, b, Seq::empty(), Seq::empty());
    }
}

proof fn lemma_numbers(m: nat, n: nat)
    ensures
        alike(decimal(m), decimal(n)),
        decimal(m) == decimal(n) ==> m == n,
{
    decimal_stands_for_its_number(m);
    decimal_stands_for_its_number(n);
}

// ---------------------------------------------------------------------- events
/// What is signed of an event tells all of it: of two events with one payload, the documents
/// are the same only if the events are, but for the signature and the hash over it.
#[verifier::rlimit(40)]
pub proof fn signed_documents_tell_their_event(a: DeliveryEventView, b: DeliveryEventView)
    requires
        a.payload == b.payload,
        document_of(a) == document_of(b),
    ensures
        a.id == b.id && a.created_at == b.created_at,
        a.tenant == b.tenant && a.grant_id == b.grant_id && a.kind == b.kind,
        a.issuer == b.issuer && a.previous_hash == b.previous_hash,
{
    let p = seq![
        ("created_at"@, decimal(a.created_at as nat)),
        ("grant_id"@, json_string(a.grant_id)),
        ("id"@, decimal(a.id as nat)),
        ("issuer"@, json_string(a.issuer)),
        ("kind"@, json_string(a.kind)),
        ("payload"@, a.payload),
        ("previous_hash"@, json_string(a.previous_hash)),
        ("tenant"@, json_string(a.tenant)),
    ];
    let q = seq![
        ("created_at"@, decimal(b.created_at as nat)),
        ("grant_id"@, json_string(b.grant_id)),
        ("id"@, decimal(b.id as nat)),
        ("issuer"@, json_string(b.issuer)),
        ("kind"@, json_string(b.kind)),
        ("payload"@, b.payload),
        ("previous_hash"@, json_string(b.previous_hash)),
        ("tenant"@, json_string(b.tenant)),
    ];
    lemma_numbers(a.created_at as nat, b.created_at as nat);
    lemma_numbers(a.id as nat, b.id as nat);
    lemma_texts(a.grant_id, b.grant_id);
    lemma_texts(a.issuer, b.issuer);
    lemma_texts(a.kind, b.kind);
    lemma_texts(a.previous_hash, b.previous_hash);
    lemma_texts(a.tenant, b.tenant);
    assert forall|i: int| 0 <= i < p.len() implies (#[trigger] p[i]).0 == q[i].0 && alike(
        p[i].1,
        q[i].1,
    ) by {
        assert(i == 0 || i == 1 || i == 2 || i == 3 || i == 4 || i == 5 || i == 6 || i == 7);
    }
    objects_tell_their_members(p, q);
    assert(p[0] == q[0] && p[1] == q[1] && p[2] == q[2] && p[3] == q[3] && p[4] == q[4] && p[6]
        == q[6] && p[7] == q[7]);
}

/// Where an event stands in its chain is told by what is written of it.
pub proof fn checkpoints_tell_themselves(a: EventCheckpointView, b: EventCheckpointView)
    requires
        checkpoint_text(a) == checkpoint_text(b),
    ensures
        a == b,
{
    let p = seq![("id"@, decimal(a.id as nat)), ("hash"@, json_string(a.hash))];
    let q = seq![("id"@, decimal(b.id as nat)), ("hash"@, json_string(b.hash))];
    lemma_numbers(a.id as nat, b.id as nat);
    lemma_texts(a.hash, b.hash);
    assert forall|i: int| 0 <= i < p.len() implies (#[trigger] p[i]).0 == q[i].0 && alike(
        p[i].1,
        q[i].1,
    ) by {
        assert(i == 0 || i == 1);
    }
    objects_tell_their_members(p, q);
    assert(p[0] == q[0] && p[1] == q[1]);
}

/// What the chain says of a report tells its id, the device and what was delivered.
pub proof fn reports_tell_themselves(a: EvidenceView, b: EvidenceView)
    requires
        evidence_payload(a) == evidence_payload(b),
    ensures
        a.id == b.id && a.holder == b.holder && a.manifest == b.manifest,
{
    let p = seq![
        ("evidence_id"@, json_string(a.id)),
        ("holder"@, json_string(a.holder)),
        ("manifest"@, json_string(a.manifest)),
    ];
    let q = seq![
        ("evidence_id"@, json_string(b.id)),
        ("holder"@, json_string(b.holder)),
        ("manifest"@, json_string(b.manifest)),
    ];
    lemma_texts(a.id, b.id);
    lemma_texts(a.holder, b.holder);
    lemma_texts(a.manifest, b.manifest);
    assert forall|i: int| 0 <= i < p.len() implies (#[trigger] p[i]).0 == q[i].0 && alike(
        p[i].1,
        q[i].1,
    ) by {
        assert(i == 0 || i == 1 || i == 2);
    }
    objects_tell_their_members(p, q);
    assert(p[0] == q[0] && p[1] == q[1] && p[2] == q[2]);
}

/// What the chain says of a rotated link tells its generation.
pub proof fn rotations_tell_their_generation(m: u64, n: u64)
    requires
        rotation_payload(m) == rotation_payload(n),
    ensures
        m == n,
{
    let reason = json_string("offline_schema35_conversion"@);
    let p = seq![("generation"@, decimal(m as nat)), ("reason"@, reason)];
    let q = seq![("generation"@, decimal(n as nat)), ("reason"@, reason)];
    lemma_numbers(m as nat, n as nat);
    assert forall|i: int| 0 <= i < p.len() implies (#[trigger] p[i]).0 == q[i].0 && alike(
        p[i].1,
        q[i].1,
    ) by {
        assert(i == 0 || i == 1);
    }
    objects_tell_their_members(p, q);
    assert(p[0] == q[0]);
}

/// An event that is written out tells all of itself beside its payload.
#[verifier::rlimit(40)]
pub proof fn written_events_tell_themselves(a: DeliveryEventView, b: DeliveryEventView)
    requires
        a.payload == b.payload,
        event_text(a) == event_text(b),
    ensures
        a == b,
{
    let p = seq![
        ("id"@, decimal(a.id as nat)),
        ("tenant"@, json_string(a.tenant)),
        ("grant_id"@, json_string(a.grant_id)),
        ("kind"@, json_string(a.kind)),
        ("created_at"@, decimal(a.created_at as nat)),
        ("payload"@, a.payload),
        ("previous_hash"@, json_string(a.previous_hash)),
        ("hash"@, json_string(a.hash)),
        ("issuer"@, json_string(a.issuer)),
        ("signature"@, json_string(a.signature)),
    ];
    let q = seq![
        ("id"@, decimal(b.id as nat)),
        ("tenant"@, json_string(b.tenant)),
        ("grant_id"@, json_string(b.grant_id)),
        ("kind"@, json_string(b.kind)),
        ("created_at"@, decimal(b.created_at as nat)),
        ("payload"@, b.payload),
        ("previous_hash"@, json_string(b.previous_hash)),
        ("hash"@, json_string(b.hash)),
        ("issuer"@, json_string(b.issuer)),
        ("signature"@, json_string(b.signature)),
    ];
    lemma_numbers(a.created_at as nat, b.created_at as nat);
    lemma_numbers(a.id as nat, b.id as nat);
    lemma_texts(a.grant_id, b.grant_id);
    lemma_texts(a.issuer, b.issuer);
    lemma_texts(a.kind, b.kind);
    lemma_texts(a.previous_hash, b.previous_hash);
    lemma_texts(a.tenant, b.tenant);
    lemma_texts(a.hash, b.hash);
    lemma_texts(a.signature, b.signature);
    assert forall|i: int| 0 <= i < p.len() implies (#[trigger] p[i]).0 == q[i].0 && alike(
        p[i].1,
        q[i].1,
    ) by {
        assert(i == 0 || i == 1 || i == 2 || i == 3 || i == 4 || i == 5 || i == 6 || i == 7 || i
            == 8 || i == 9);
    }
    objects_tell_their_members(p, q);
    assert(p[0] == q[0] && p[1] == q[1] && p[2] == q[2] && p[3] == q[3] && p[4] == q[4] && p[6]
        == q[6] && p[7] == q[7] && p[8] == q[8] && p[9] == q[9]);
}

// ------------------------------------------------------------------ conversions
/// What a database keeps of a conversion tells all of it.
#[verifier::rlimit(40)]
pub proof fn conversions_tell_themselves(a: ConversionView, b: ConversionView)
    requires
        conversion_text(a) == conversion_text(b),
    ensures
        a == b,
{
    let p = seq![
        ("id"@, json_string(a.id)),
        ("source"@, decimal(a.source as nat)),
        ("target"@, decimal(a.target as nat)),
        ("public_url"@, json_string(a.public_url)),
        ("issuer"@, json_string(a.issuer)),
        ("created_at"@, decimal(a.created_at as nat)),
        ("bytes"@, decimal(a.bytes as nat)),
        ("sha256"@, json_string(a.sha256)),
        ("replacements"@, decimal(a.replacements as nat)),
    ];
    let q = seq![
        ("id"@, json_string(b.id)),
        ("source"@, decimal(b.source as nat)),
        ("target"@, decimal(b.target as nat)),
        ("public_url"@, json_string(b.public_url)),
        ("issuer"@, json_string(b.issuer)),
        ("created_at"@, decimal(b.created_at as nat)),
        ("bytes"@, decimal(b.bytes as nat)),
        ("sha256"@, json_string(b.sha256)),
        ("replacements"@, decimal(b.replacements as nat)),
    ];
    lemma_texts(a.id, b.id);
    lemma_texts(a.public_url, b.public_url);
    lemma_texts(a.issuer, b.issuer);
    lemma_texts(a.sha256, b.sha256);
    lemma_numbers(a.source as nat, b.source as nat);
    lemma_numbers(a.target as nat, b.target as nat);
    lemma_numbers(a.created_at as nat, b.created_at as nat);
    lemma_numbers(a.bytes as nat, b.bytes as nat);
    lemma_numbers(a.replacements as nat, b.replacements as nat);
    assert forall|i: int| 0 <= i < p.len() implies (#[trigger] p[i]).0 == q[i].0 && alike(
        p[i].1,
        q[i].1,
    ) by {
        assert(i == 0 || i == 1 || i == 2 || i == 3 || i == 4 || i == 5 || i == 6 || i == 7 || i
            == 8);
    }
    objects_tell_their_members(p, q);
    assert(p[0] == q[0] && p[1] == q[1] && p[2] == q[2] && p[3] == q[3] && p[4] == q[4] && p[5]
        == q[5] && p[6] == q[6] && p[7] == q[7] && p[8] == q[8]);
}

/// The first line of an artifact tells the conversion that it was prepared for.
#[verifier::rlimit(40)]
pub proof fn artifacts_tell_their_conversion(a: ConversionView, b: ConversionView)
    requires
        prepared_text(a) == prepared_text(b),
    ensures
        a.id == b.id && a.issuer == b.issuer && a.public_url == b.public_url,
        a.created_at == b.created_at && a.replacements == b.replacements,
        a.source == b.source && a.target == b.target,
{
    let state = json_string("prepared"@);
    let p = seq![
        ("created_at"@, decimal(a.created_at as nat)),
        ("id"@, json_string(a.id)),
        ("issuer"@, json_string(a.issuer)),
        ("public_url"@, json_string(a.public_url)),
        ("replacements"@, decimal(a.replacements as nat)),
        ("source"@, decimal(a.source as nat)),
        ("state"@, state),
        ("target"@, decimal(a.target as nat)),
    ];
    let q = seq![
        ("created_at"@, decimal(b.created_at as nat)),
        ("id"@, json_string(b.id)),
        ("issuer"@, json_string(b.issuer)),
        ("public_url"@, json_string(b.public_url)),
        ("replacements"@, decimal(b.replacements as nat)),
        ("source"@, decimal(b.source as nat)),
        ("state"@, state),
        ("target"@, decimal(b.target as nat)),
    ];
    lemma_texts(a.id, b.id);
    lemma_texts(a.public_url, b.public_url);
    lemma_texts(a.issuer, b.issuer);
    lemma_numbers(a.source as nat, b.source as nat);
    lemma_numbers(a.target as nat, b.target as nat);
    lemma_numbers(a.created_at as nat, b.created_at as nat);
    lemma_numbers(a.replacements as nat, b.replacements as nat);
    assert forall|i: int| 0 <= i < p.len() implies (#[trigger] p[i]).0 == q[i].0 && alike(
        p[i].1,
        q[i].1,
    ) by {
        assert(i == 0 || i == 1 || i == 2 || i == 3 || i == 4 || i == 5 || i == 6 || i == 7);
    }
    objects_tell_their_members(p, q);
    assert(p[0] == q[0] && p[1] == q[1] && p[2] == q[2] && p[3] == q[3] && p[4] == q[4] && p[5]
        == q[5] && p[7] == q[7]);
}

/// What is signed for a job's token tells the job and the generation.
pub proof fn token_messages_tell_their_job(a: Seq<char>, m: u64, b: Seq<char>, n: u64)
    requires
        token_message(a, m) == token_message(b, n),
    ensures
        a == b,
        m == n,
{
    let head = "votport-job-token-v1\0"@;
    let d = decimal(m as nat);
    let e = decimal(n as nat);
    decimal_stands_for_its_number(m as nat);
    decimal_stands_for_its_number(n as nat);
    reveal_strlit(":");
    let l = token_message(a, m);
    let r = token_message(b, n);
    let len = l.len() as int;
    assert(l[len - 1 - d.len()] == ':');
    assert(r[len - 1 - e.len()] == ':');
    if d.len() < e.len() {
        let k = e.len() - 1 - d.len();
        assert(r[len - 1 - d.len()] == e[k]);
        assert(is_digit(e[k]));
    }
    if e.len() < d.len() {
        let k = d.len() - 1 - e.len();
        assert(l[len - 1 - e.len()] == d[k]);
        assert(is_digit(d[k]));
    }
    assert(d =~= l.skip(len - d.len()));
    assert(e =~= r.skip(len - e.len()));
    assert(a =~= l.subrange(head.len() as int, len - 1 - d.len()));
    assert(b =~= r.subrange(head.len() as int, len - 1 - e.len()));
}

// ---------------------------------------------------------------------- naming
/// Whether the text of an object holds a value under a key.
pub open spec fn holds_under(text: Seq<char>, key: Seq<char>, value: Seq<char>) -> bool {
    contains(text, member_text((key, value)))
}

proof fn lemma_member_stands(ms: Seq<(Seq<char>, Seq<char>)>, i: int) -> (at: int)
    requires
        0 <= i < ms.len(),
    ensures
        occurs_at(json_members(ms), member_text(ms[i]), at),
    decreases ms.len(),
{
    let all = json_members(ms);
    let part = member_text(ms[i]);
    if i == ms.len() - 1 {
        let at = all.len() - part.len();
        assert(all.subrange(at, at + part.len()) =~= part);
        at
    } else {
        let head = ms.drop_last();
        let at = lemma_member_stands(head, i);
        assert(head[i] == ms[i]);
        let before = json_members(head);
        assert(all.subrange(at, at + part.len()) =~= before.subrange(at, at + part.len()));
        at
    }
}

/// An object holds each of its values under its key.
pub proof fn objects_hold_their_members(ms: Seq<(Seq<char>, Seq<char>)>, i: int)
    requires
        0 <= i < ms.len(),
    ensures
        holds_under(json_object(ms), ms[i].0, ms[i].1),
{
    let at = lemma_member_stands(ms, i);
    let part = member_text(ms[i]);
    let inner = json_members(ms);
    let all = json_object(ms);
    assert(all.subrange(at + 1, at + 1 + part.len()) =~= inner.subrange(at, at + part.len()));
    assert(occurs_at(all, part, at + 1));
}

/// What is signed of an event names each part of it.
pub proof fn documents_name_what_they_tell(e: DeliveryEventView)
    ensures
        holds_under(document_of(e), "created_at"@, decimal(e.created_at as nat)),
        holds_under(document_of(e), "grant_id"@, json_string(e.grant_id)),
        holds_under(document_of(e), "id"@, decimal(e.id as nat)),
        holds_under(document_of(e), "issuer"@, json_string(e.issuer)),
        holds_under(document_of(e), "kind"@, json_string(e.kind)),
        holds_under(document_of(e), "payload"@, e.payload),
        holds_under(document_of(e), "previous_hash"@, json_string(e.previous_hash)),
        holds_under(document_of(e), "tenant"@, json_string(e.tenant)),
{
    let ms = seq![
        ("created_at"@, decimal(e.created_at as nat)),
        ("grant_id"@, json_string(e.grant_id)),
        ("id"@, decimal(e.id as nat)),
        ("issuer"@, json_string(e.issuer)),
        ("kind"@, json_string(e.kind)),
        ("payload"@, e.payload),
        ("previous_hash"@, json_string(e.previous_hash)),
        ("tenant"@, json_string(e.tenant)),
    ];
    objects_hold_their_members(ms, 0);
    objects_hold_their_members(ms, 1);
    objects_hold_their_members(ms, 2);
    objects_hold_their_members(ms, 3);
    objects_hold_their_members(ms, 4);
    objects_hold_their_members(ms, 5);
    objects_hold_their_members(ms, 6);
    objects_hold_their_members(ms, 7);
}

/// An event that is written out names each part of it.
pub proof fn written_events_name_their_parts(e: DeliveryEventView)
    ensures
        holds_under(event_text(e), "id"@, decimal(e.id as nat)),
        holds_under(event_text(e), "tenant"@, json_string(e.tenant)),
        holds_under(event_text(e), "grant_id"@, json_string(e.grant_id)),
        holds_under(event_text(e), "kind"@, json_string(e.kind)),
        holds_under(event_text(e), "created_at"@, decimal(e.created_at as nat)),
        holds_under(event_text(e), "payload"@, e.payload),
        holds_under(event_text(e), "previous_hash"@, json_string(e.previous_hash)),
        holds_under(event_text(e), "hash"@, json_string(e.hash)),
        holds_under(event_text(e), "issuer"@, json_string(e.issuer)),
        holds_under(event_text(e), "signature"@, json_string(e.signature)),
{
    let ms = seq![
        ("id"@, decimal(e.id as nat)),
        ("tenant"@, json_string(e.tenant)),
        ("grant_id"@, json_string(e.grant_id)),
        ("kind"@, json_string(e.kind)),
        ("created_at"@, decimal(e.created_at as nat)),
        ("payload"@, e.payload),
        ("previous_hash"@, json_string(e.previous_hash)),
        ("hash"@, json_string(e.hash)),
        ("issuer"@, json_string(e.issuer)),
        ("signature"@, json_string(e.signature)),
    ];
    objects_hold_their_members(ms, 0);
    objects_hold_their_members(ms, 1);
    objects_hold_their_members(ms, 2);
    objects_hold_their_members(ms, 3);
    objects_hold_their_members(ms, 4);
    objects_hold_their_members(ms, 5);
    objects_hold_their_members(ms, 6);
    objects_hold_their_members(ms, 7);
    objects_hold_their_members(ms, 8);
    objects_hold_their_members(ms, 9);
}

/// What the chain says of a report names its id, the device and what was delivered.
pub proof fn reports_name_their_parts(e: EvidenceView)
    ensures
        holds_under(evidence_payload(e), "evidence_id"@, json_string(e.id)),
        holds_under(evidence_payload(e), "holder"@, json_string(e.holder)),
        holds_under(evidence_payload(e), "manifest"@, json_string(e.manifest)),
{
    let ms = seq![
        ("evidence_id"@, json_string(e.id)),
        ("holder"@, json_string(e.holder)),
        ("manifest"@, json_string(e.manifest)),
    ];
    objects_hold_their_members(ms, 0);
    objects_hold_their_members(ms, 1);
    objects_hold_their_members(ms, 2);
}

/// What a database keeps of a conversion names each part of it.
pub proof fn conversions_name_their_parts(c: ConversionView)
    ensures
        holds_under(conversion_text(c), "id"@, json_string(c.id)),
        holds_under(conversion_text(c), "source"@, decimal(c.source as nat)),
        holds_under(conversion_text(c), "target"@, decimal(c.target as nat)),
        holds_under(conversion_text(c), "public_url"@, json_string(c.public_url)),
        holds_under(conversion_text(c), "issuer"@, json_string(c.issuer)),
        holds_under(conversion_text(c), "created_at"@, decimal(c.created_at as nat)),
        holds_under(conversion_text(c), "bytes"@, decimal(c.bytes as nat)),
        holds_under(conversion_text(c), "sha256"@, json_string(c.sha256)),
        holds_under(conversion_text(c), "replacements"@, decimal(c.replacements as nat)),
{
    let ms = seq![
        ("id"@, json_string(c.id)),
        ("source"@, decimal(c.source as nat)),
        ("target"@, decimal(c.target as nat)),
        ("public_url"@, json_string(c.public_url)),
        ("issuer"@, json_string(c.issuer)),
        ("created_at"@, decimal(c.created_at as nat)),
        ("bytes"@, decimal(c.bytes as nat)),
        ("sha256"@, json_string(c.sha256)),
        ("replacements"@, decimal(c.replacements as nat)),
    ];
    objects_hold_their_members(ms, 0);
    objects_hold_their_members(ms, 1);
    objects_hold_their_members(ms, 2);
    objects_hold_their_members(ms, 3);
    objects_hold_their_members(ms, 4);
    objects_hold_their_members(ms, 5);
    objects_hold_their_members(ms, 6);
    objects_hold_their_members(ms, 7);
    objects_hold_their_members(ms, 8);
}

/// The first line of an artifact names the conversion it was prepared for.
pub proof fn artifacts_name_their_conversion(c: ConversionView)
    ensures
        holds_under(prepared_text(c), "created_at"@, decimal(c.created_at as nat)),
        holds_under(prepared_text(c), "id"@, json_string(c.id)),
        holds_under(prepared_text(c), "issuer"@, json_string(c.issuer)),
        holds_under(prepared_text(c), "public_url"@, json_string(c.public_url)),
        holds_under(prepared_text(c), "replacements"@, decimal(c.replacements as nat)),
        holds_under(prepared_text(c), "source"@, decimal(c.source as nat)),
        holds_under(prepared_text(c), "state"@, json_string("prepared"@)),
        holds_under(prepared_text(c), "target"@, decimal(c.target as nat)),
{
    let ms = seq![
        ("created_at"@, decimal(c.created_at as nat)),
        ("id"@, json_string(c.id)),
        ("issuer"@, json_string(c.issuer)),
        ("public_url"@, json_string(c.public_url)),
        ("replacements"@, decimal(c.replacements as nat)),
        ("source"@, decimal(c.source as nat)),
        ("state"@, json_string("prepared"@)),
        ("target"@, decimal(c.target as nat)),
    ];
    objects_hold_their_members(ms, 0);
    objects_hold_their_members(ms, 1);
    objects_hold_their_members(ms, 2);
    objects_hold_their_members(ms, 3);
    objects_hold_their_members(ms, 4);
    objects_hold_their_members(ms, 5);
    objects_hold_their_members(ms, 6);
    objects_hold_their_members(ms, 7);
}

/// What is shown of a connection names each part of it but for its secrets: of a token, an
/// address and a user it says whether they are set.
pub proof fn shown_connections_say_which_secrets_are_set(d: NotificationDestinationView)
    ensures
        holds_under(public_text(d), "channel"@, json_string(d.channel)),
        holds_under(public_text(d), "id"@, json_string(d.id)),
        holds_under(public_text(d), "label"@, json_string(d.label)),
        holds_under(public_text(d), "recipients"@, json_array(d.recipients)),
        holds_under(public_text(d), "revision"@, decimal(d.revision as nat)),
        holds_under(public_text(d), "target"@, json_string(d.target)),
        holds_under(public_text(d), "thread_id"@, json_string(d.thread_id)),
        holds_under(
            public_text(d),
            "enabled"@,
            if d.enabled {
                "true"@
            } else {
                "false"@
            },
        ),
        holds_under(
            public_text(d),
            "token_set"@,
            if d.token.len() > 0 {
                "true"@
            } else {
                "false"@
            },
        ),
        holds_under(
            public_text(d),
            "url_set"@,
            if d.url.len() > 0 {
                "true"@
            } else {
                "false"@
            },
        ),
        holds_under(
            public_text(d),
            "user_set"@,
            if d.user.len() > 0 {
                "true"@
            } else {
                "false"@
            },
        ),
{
    let ms = seq![
        ("channel"@, json_string(d.channel)),
        ("enabled"@, json_bool(d.enabled)),
        ("id"@, json_string(d.id)),
        ("label"@, json_string(d.label)),
        ("recipients"@, json_array(d.recipients)),
        ("revision"@, decimal(d.revision as nat)),
        ("target"@, json_string(d.target)),
        ("thread_id"@, json_string(d.thread_id)),
        ("token_set"@, json_bool(d.token.len() > 0)),
        ("url_set"@, json_bool(d.url.len() > 0)),
        ("user_set"@, json_bool(d.user.len() > 0)),
    ];
    objects_hold_their_members(ms, 0);
    objects_hold_their_members(ms, 1);
    objects_hold_their_members(ms, 2);
    objects_hold_their_members(ms, 3);
    objects_hold_their_members(ms, 4);
    objects_hold_their_members(ms, 5);
    objects_hold_their_members(ms, 6);
    objects_hold_their_members(ms, 7);
    objects_hold_their_members(ms, 8);
    objects_hold_their_members(ms, 9);
    objects_hold_their_members(ms, 10);
}

} // verus!
