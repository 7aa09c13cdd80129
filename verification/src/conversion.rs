//! Conversion of a stopped data copy: what of it is accepted, and what becomes
//! of its uploads, jobs and links.
use vstd::prelude::*;

use crate::decimal::{decimal, u64_text};
use crate::hexadecimal::{hex_encode, hex_text};
use crate::json::{
    array_items, items_of, json_object, json_string, keys_of, member, member_of, object,
    object_keys, object_member, parse_json, parsed_json, quoted,
};
use crate::records::{Conversion, ConversionView};
use crate::schema::SCHEMA_VERSION;
use crate::signatures::{digest, sha256, sign, signature_of};
use crate::table::{first, outcome};
use crate::text::{list_has, same};
use vstd::utf8::encode_utf8;

verus! {

/// How the conversion is called.
pub const HELP: &'static str = "Usage: votport convert-schema35 --data-copy /absolute/private/disposable-copy --public-url https://drop.example.com\n\nConverts only a stopped schema35 copy. Requires existing secret and receipt.key, no retained admissions, and matching upload projections. Never use the production directory. On any error, discard this copy and recreate it from the retained cold backup. Already-converted copies are refused. Does not copy payloads or start services. Review the private schema35-conversion.jsonl before distributing replacement workflow links.";

/// The most bytes that one source document may take.
pub const MAX_SOURCE_JSON: usize = 67108864;

// ------------------------------------------------------------ specifications
/// The options from the `i`-th argument on, each at most once and with a value.
pub open spec fn options(
    args: Seq<Seq<char>>,
    i: int,
    data: Option<Seq<char>>,
    origin: Option<Seq<char>>,
) -> Result<(Seq<char>, Seq<char>), Seq<char>>
    decreases args.len() - i,
{
    if i >= args.len() {
        match (data, origin) {
            (Some(data), Some(origin)) => Ok((data, origin)),
            _ => Err(HELP@),
        }
    } else if args[i] == "--data-copy"@ && data is None && i + 1 < args.len() {
        options(args, i + 2, Some(args[i + 1]), origin)
    } else if args[i] == "--public-url"@ && origin is None && i + 1 < args.len() {
        options(args, i + 2, data, Some(args[i + 1]))
    } else {
        Err(HELP@)
    }
}

/// What a command line asks for: help, or a conversion of a copy under an URL.
pub open spec fn command_line(args: Seq<Seq<char>>) -> Result<
    Option<(Seq<char>, Seq<char>)>,
    Seq<char>,
> {
    if args == seq!["--help"@] {
        Ok(None)
    } else {
        match options(args, 0, None, None) {
            Ok(found) => Ok(Some(found)),
            Err(e) => Err(e),
        }
    }
}

/// The `ascii_serialization` of the origin of what `reqwest::Url::parse` makes
/// of a text, or why it refuses the text.
pub uninterp spec fn url_origin(text: Seq<char>) -> Result<Seq<char>, Seq<char>>;

/// A conversion that is about to begin under an origin.
pub open spec fn begun(
    id: Seq<char>,
    origin: Result<Seq<char>, Seq<char>>,
    issuer: Seq<char>,
    created_at: u64,
) -> Result<ConversionView, Seq<char>> {
    match origin {
        Err(e) => Err(e),
        Ok(origin) => Ok(
            ConversionView {
                id,
                source: 35,
                target: SCHEMA_VERSION,
                public_url: origin,
                issuer,
                created_at,
                bytes: 0,
                sha256: Seq::empty(),
                replacements: 0,
            },
        ),
    }
}

/// What is said of a data copy by how its directory is named and which file
/// speaks against it.
pub open spec fn copy_checked(plain: bool, marker: Option<Seq<char>>) -> Result<(), Seq<char>> {
    if !plain {
        Err("--data-copy must name an absolute, canonical directory without symlinks"@)
    } else {
        match marker {
            Some(name) => Err("resolve "@ + name + " before making a new conversion copy"@),
            None => Ok(()),
        }
    }
}

/// What is said of a database beside an artifact, or with sessions in progress.
pub open spec fn leftovers_checked(artifact: bool, sessions: bool) -> Result<(), Seq<char>> {
    if artifact {
        Err(
            "a prepared artifact exists without a committed conversion; preserve it and use a fresh disposable copy"@,
        )
    } else if sessions {
        Err(
            "schema35 retained admissions have no reliable completion identity; finish or remove them using the source release before making a new copy"@,
        )
    } else {
        Ok(())
    }
}

/// What a database that is not sound is told.
pub open spec fn soundness(check: Seq<char>, violated: bool) -> Result<(), Seq<char>> {
    if check != "ok"@ {
        Err("SQLite integrity check failed: "@ + check)
    } else if violated {
        Err("SQLite foreign key check failed"@)
    } else {
        Ok(())
    }
}

/// What is said of a source document that is not text, or too long.
pub open spec fn unbounded(column: nat) -> Seq<char> {
    "Conversion error from type Text at index: "@ + decimal(column)
        + ", source JSON must be text and at most 64 MiB; use a separately reviewed streaming conversion for larger histories"@
}

/// A source document, if it is text and not too long.
pub open spec fn bounded(text: Option<Seq<char>>, column: nat) -> Result<Seq<char>, Seq<char>> {
    match text {
        Some(text) => if encode_utf8(text).len() <= MAX_SOURCE_JSON {
            Ok(text)
        } else {
            Err(unbounded(column))
        },
        None => Err(unbounded(column)),
    }
}

/// What is allowed of an upload.
pub open spec fn upload_fields() -> Seq<Seq<char>> {
    seq![
        "id"@,
        "started_at"@,
        "completed_at"@,
        "replayed_chunks"@,
        "rejected_chunks"@,
        "transport"@,
        "package_root"@,
        "total_bytes"@,
        "files"@,
        "partial"@,
        "log"@,
    ]
}

/// What is allowed of a file.
pub open spec fn file_fields() -> Seq<Seq<char>> {
    seq!["path"@, "stored_as"@, "bytes"@, "suite"@, "root"@, "receipt"@, "deleted"@]
}

/// What is allowed of a log entry.
pub open spec fn log_fields() -> Seq<Seq<char>> {
    seq!["at"@, "kind"@, "path"@, "bytes"@, "secs"@, "count"@]
}

/// Whether a record is an object with allowed keys only.
pub open spec fn fields_checked(keys: Option<Seq<Seq<char>>>, allowed: Seq<Seq<char>>) -> Result<
    (),
    Seq<char>,
> {
    match keys {
        None => Err("source upload record must be an object"@),
        Some(keys) => if forall|i: int|
            0 <= i < keys.len() ==> allowed.contains(#[trigger] keys[i]) {
            Ok(())
        } else {
            Err("source upload contains fields outside the schema35 contract"@)
        },
    }
}

/// Whether all records are objects with allowed keys only.
pub open spec fn records_checked(items: Seq<Seq<char>>, allowed: Seq<Seq<char>>) -> Result<
    (),
    Seq<char>,
>
    decreases items.len(),
{
    if items.len() == 0 {
        Ok(())
    } else {
        match records_checked(items.drop_last(), allowed) {
            Err(e) => Err(e),
            Ok(_) => fields_checked(object_keys(items.last()), allowed),
        }
    }
}

/// The items of an array that may be missing.
pub open spec fn items_in(text: Option<Seq<char>>) -> Option<Seq<Seq<char>>> {
    match text {
        Some(text) => array_items(text),
        None => None,
    }
}

/// Whether an upload is a record as it should be, with its files and its log.
pub open spec fn upload_checked(upload: Seq<char>) -> Result<(), Seq<char>> {
    match fields_checked(object_keys(upload), upload_fields()) {
        Err(e) => Err(e),
        Ok(_) => match items_in(object_member(upload, "files"@)) {
            None => Err("source files must be an array"@),
            Some(files) => match records_checked(files, file_fields()) {
                Err(e) => Err(e),
                Ok(_) => match object_member(upload, "log"@) {
                    None => Ok(()),
                    Some(log) => match array_items(log) {
                        None => Err("source transfer log must be an array"@),
                        Some(events) => records_checked(events, log_fields()),
                    },
                },
            },
        },
    }
}

/// Whether uploads are records as they should be.
pub open spec fn uploads_checked(uploads: Seq<Seq<char>>) -> Result<(), Seq<char>>
    decreases uploads.len(),
{
    if uploads.len() == 0 {
        Ok(())
    } else {
        match uploads_checked(uploads.drop_last()) {
            Err(e) => Err(e),
            Ok(_) => upload_checked(uploads.last()),
        }
    }
}

/// Whether a list of uploads is as it should be.
pub open spec fn source_checked(source: Seq<char>) -> Result<(), Seq<char>> {
    match array_items(source) {
        None => Err("source uploads must be an array"@),
        Some(uploads) => uploads_checked(uploads),
    }
}

/// Whether the text of a list of uploads can be read.
pub open spec fn source_admitted(text: Option<Seq<char>>) -> Result<(), Seq<char>> {
    match bounded(text, 2) {
        Err(e) => Err(e),
        Ok(text) => match parsed_json(text) {
            Err(e) => Err(e),
            Ok(_) => source_checked(text),
        },
    }
}

/// The statement that creates a target table.
pub open spec fn create_table(sql: Seq<char>, table: Seq<char>, temporary: bool) -> Result<
    Seq<char>,
    Seq<char>,
> {
    match crate::sql::position(sql, seq!['('], 0) {
        None => Err("invalid target schema"@),
        Some(i) => Ok(
            "CREATE TABLE "@ + (if temporary {
                "conversion_"@ + table
            } else {
                table
            }) + " "@ + sql.skip(i),
        ),
    }
}

/// Texts with commas between them.
pub open spec fn comma_joined(s: Seq<Seq<char>>) -> Seq<char>
    decreases s.len(),
{
    if s.len() == 0 {
        Seq::empty()
    } else if s.len() == 1 {
        s[0]
    } else {
        comma_joined(s.drop_last()) + ","@ + s.last()
    }
}

/// Whether a pair is under a name.
pub open spec fn under(name: Seq<char>) -> spec_fn((Seq<char>, Seq<char>)) -> bool {
    |p: (Seq<char>, Seq<char>)| p.0 == name
}

/// What is selected for a column: itself, or what stands in for it.
pub open spec fn selected(backfill: Seq<(Seq<char>, Seq<char>)>) -> spec_fn(Seq<char>) -> Seq<char> {
    |name: Seq<char>|
        match first(backfill, under(name)) {
            Some(p) => p.1,
            None => name,
        }
}

/// The columns that a table of a copy may lack, and what stands in for them.
pub open spec fn lacking(table: Seq<char>) -> Seq<(Seq<char>, Seq<char>)> {
    if table == "tenants"@ {
        seq![("incarnation"@, "''"@), ("retention_days"@, "''"@)]
    } else if table == "links"@ {
        seq![("retention_days"@, "''"@), ("verification"@, "'default'"@)]
    } else if table == "automation_tokens"@ {
        seq![("created_by"@, "''"@)]
    } else if table == "delivery_jobs"@ {
        seq![("token"@, "''"@), ("created_at"@, "''"@), ("snapshot_bytes"@, "''"@)]
    } else {
        Seq::empty()
    }
}

/// The statement that copies a table into its target.
pub open spec fn copy_statement(
    table: Seq<char>,
    columns: Seq<Seq<char>>,
    backfill: Seq<(Seq<char>, Seq<char>)>,
) -> Seq<char> {
    "INSERT INTO conversion_"@ + table + "(rowid,"@ + comma_joined(columns) + ") SELECT rowid,"@
        + comma_joined(columns.map_values(selected(backfill))) + " FROM "@ + table
}

/// The statements that put a target in a table's place.
pub open spec fn swap_statements(table: Seq<char>) -> Seq<char> {
    "DROP TABLE "@ + table + "; ALTER TABLE conversion_"@ + table + " RENAME TO "@ + table + ";"@
}

/// What is signed for a job's token.
pub open spec fn token_message(id: Seq<char>, generation: u64) -> Seq<char> {
    "votport-job-token-v1\0"@ + id + ":"@ + decimal(generation as nat)
}

/// The token that a signing key gives for a job.
pub open spec fn token_signed(seed: Seq<u8>, id: Seq<char>, generation: u64) -> Seq<char> {
    hex_text(
        sha256(signature_of(seed, encode_utf8(token_message(id, generation)))),
    ).take(32)
}

/// The first line of the artifact.
pub open spec fn prepared_text(c: ConversionView) -> Seq<char> {
    json_object(
        seq![
            ("created_at"@, decimal(c.created_at as nat)),
            ("id"@, json_string(c.id)),
            ("issuer"@, json_string(c.issuer)),
            ("public_url"@, json_string(c.public_url)),
            ("replacements"@, decimal(c.replacements as nat)),
            ("source"@, decimal(c.source as nat)),
            ("state"@, json_string("prepared"@)),
            ("target"@, decimal(c.target as nat)),
        ],
    )
}

/// A conversion as the database keeps it.
pub open spec fn conversion_text(c: ConversionView) -> Seq<char> {
    json_object(
        seq![
            ("id"@, json_string(c.id)),
            ("source"@, decimal(c.source as nat)),
            ("target"@, decimal(c.target as nat)),
            ("public_url"@, json_string(c.public_url)),
            ("issuer"@, json_string(c.issuer)),
            ("created_at"@, decimal(c.created_at as nat)),
            ("bytes"@, decimal(c.bytes as nat)),
            ("sha256"@, json_string(c.sha256)),
            ("replacements"@, decimal(c.replacements as nat)),
        ],
    )
}

/// What is reported of a conversion.
pub open spec fn report_text(c: ConversionView, artifact: Seq<char>) -> Seq<char> {
    "Converted schema35 copy to schema"@ + decimal(c.target as nat) + "; "@ + decimal(
        c.replacements as nat,
    ) + " workflow links rotated. Review "@ + artifact + "."@
}

// ---------------------------------------------------------------- operations
fn slot(args: &Vec<String>, i: usize, taken: &Option<String>) -> (r: Option<String>)
    requires
        i < args.len(),
    ensures
        match r {
            Some(value) => *taken is None && i + 1 < args.len() && value@ == args.deep_view()[i
                + 1],
            None => *taken is Some || i + 1 >= args.len(),
        },
{
    if taken.is_some() || i >= args.len() - 1 {
        None
    } else {
        Some(args[i + 1].clone())
    }
}

/// What a command line asks for: `None` for help, else the data copy and the
/// public URL.
pub fn command(arguments: &Vec<String>) -> (r: Result<Option<(String, String)>, String>)
    ensures
        outcome(r) == command_line(arguments.deep_view()),
{
    let ghost all = arguments.deep_view();
    if arguments.len() == 1 && same(arguments[0].as_str(), "--help") {
        assert(all =~= seq!["--help"@]);
        return Ok(None);
    }
    proof {
        if all == seq!["--help"@] {
            assert(all.len() == 1 && all[0] == "--help"@);
        }
        reveal_strlit("--data-copy");
        reveal_strlit("--public-url");
    }
    let mut data: Option<String> = None;
    let mut origin: Option<String> = None;
    let mut i: usize = 0;
    while i < arguments.len()
        invariant
            i <= arguments.len(),
            all == arguments.deep_view(),
            all != seq!["--help"@],
            options(all, 0, None, None) == options(
                all,
                i as int,
                data.deep_view(),
                origin.deep_view(),
            ),
        decreases arguments.len() - i,
    {
        if same(arguments[i].as_str(), "--data-copy") {
            assert("--data-copy"@ != "--public-url"@) by {
                reveal_strlit("--data-copy");
                reveal_strlit("--public-url");
                assert("--data-copy"@.len() != "--public-url"@.len());
            }
            match slot(arguments, i, &data) {
                Some(value) => data = Some(value),
                None => return Err(HELP.to_owned()),
            }
        } else if same(arguments[i].as_str(), "--public-url") {
            match slot(arguments, i, &origin) {
                Some(value) => origin = Some(value),
                None => return Err(HELP.to_owned()),
            }
        } else {
            return Err(HELP.to_owned());
        }
        i += 2;
    }
    match (data, origin) {
        (Some(data), Some(origin)) => Ok(Some((data, origin))),
        _ => Err(HELP.to_owned()),
    }
}

/// `reqwest::Url::parse`, the URL's `origin` and that origin's
/// `ascii_serialization`: the origin, or why the text is no URL, is a function of
/// the text.
#[verifier::external_body]
fn origin_of(public_url: &str) -> (r: Result<String, String>)
    ensures
        outcome(r) == url_origin(public_url@),
{
    match reqwest::Url::parse(public_url) {
        Ok(url) => Ok(url.origin().ascii_serialization()),
        Err(error) => Err(error.to_string()),
    }
}

/// A conversion under an id that is about to begin.
pub fn begin(id: String, public_url: &str, issuer: &str, created_at: u64) -> (r: Result<
    Conversion,
    String,
>)
    ensures
        outcome(r) == begun(id@, url_origin(public_url@), issuer@, created_at),
{
    begin_under(id, origin_of(public_url), issuer, created_at)
}

/// A conversion under an id and an origin that is about to begin.
pub fn begin_under(id: String, origin: Result<String, String>, issuer: &str, created_at: u64) -> (r: Result<
    Conversion,
    String,
>)
    ensures
        outcome(r) == begun(id@, outcome(origin), issuer@, created_at),
{
    proof {
        reveal_strlit("");
        assert(""@ =~= Seq::empty());
    }
    match origin {
        Err(error) => Err(error),
        Ok(origin) => Ok(
            Conversion {
                id,
                source: 35,
                target: SCHEMA_VERSION,
                public_url: origin,
                issuer: issuer.to_owned(),
                created_at,
                bytes: 0,
                sha256: "".to_owned(),
                replacements: 0,
            },
        ),
    }
}

/// Whether a data copy can be converted: `plain` says whether its directory is
/// named by its absolute, canonical path, `marker` names a file that speaks
/// against it.
pub fn admit_copy(plain: bool, marker: Option<&str>) -> (r: Result<(), String>)
    ensures
        outcome(r) == copy_checked(
            plain,
            match marker {
                Some(name) => Some(name@),
                None => None,
            },
        ),
{
    if !plain {
        return Err(
            "--data-copy must name an absolute, canonical directory without symlinks".to_owned(),
        );
    }
    match marker {
        Some(name) => Err(
            "resolve ".to_owned().concat(name).concat(" before making a new conversion copy"),
        ),
        None => Ok(()),
    }
}

/// Whether a database can be converted that has an artifact beside it, or
/// sessions in progress.
pub fn admit_leftovers(artifact: bool, sessions: bool) -> (r: Result<(), String>)
    ensures
        outcome(r) == leftovers_checked(artifact, sessions),
{
    if artifact {
        return Err(
            "a prepared artifact exists without a committed conversion; preserve it and use a fresh disposable copy".to_owned(),
        );
    }
    if sessions {
        return Err(
            "schema35 retained admissions have no reliable completion identity; finish or remove them using the source release before making a new copy".to_owned(),
        );
    }
    Ok(())
}

/// Whether a database is sound: `check` is what its integrity check says,
/// `violated` whether a foreign key is.
pub fn integrity(check: &str, violated: bool) -> (r: Result<(), String>)
    ensures
        outcome(r) == soundness(check@, violated),
{
    if !same(check, "ok") {
        return Err("SQLite integrity check failed: ".to_owned().concat(check));
    }
    if violated {
        return Err("SQLite foreign key check failed".to_owned());
    }
    Ok(())
}

/// A source document, if it is text and not too long.
pub fn bounded_json<'a>(text: Option<&'a str>, column: u64) -> (r: Result<&'a str, String>)
    ensures
        match r {
            Ok(found) => text matches Some(text) && found@ == text@ && bounded(
                Some(text@),
                column as nat,
            ) == Ok::<Seq<char>, Seq<char>>(found@),
            Err(e) => bounded(
                match text {
                    Some(text) => Some(text@),
                    None => None,
                },
                column as nat,
            ) == Err::<Seq<char>, Seq<char>>(e@),
        },
{
    if let Some(text) = text {
        if text.as_bytes().len() <= MAX_SOURCE_JSON {
            return Ok(text);
        }
    }
    let start = "Conversion error from type Text at index: ".to_owned().concat(
        u64_text(column).as_str(),
    );
    Err(
        start.concat(
            ", source JSON must be text and at most 64 MiB; use a separately reviewed streaming conversion for larger histories",
        ),
    )
}

/// Whether a record is an object with allowed keys only; `keys` are its keys, if
/// it is an object.
pub fn check_fields(keys: &Option<Vec<String>>, allowed: &Vec<String>) -> (r: Result<(), String>)
    ensures
        outcome(r) == fields_checked(keys.deep_view(), allowed.deep_view()),
{
    match keys {
        None => Err("source upload record must be an object".to_owned()),
        Some(list) => {
            let mut i: usize = 0;
            while i < list.len()
                invariant
                    i <= list.len(),
                    keys.deep_view() == Some(list.deep_view()),
                    forall|k: int|
                        0 <= k < i ==> allowed.deep_view().contains(
                            #[trigger] list.deep_view()[k],
                        ),
                decreases list.len() - i,
            {
                if !list_has(allowed, list[i].as_str()) {
                    proof {
                        let all = keys.deep_view()->0;
                        assert(0 <= i < all.len());
                        assert(all[i as int] == list@[i as int]@);
                        assert(!allowed.deep_view().contains(all[i as int]));
                    }
                    return Err(
                        "source upload contains fields outside the schema35 contract".to_owned(),
                    );
                }
                i += 1;
            }
            Ok(())
        },
    }
}

fn allowed_in_upload() -> (v: Vec<String>)
    ensures
        v.deep_view() == upload_fields(),
{
    let mut v: Vec<String> = Vec::new();
    v.push("id".to_owned());
    v.push("started_at".to_owned());
    v.push("completed_at".to_owned());
    v.push("replayed_chunks".to_owned());
    v.push("rejected_chunks".to_owned());
    v.push("transport".to_owned());
    v.push("package_root".to_owned());
    v.push("total_bytes".to_owned());
    v.push("files".to_owned());
    v.push("partial".to_owned());
    v.push("log".to_owned());
    assert(v.deep_view() =~= upload_fields());
    v
}

fn allowed_in_file() -> (v: Vec<String>)
    ensures
        v.deep_view() == file_fields(),
{
    let mut v: Vec<String> = Vec::new();
    v.push("path".to_owned());
    v.push("stored_as".to_owned());
    v.push("bytes".to_owned());
    v.push("suite".to_owned());
    v.push("root".to_owned());
    v.push("receipt".to_owned());
    v.push("deleted".to_owned());
    assert(v.deep_view() =~= file_fields());
    v
}

fn allowed_in_log() -> (v: Vec<String>)
    ensures
        v.deep_view() == log_fields(),
{
    let mut v: Vec<String> = Vec::new();
    v.push("at".to_owned());
    v.push("kind".to_owned());
    v.push("path".to_owned());
    v.push("bytes".to_owned());
    v.push("secs".to_owned());
    v.push("count".to_owned());
    assert(v.deep_view() =~= log_fields());
    v
}

proof fn lemma_records_refused(items: Seq<Seq<char>>, allowed: Seq<Seq<char>>, n: int)
    requires
        0 <= n <= items.len(),
        records_checked(items.take(n), allowed) is Err,
    ensures
        records_checked(items, allowed) == records_checked(items.take(n), allowed),
    decreases items.len() - n,
{
    if n < items.len() {
        assert(items.take(n + 1).drop_last() =~= items.take(n));
        lemma_records_refused(items, allowed, n + 1);
    } else {
        assert(items.take(n) =~= items);
    }
}

fn check_records(items: &Vec<String>, allowed: &Vec<String>) -> (r: Result<(), String>)
    ensures
        outcome(r) == records_checked(items.deep_view(), allowed.deep_view()),
{
    let ghost all = items.deep_view();
    let mut i: usize = 0;
    assert(all.take(0) =~= Seq::<Seq<char>>::empty());
    while i < items.len()
        invariant
            i <= items.len(),
            all == items.deep_view(),
            records_checked(all.take(i as int), allowed.deep_view()) == Ok::<(), Seq<char>>(()),
        decreases items.len() - i,
    {
        proof {
            assert(all.take(i + 1).drop_last() =~= all.take(i as int));
            assert(all.take(i + 1).last() == all[i as int]);
        }
        if let Err(error) = check_fields(&keys_of(items[i].as_str()), allowed) {
            proof {
                lemma_records_refused(all, allowed.deep_view(), i + 1);
            }
            return Err(error);
        }
        i += 1;
    }
    assert(all.take(i as int) =~= all);
    Ok(())
}

fn check_upload(upload: &str) -> (r: Result<(), String>)
    ensures
        outcome(r) == upload_checked(upload@),
{
    if let Err(error) = check_fields(&keys_of(upload), &allowed_in_upload()) {
        return Err(error);
    }
    let files = match member_of(upload, "files") {
        Some(files) => items_of(files.as_str()),
        None => None,
    };
    match files {
        None => {
            return Err("source files must be an array".to_owned());
        },
        Some(files) => {
            if let Err(error) = check_records(&files, &allowed_in_file()) {
                return Err(error);
            }
        },
    }
    if let Some(log) = member_of(upload, "log") {
        match items_of(log.as_str()) {
            None => {
                return Err("source transfer log must be an array".to_owned());
            },
            Some(events) => {
                return check_records(&events, &allowed_in_log());
            },
        }
    }
    Ok(())
}

proof fn lemma_uploads_refused(uploads: Seq<Seq<char>>, n: int)
    requires
        0 <= n <= uploads.len(),
        uploads_checked(uploads.take(n)) is Err,
    ensures
        uploads_checked(uploads) == uploads_checked(uploads.take(n)),
    decreases uploads.len() - n,
{
    if n < uploads.len() {
        assert(uploads.take(n + 1).drop_last() =~= uploads.take(n));
        lemma_uploads_refused(uploads, n + 1);
    } else {
        assert(uploads.take(n) =~= uploads);
    }
}

/// Whether a list of uploads, as JSON text, holds nothing unknown.
pub fn check_upload_fields(source: &str) -> (r: Result<(), String>)
    ensures
        outcome(r) == source_checked(source@),
{
    let uploads = match items_of(source) {
        Some(uploads) => uploads,
        None => return Err("source uploads must be an array".to_owned()),
    };
    let ghost all = uploads.deep_view();
    let mut i: usize = 0;
    assert(all.take(0) =~= Seq::<Seq<char>>::empty());
    while i < uploads.len()
        invariant
            i <= uploads.len(),
            all == uploads.deep_view(),
            array_items(source@) == Some(all),
            uploads_checked(all.take(i as int)) == Ok::<(), Seq<char>>(()),
        decreases uploads.len() - i,
    {
        proof {
            assert(all.take(i + 1).drop_last() =~= all.take(i as int));
            assert(all.take(i + 1).last() == all[i as int]);
        }
        if let Err(error) = check_upload(uploads[i].as_str()) {
            proof {
                lemma_uploads_refused(all, i + 1);
            }
            return Err(error);
        }
        i += 1;
    }
    assert(all.take(i as int) =~= all);
    Ok(())
}

/// Whether the text of a list of uploads can be read.
pub fn admit_source(text: Option<&str>) -> (r: Result<(), String>)
    ensures
        outcome(r) == source_admitted(
            match text {
                Some(text) => Some(text@),
                None => None,
            },
        ),
{
    let text = match bounded_json(text, 2) {
        Ok(text) => text,
        Err(error) => return Err(error),
    };
    if let Err(error) = parse_json(text) {
        return Err(error);
    }
    check_upload_fields(text)
}

/// The statement that creates a target table from the definition that the target
/// database has of it.
pub fn target_table(sql: &str, table: &str, temporary: bool) -> (r: Result<String, String>)
    ensures
        outcome(r) == create_table(sql@, table@, temporary),
{
    match crate::clauses::body_of(sql) {
        None => Err("invalid target schema".to_owned()),
        Some(body) => {
            let body = crate::text::text_of(&body, 0, body.len());
            let name = if temporary {
                "conversion_".to_owned().concat(table)
            } else {
                table.to_owned()
            };
            let s = "CREATE TABLE ".to_owned().concat(name.as_str()).concat(" ").concat(
                body.as_str(),
            );
            assert(s@ =~= create_table(sql@, table@, temporary)->Ok_0);
            Ok(s)
        },
    }
}

fn join_commas(parts: &Vec<String>) -> (s: String)
    ensures
        s@ == comma_joined(parts.deep_view()),
{
    let ghost all = parts.deep_view();
    let mut s = "".to_owned();
    let mut i: usize = 0;
    proof {
        reveal_strlit("");
        assert(all.take(0) =~= Seq::<Seq<char>>::empty());
        assert(s@ =~= Seq::empty());
    }
    while i < parts.len()
        invariant
            i <= parts.len(),
            all == parts.deep_view(),
            s@ == comma_joined(all.take(i as int)),
        decreases parts.len() - i,
    {
        proof {
            assert(all.take(i + 1).drop_last() =~= all.take(i as int));
            assert(all.take(i + 1).last() == all[i as int]);
        }
        if i > 0 {
            s.append(",");
        }
        s.append(parts[i].as_str());
        assert(s@ =~= comma_joined(all.take(i + 1)));
        i += 1;
    }
    assert(all.take(i as int) =~= all);
    s
}

fn stand_in(column: &str, value: &str) -> (p: (String, String))
    ensures
        p.0@ == column@,
        p.1@ == value@,
{
    (column.to_owned(), value.to_owned())
}

/// The columns that a table of a copy may lack, and what stands in for them.
pub fn backfill(table: &str) -> (v: Vec<(String, String)>)
    ensures
        v.deep_view() == lacking(table@),
{
    let mut v: Vec<(String, String)> = Vec::new();
    if same(table, "tenants") {
        v.push(stand_in("incarnation", "''"));
        v.push(stand_in("retention_days", "''"));
    } else if same(table, "links") {
        v.push(stand_in("retention_days", "''"));
        v.push(stand_in("verification", "'default'"));
    } else if same(table, "automation_tokens") {
        v.push(stand_in("created_by", "''"));
    } else if same(table, "delivery_jobs") {
        v.push(stand_in("token", "''"));
        v.push(stand_in("created_at", "''"));
        v.push(stand_in("snapshot_bytes", "''"));
    }
    assert(v.deep_view() =~= lacking(table@));
    v
}

/// The statement that copies a table of these columns into its target; `backfill`
/// stands in for columns that the table does not have.
pub fn rebuild_statement(
    table: &str,
    columns: &Vec<String>,
    backfill: &Vec<(String, String)>,
) -> (s: String)
    ensures
        s@ == copy_statement(table@, columns.deep_view(), backfill.deep_view()),
{
    let pick = |name: &String| -> (r: String)
        ensures
            r.deep_view() == selected(backfill.deep_view())(name@),
    {
        let hit = |p: &(String, String)| -> (b: bool)
            ensures
                b == under(name@)(p.deep_view()),
        {
            same(p.0.as_str(), name.as_str())
        };
        match crate::table::find(backfill, hit, Ghost(under(name@))) {
            Some(found) => backfill[found].1.clone(),
            None => name.clone(),
        }
    };
    let select = crate::table::project(columns, pick, Ghost(selected(backfill.deep_view())));
    let s = "INSERT INTO conversion_".to_owned().concat(table).concat("(rowid,");
    let s = s.concat(join_commas(columns).as_str()).concat(") SELECT rowid,");
    s.concat(join_commas(&select).as_str()).concat(" FROM ").concat(table)
}

/// The statements that put a target in a table's place.
pub fn swap_statement(table: &str) -> (s: String)
    ensures
        s@ == swap_statements(table@),
{
    let s = "DROP TABLE ".to_owned().concat(table).concat("; ALTER TABLE conversion_");
    s.concat(table).concat(" RENAME TO ").concat(table).concat(";")
}

/// The token that a signing key gives for a job.
pub fn job_token(seed: &[u8; 32], id: &str, generation: u64) -> (s: String)
    ensures
        s@ == token_signed(seed@, id@, generation),
{
    let message = "votport-job-token-v1\0".to_owned().concat(id).concat(":").concat(
        u64_text(generation).as_str(),
    );
    let signature = sign(seed, message.as_str().as_bytes());
    let bytes = digest(signature.as_slice());
    let text = hex_encode(bytes.as_slice());
    let v = crate::text::chars(text.as_str());
    assert(v@.subrange(0, 32) =~= text@.take(32));
    crate::text::text_of(&v, 0, 32)
}

impl Conversion {
    /// The first line of the artifact.
    pub fn prepared(&self) -> (s: String)
        ensures
            s@ == prepared_text(self@),
    {
        let mut members: Vec<(String, String)> = Vec::new();
        members.push(member("created_at", u64_text(self.created_at)));
        members.push(member("id", quoted(self.id.as_str())));
        members.push(member("issuer", quoted(self.issuer.as_str())));
        members.push(member("public_url", quoted(self.public_url.as_str())));
        members.push(member("replacements", u64_text(self.replacements)));
        members.push(member("source", u64_text(self.source)));
        members.push(member("state", quoted("prepared")));
        members.push(member("target", u64_text(self.target)));
        let ghost c = self@;
        assert(members.deep_view() =~= seq![
            ("created_at"@, decimal(c.created_at as nat)),
            ("id"@, json_string(c.id)),
            ("issuer"@, json_string(c.issuer)),
            ("public_url"@, json_string(c.public_url)),
            ("replacements"@, decimal(c.replacements as nat)),
            ("source"@, decimal(c.source as nat)),
            ("state"@, json_string("prepared"@)),
            ("target"@, decimal(c.target as nat)),
        ]);
        object(&members)
    }

    /// The conversion as the database keeps it.
    pub fn text(&self) -> (s: String)
        ensures
            s@ == conversion_text(self@),
    {
        let mut members: Vec<(String, String)> = Vec::new();
        members.push(member("id", quoted(self.id.as_str())));
        members.push(member("source", u64_text(self.source)));
        members.push(member("target", u64_text(self.target)));
        members.push(member("public_url", quoted(self.public_url.as_str())));
        members.push(member("issuer", quoted(self.issuer.as_str())));
        members.push(member("created_at", u64_text(self.created_at)));
        members.push(member("bytes", u64_text(self.bytes)));
        members.push(member("sha256", quoted(self.sha256.as_str())));
        members.push(member("replacements", u64_text(self.replacements)));
        let ghost c = self@;
        assert(members.deep_view() =~= seq![
            ("id"@, json_string(c.id)),
            ("source"@, decimal(c.source as nat)),
            ("target"@, decimal(c.target as nat)),
            ("public_url"@, json_string(c.public_url)),
            ("issuer"@, json_string(c.issuer)),
            ("created_at"@, decimal(c.created_at as nat)),
            ("bytes"@, decimal(c.bytes as nat)),
            ("sha256"@, json_string(c.sha256)),
            ("replacements"@, decimal(c.replacements as nat)),
        ]);
        object(&members)
    }

    /// What is reported of the conversion, with its artifact's path.
    pub fn report(&self, artifact: &str) -> (s: String)
        ensures
            s@ == report_text(self@, artifact@),
    {
        let s = "Converted schema35 copy to schema".to_owned().concat(
            u64_text(self.target).as_str(),
        );
        let s = s.concat("; ").concat(u64_text(self.replacements).as_str());
        s.concat(" workflow links rotated. Review ").concat(artifact).concat(".")
    }
}

} // verus!
