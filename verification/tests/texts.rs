//! Numbers, texts and searches.
use votport_store::clock::{now_unix, unix_of};
use votport_store::columns::{combine_byte_sums, from_column, split_bytes, to_column, to_wrapped};
use votport_store::decimal::{i64_text, parse_number, u64_text};
use votport_store::issue::GrantChecks;
use votport_store::like::{anywhere_pattern, escape_like, is_like};
use votport_store::records::{FileRecord, Link, OutboundGrant, UploadRecord};
use votport_store::sql::{replace_all, split};
use votport_store::store::Store;
use votport_store::text::{lt, trim};

#[test]
fn columns_keep_what_fits() {
    for bytes in [0, 1, u64::from(u32::MAX), 1 << 32, u64::MAX] {
        let (hi, lo) = split_bytes(bytes);
        assert!((0..1 << 32).contains(&hi) && (0..1 << 32).contains(&lo));
        assert_eq!(combine_byte_sums(hi, lo), bytes);
    }
    assert_eq!(to_column(u64::MAX), i64::MAX);
    assert_eq!(from_column(-1), 0);
    assert_eq!(from_column(to_column(77)), 77);
    assert_eq!(to_wrapped(u64::MAX), -1);
}

#[test]
fn numbers_are_written_and_read() {
    assert_eq!(u64_text(0), "0");
    assert_eq!(u64_text(u64::MAX), "18446744073709551615");
    assert_eq!(i64_text(i64::MIN), "-9223372036854775808");
    assert_eq!(parse_number("18446744073709551615", u64::MAX), Some(u64::MAX));
    assert_eq!(parse_number("18446744073709551616", u64::MAX), None);
    assert_eq!(parse_number("+7", 10), Some(7));
    assert_eq!(parse_number("007", 10), Some(7));
    for wrong in ["", "+", "-1", " 1", "1 ", "0x1", "11"] {
        assert_eq!(parse_number(wrong, 10), None, "{wrong:?}");
    }
}

#[test]
fn words_are_searched_literally() {
    assert_eq!(escape_like("50%_\\"), "50\\%\\_\\\\");
    let pattern = anywhere_pattern(&escape_like("50%"));
    let chars = |text: &str| text.chars().collect::<Vec<char>>();
    assert!(is_like(&chars("at 50% off"), &pattern));
    assert!(!is_like(&chars("at 500 off"), &pattern));
    assert!(is_like(&chars("a\u{fffe}b"), &chars("a\u{fffd}b")));
    assert!(is_like(&chars("a\u{ffff}b"), &chars("a_b")));
    assert!(!is_like(&chars("a\u{fffc}b"), &chars("a\u{fffd}b")));
    assert!(is_like(&chars("ab\0c"), &chars("%b")));
    assert!(is_like(&chars("ab"), &chars("%b\0c")));
    let long = "ab".repeat(100_000);
    assert!(is_like(&chars(&long), &chars("%ab")));
    assert!(!is_like(&chars(&long), &chars("%ba")));
    assert!(lt("a", "b") && lt("a", "aa") && !lt("b", "a") && !lt("a", "a"));
    assert_eq!(trim("\u{2003}a b\t"), "a b");
}

#[test]
fn templates_are_filled_and_scripts_split() {
    assert_eq!(replace_all("{a}-{b}-{a}{a", "{a}", "x{a}"), "x{a}-{b}-x{a}{a");
    assert_eq!(split("a,,b,", ","), ["a", "", "b", ""]);
    assert_eq!(split("ab", ","), ["ab"]);
}

fn link(id: &str, label: &str) -> Link {
    Link {
        id: id.to_owned(),
        label: label.to_owned(),
        tenant: String::new(),
        dest: "incoming".to_owned(),
        password_hash: None,
        created_at: 3,
        expires_at: Some(4),
        max_bytes: None,
        active: true,
        legal_hold: false,
        notifications: None,
        uploads: vec![UploadRecord {
            id: "up".to_owned(),
            started_at: 1,
            completed_at: 9,
            replayed_chunks: 0,
            rejected_chunks: 0,
            transport: None,
            package_root: "root".to_owned(),
            total_bytes: 5,
            files: vec![FileRecord {
                path: "Reel_01.mov".to_owned(),
                stored_as: "reel".to_owned(),
                bytes: 5,
                suite: "blake3".to_owned(),
                root: "aa".to_owned(),
                receipt: false,
                deleted: false,
            }],
            partial: false,
            log: Vec::new(),
        }],
        events: Vec::new(),
    }
}

#[test]
fn searches_find_requests_downloads_and_files() {
    let mut store = Store::new();
    store.insert_link(link("a", "Reel ONE")).unwrap();
    store.insert_link(link("b", "other")).unwrap();
    let grant = OutboundGrant {
        id: "g".to_owned(),
        token_hash: "hash".to_owned(),
        password_hash: None,
        tenant: String::new(),
        link_id: String::new(),
        upload_id: String::new(),
        package_root: String::new(),
        name: "reel.mov".to_owned(),
        suite: "blake3".to_owned(),
        root: "root".to_owned(),
        file_index: 0,
        bytes: 1,
        label: "download".to_owned(),
        created_at: 10,
        expires_at: 20,
        revoked_at: Some(1),
        downloads: 0,
        max_downloads: None,
        notifications: None,
        first_download_at: None,
        last_download_at: None,
        files: Vec::new(),
    };
    let checks = GrantChecks {
        names: Ok(()),
        digest: String::new(),
        creation: Ok(()),
        finished: None,
    };
    store.insert_outbound_grant(grant, &checks).unwrap();
    let found = store.search("", "REEL", 10).unwrap();
    assert_eq!(found.requests.len(), 1);
    assert_eq!(found.requests[0].id, "a");
    assert_eq!(found.requests[0].expires_at, Some(4));
    assert_eq!(found.downloads.len(), 1);
    assert!(found.downloads[0].revoked);
    assert_eq!(found.files.len(), 2);
    assert_eq!(found.files[0].completed_at, 9);
    assert_eq!(store.search("", "reel", 1).unwrap().files.len(), 1);
    assert!(store.search("", "l_0", 10).unwrap().requests.is_empty());
    assert_eq!(store.search("", "l_0", 10).unwrap().files.len(), 2);
    assert!(store.search("other", "reel", 10).unwrap().files.is_empty());
    assert_eq!(store.uploads_since("", 9).unwrap(), (2, 10));
    assert_eq!(store.uploads_since("", 10).unwrap(), (0, 0));
}

#[test]
fn times_before_the_epoch_are_its_start() {
    assert_eq!(unix_of(Some(1_700_000_000)), 1_700_000_000);
    assert_eq!(unix_of(None), 0);
    assert!(now_unix() > 1_600_000_000);
}
