use strom::endpoints::{
    clock_error, granted_status, lease_error, ndi_status, pool_error, renewal_is_default,
    requested_log_filter, requested_osc_pat, Granted, PortLeaseError, PortPoolError,
    SystemClockError,
};
use strom::ids::parse_uuid;
use strom::json::{parse, render, try_render, Json};
use strom::media::{
    check_inside, directory_to_list, is_lowercase_media_name, is_media_file, list_directory,
    list_entries, list_media_files, sanitize_path, ListMediaQuery, ListingFailure, MediaEntry,
};
use strom::text::{
    contains, ends_with, i64_text, join_texts, lines_of, parse_usize, same_ignoring_ascii_case,
    split_text, starts_with, strip_prefix, strip_suffix, text_no_later, trim, trim_end_char,
    u64_text,
};

// --- Texts ---

#[test]
fn joining_undoes_splitting() {
    for s in ["", "a", "a,b", ",", "a,,b,"] {
        assert_eq!(join_texts(&split_text(s, ','), ","), s);
    }
    assert_eq!(split_text("a,,b", ','), vec!["a", "", "b"]);
}

#[test]
fn numbers_read_back() {
    for n in [0u64, 7, 10, 4_294_967_296, 9_999_999_999] {
        assert_eq!(parse_usize(&u64_text(n)), Some(n as usize));
        assert_eq!(u64_text(n), format!("{}", n));
    }
    assert_eq!(i64_text(-12), "-12");
    assert_eq!(i64_text(i64::MIN), format!("{}", i64::MIN));
    assert_eq!(parse_usize("+5"), Some(5));
    assert_eq!(parse_usize(""), None);
    assert_eq!(parse_usize("+"), None);
    assert_eq!(parse_usize("5x"), None);
    assert_eq!(parse_usize("-5"), None);
    assert_eq!(parse_usize("99999999999999999999999"), None);
}

#[test]
fn texts_are_taken_apart() {
    assert_eq!(trim(" \t a b \n"), "a b");
    assert_eq!(trim("\u{2003}x\u{a0}"), "x");
    assert_eq!(trim_end_char("a//", '/'), "a");
    assert_eq!(lines_of("a\r\nb\n"), vec!["a", "b"]);
    assert_eq!(strip_prefix("abc", "ab").as_deref(), Some("c"));
    assert_eq!(strip_suffix("abc", "ab"), None);
    assert!(starts_with("abc", "ab") && ends_with("abc", "bc") && contains("abc", "b"));
    assert!(same_ignoring_ascii_case("AbC", "aBc"));
    assert!(!same_ignoring_ascii_case("é", "É"));
    assert!(text_no_later("a", "b") && !text_no_later("b", "a") && text_no_later("a", "ab"));
}

// --- JSON ---

#[test]
fn a_document_reads_back_as_it_was_written() {
    let text = r#"{"a":[1,-2,true,null,"x"],"b":{}}"#;
    let json = parse(text).expect("JSON");
    assert_eq!(render(json), text);
    assert!(parse("nope").is_none());
    assert!(matches!(parse("0.5"), Some(Json::Float(s)) if s == "0.5"));
    assert_eq!(parse("-3").and_then(|j| j.as_i64()), Some(-3));
    assert_eq!(parse("18446744073709551615").and_then(|j| j.as_i64()), None);
    assert_eq!(
        parse(r#"["a","b"]"#).and_then(|j| j.as_texts()),
        Some(vec!["a".to_string(), "b".to_string()])
    );
    assert!(parse(r#"["a",1]"#).and_then(|j| j.as_texts()).is_none());
}

// --- Ids ---

#[test]
fn a_uuid_is_a_number() {
    assert_eq!(
        parse_uuid("00000000-0000-0000-0000-00000000002a"),
        Some(42)
    );
    assert_eq!(parse_uuid("0000000000000000000000000000002A"), Some(42));
    assert_eq!(parse_uuid("not an id"), None);
}

// --- Media ---

#[test]
fn a_path_stays_below_the_media_root() {
    assert_eq!(sanitize_path("../../etc/passwd"), "etc/passwd");
    assert_eq!(sanitize_path("a\\..\\b/./c//d"), "a/b/c/d");
    assert_eq!(sanitize_path(".."), "");
    let once = sanitize_path("x/../y\\z");
    assert_eq!(sanitize_path(&once), once);
    assert_eq!(
        directory_to_list(&ListMediaQuery {
            path: Some("/a/../b".to_string())
        }),
        "a/b"
    );
    assert_eq!(directory_to_list(&ListMediaQuery { path: None }), "");
}

#[test]
fn media_are_known_by_their_extension() {
    assert!(is_media_file("clip.MP4"));
    assert!(is_media_file("song.flac"));
    assert!(is_lowercase_media_name("a.mkv"));
    assert!(!is_lowercase_media_name("a.MKV"));
    assert!(!is_media_file("notes.txt"));
    assert!(!is_media_file("mp4"));
}

fn entry(name: &str, is_dir: bool) -> MediaEntry {
    MediaEntry {
        name: name.to_string(),
        path: name.to_string(),
        is_dir,
        size: 1,
    }
}

#[test]
fn a_listing_has_directories_first_and_ignores_case() {
    let entries = vec![
        entry("b.mp4", false),
        entry("Zoo", true),
        entry(".hidden", true),
        entry("A.mp4", false),
        entry("readme.txt", false),
        entry("apple", true),
    ];
    let names: Vec<String> = list_entries(&entries).into_iter().map(|e| e.name).collect();
    assert_eq!(names, vec!["apple", "Zoo", "A.mp4", "b.mp4"]);
    let listing = list_media_files(
        ListMediaQuery {
            path: Some("x/y".to_string()),
        },
        Some("x".to_string()),
        &entries,
    );
    assert_eq!(listing.current_path, "x/y");
    assert_eq!(listing.parent_path.as_deref(), Some("x"));
    assert_eq!(listing.entries.len(), 4);
    let root = list_media_files(ListMediaQuery { path: None }, Some("x".to_string()), &entries);
    assert!(root.parent_path.is_none());
    assert_eq!(root.current_path, "");
}

#[test]
fn fractions_are_written_with_their_own_digits() {
    let list = |digits: &str| Json::Array(vec![Json::Float(digits.to_string())]);
    assert_eq!(try_render(list("0.25")).ok().as_deref(), Some("[0.25]"));
    assert_eq!(try_render(list("1.0")).ok().as_deref(), Some("[1.0]"));
    // Other digits of a number, and none at all.
    for digits in ["0.250", "1", "NaN", ""] {
        match try_render(list(digits)) {
            Err(Json::Array(items)) => {
                assert!(matches!(&items[0], Json::Float(s) if s == digits), "{}", digits);
            }
            _ => panic!("{} was written", digits),
        }
    }
    let unordered = Json::Object(vec![
        ("b".to_string(), Json::Null),
        ("a".to_string(), Json::Null),
    ]);
    assert!(try_render(unordered).is_err());
    assert!(try_render(Json::NegInt(5)).is_err());
    let mut deep = Json::Null;
    for _ in 0..101 {
        deep = Json::Array(vec![deep]);
    }
    assert!(try_render(deep).is_err());
}

#[test]
fn a_listing_says_what_is_above() {
    let parent = |path: &str| {
        let query = ListMediaQuery {
            path: Some(path.to_string()),
        };
        list_directory(query, &Vec::new()).parent_path
    };
    assert_eq!(parent("films/old/silent").as_deref(), Some("films/old"));
    assert_eq!(parent("films").as_deref(), Some(""));
    // Slashes at the end count for nothing.
    assert_eq!(parent("films/").as_deref(), Some(""));
    assert_eq!(parent("films/old//").as_deref(), Some("films"));
    assert_eq!(parent(""), None);
    let root = list_directory(ListMediaQuery { path: None }, &vec![entry("films", true)]);
    assert_eq!(root.parent_path, None);
    assert_eq!(root.current_path, "");
    assert_eq!(root.entries.len(), 1);
}

#[test]
fn a_directory_is_listed_without_a_size() {
    let entries = vec![entry("films", true), entry("a.mp4", false)];
    let sizes: Vec<u64> = list_entries(&entries).into_iter().map(|e| e.size).collect();
    assert_eq!(sizes, vec![0, 1]);
}

#[test]
fn only_directories_below_the_root_are_listed() {
    let path = |s: &str| -> Vec<String> { s.split('/').map(|c| c.to_string()).collect() };
    assert!(check_inside(&path("srv/media"), &path("srv/media")).is_ok());
    assert!(check_inside(&path("srv/media"), &path("srv/media/films")).is_ok());
    // A name that only begins alike is another directory.
    for outside in ["srv", "srv/mediafiles", "etc/media"] {
        let refused = check_inside(&path("srv/media"), &path(outside))
            .err()
            .expect("refused");
        assert_eq!(refused.to_reply().status, 403);
        assert_eq!(refused.to_reply().body, "Access denied");
    }
}

#[test]
fn a_listing_that_fails_is_answered() {
    let answer = |f: ListingFailure| (f.to_reply().status, f.to_reply().body);
    assert_eq!(
        answer(ListingFailure::NotFound),
        (404, "Directory not found".to_string())
    );
    assert_eq!(
        answer(ListingFailure::NoRoot("full".to_string())),
        (500, "Failed to create media directory: full".to_string())
    );
    assert_eq!(
        answer(ListingFailure::UnresolvedRoot("gone".to_string())),
        (500, "Failed to resolve media root: gone".to_string())
    );
    assert_eq!(
        answer(ListingFailure::Unreadable("denied".to_string())),
        (500, "Failed to read directory: denied".to_string())
    );
}

// --- Small endpoints ---

#[test]
fn refused_ports_have_their_status() {
    assert_eq!(pool_error(PortPoolError::EmptyOwnerId), 400);
    assert_eq!(pool_error(PortPoolError::BadCount), 400);
    assert_eq!(pool_error(PortPoolError::BadTtl), 400);
    assert_eq!(pool_error(PortPoolError::NotInReservation), 400);
    assert_eq!(pool_error(PortPoolError::Exhausted), 409);
    assert_eq!(pool_error(PortPoolError::AlreadyAssigned), 409);
    assert_eq!(pool_error(PortPoolError::NotFound), 404);
    assert_eq!(pool_error(PortPoolError::NotConfigured), 503);
    assert_eq!(lease_error(PortLeaseError::EmptyClientId), 400);
    assert_eq!(lease_error(PortLeaseError::BadSize), 400);
    assert_eq!(lease_error(PortLeaseError::BadTtl), 400);
    assert_eq!(lease_error(PortLeaseError::Exhausted), 409);
    assert_eq!(lease_error(PortLeaseError::NotFound), 404);
    assert_eq!(granted_status(Granted::Created), 201);
    assert_eq!(granted_status(Granted::Renewed), 200);
}

#[test]
fn a_renewal_without_a_body_takes_the_default() {
    assert!(renewal_is_default(&Vec::new()));
    assert!(renewal_is_default(&b" \t\r\n\x0c".to_vec()));
    assert!(!renewal_is_default(&b" {}".to_vec()));
    assert!(!renewal_is_default(&b"\x0b".to_vec()));
}

#[test]
fn empty_settings_are_refused() {
    assert_eq!(requested_log_filter("info").ok().as_deref(), Some("info"));
    let refused = requested_log_filter("  ").err().expect("refused");
    assert_eq!(refused.status, 400);
    assert_eq!(refused.body, "Filter string must not be empty");
    let refused = requested_osc_pat("").err().expect("refused");
    assert_eq!(refused.status, 400);
    assert_eq!(refused.body, "PAT must not be empty");
    assert!(requested_osc_pat("token").is_ok());
}

#[test]
fn discovery_counts_its_sources() {
    let status = ndi_status(true, &vec!["a".to_string(), "b".to_string()]);
    assert!(status.available);
    assert_eq!(status.source_count, 2);
    assert_eq!(clock_error(SystemClockError::Unsupported), 501);
    assert_eq!(clock_error(SystemClockError::Io), 500);
}
