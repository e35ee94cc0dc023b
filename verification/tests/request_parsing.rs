//! Request-local parsing: path validation, the tags parameter, default
//! dimensions, the id-or-path lookup key, and the cache headers.

use media_core::etag::{etag_input, etag_value, last_modified_value, u32_le_bytes, u64_le_bytes};
use media_core::requests::{
    details_lookup, effective_dimensions, is_valid_relative_path, parse_i64, parse_tags_param,
    DetailsKey,
};

#[test]
fn paths_must_stay_under_the_root() {
    assert!(is_valid_relative_path("a/b.jpg"));
    assert!(is_valid_relative_path(""));
    assert!(is_valid_relative_path("a.b/c.d"));
    assert!(!is_valid_relative_path("/etc/passwd"));
    assert!(!is_valid_relative_path("a/../b"));
    assert!(!is_valid_relative_path(".."));
}

#[test]
fn tags_parameter_splits_trims_and_drops_empties() {
    let tags = |s: &str| -> Vec<String> { parse_tags_param(s) };
    assert_eq!(tags("tag1,tag2"), vec!["tag1".to_string(), "tag2".to_string()]);
    assert_eq!(tags(" a , b "), vec!["a".to_string(), "b".to_string()]);
    assert_eq!(tags(" ,a,,b , "), vec!["a".to_string(), "b".to_string()]);
    assert_eq!(tags(""), Vec::<String>::new());
    assert_eq!(tags(","), Vec::<String>::new());
    assert_eq!(tags("solo"), vec!["solo".to_string()]);
}

#[test]
fn missing_dimensions_default_to_500() {
    assert_eq!(effective_dimensions(None, None), (500, 500));
    assert_eq!(effective_dimensions(Some(64), None), (64, 500));
    assert_eq!(effective_dimensions(None, Some(32)), (500, 32));
    assert_eq!(effective_dimensions(Some(1), Some(2)), (1, 2));
}

#[test]
fn numbers_parse_as_ids() {
    assert_eq!(parse_i64("42"), Some(42));
    assert_eq!(parse_i64("-7"), Some(-7));
    assert_eq!(parse_i64("+8"), Some(8));
    assert_eq!(parse_i64("9223372036854775807"), Some(i64::MAX));
    assert_eq!(parse_i64("-9223372036854775808"), Some(i64::MIN));
    assert_eq!(parse_i64("9223372036854775808"), None);
    assert_eq!(parse_i64(""), None);
    assert_eq!(parse_i64("12a"), None);
    assert_eq!(parse_i64("-"), None);
}

#[test]
fn details_keys_go_by_id_then_by_path() {
    assert_eq!(details_lookup("42"), DetailsKey::ById(42));
    assert_eq!(details_lookup("-7"), DetailsKey::ById(-7));
    assert_eq!(details_lookup("a/b.jpg"), DetailsKey::ByPath);
    assert_eq!(details_lookup("/abs"), DetailsKey::BadPath);
    assert_eq!(details_lookup("a/../b"), DetailsKey::BadPath);
    // a number too large for an id falls back to the path route
    assert_eq!(details_lookup("9223372036854775808"), DetailsKey::ByPath);
}

#[test]
fn little_endian_bytes() {
    assert_eq!(u64_le_bytes(0x0102030405060708), vec![8, 7, 6, 5, 4, 3, 2, 1]);
    assert_eq!(u64_le_bytes(0), vec![0; 8]);
    assert_eq!(u32_le_bytes(0x01020304), vec![4, 3, 2, 1]);
}

#[test]
fn entity_tags_hash_the_gathered_input() {
    // SHA-256 of the three bytes "abc", a fixed published value
    let input = etag_input("abc", 0, None);
    assert_eq!(input.len(), 3 + 8);
    let just_abc = b"abc".to_vec();
    assert_eq!(
        etag_value(&just_abc),
        "\"ba7816bf8f01cfea414140de5dae2223b00361a396177a9cb410ff61f20015ad\""
    );
    let with_time = etag_input("abc", 1, Some((2, 3)));
    assert_eq!(with_time.len(), 3 + 8 + 8 + 4);
    assert_ne!(etag_value(&input), etag_value(&with_time));
}

#[test]
fn last_modified_formats_or_stays_silent() {
    assert_eq!(
        last_modified_value(Some(0)).as_deref(),
        Some("Thu, 01 Jan 1970 00:00:00 GMT")
    );
    assert_eq!(
        last_modified_value(Some(784111777)).as_deref(),
        Some("Sun, 06 Nov 1994 08:49:37 GMT")
    );
    assert_eq!(last_modified_value(Some(u64::MAX)), None);
    assert_eq!(last_modified_value(None), None);
}
