//! Catalog entry handling: row conversion, tag round trips, filtering,
//! pagination, classification, and the listing statement.

use media_core::catalog::{
    build_children_query, classify_kind, clone_entry, decode_tags, encode_tags, entry_from_row,
    filter_entries_by_tags, new_dir_entry, new_file_entry, paginate_entries, MediaEntry,
};

fn sample_entry(id: i64, tags: Option<Vec<&str>>) -> MediaEntry {
    entry_from_row(
        id,
        format!("entry{}", id),
        format!("dir/entry{}.jpg", id),
        Some(1),
        Some("image/jpeg".to_string()),
        Some(100),
        tags.map(|t| {
            let owned: Vec<String> = t.into_iter().map(String::from).collect();
            serde_json::to_string(&owned).unwrap()
        }),
        None,
        None,
        None,
        None,
        "2020-01-01".to_string(),
    )
}

#[test]
fn rows_convert_with_decoded_tags() {
    let e = sample_entry(3, Some(vec!["a", "b"]));
    assert_eq!(e.id, 3);
    assert_eq!(e.name, "entry3");
    assert_eq!(e.path, "dir/entry3.jpg");
    assert_eq!(e.parent_id, Some(1));
    assert_eq!(e.mime_type.as_deref(), Some("image/jpeg"));
    assert_eq!(e.size, Some(100));
    assert_eq!(e.created_at, "2020-01-01");
    assert_eq!(e.tags, Some(vec!["a".to_string(), "b".to_string()]));
}

#[test]
fn unparsable_tag_columns_mean_no_tags() {
    let e = entry_from_row(
        1,
        "x".to_string(),
        "x".to_string(),
        None,
        None,
        None,
        Some("not json".to_string()),
        None,
        None,
        None,
        None,
        String::new(),
    );
    assert_eq!(e.tags, None);
}

#[test]
fn tags_round_trip_through_the_stored_text() {
    let tags = Some(vec!["a".to_string(), "b".to_string()]);
    let encoded = encode_tags(&tags);
    assert_eq!(encoded.as_deref(), Some("[\"a\",\"b\"]"));
    let decoded = decode_tags(&encoded);
    assert_eq!(decoded, tags);
    assert_eq!(encode_tags(&None), None);
}

#[test]
fn filtering_keeps_entries_with_every_tag() {
    let entries = vec![
        sample_entry(1, Some(vec!["a", "b"])),
        sample_entry(2, Some(vec!["a"])),
        sample_entry(3, None),
        sample_entry(4, Some(vec!["b", "a", "c"])),
    ];
    let filter: Vec<String> = vec!["a".to_string(), "b".to_string()];
    let kept = filter_entries_by_tags(&entries, &filter);
    let ids: Vec<i64> = kept.iter().map(|e| e.id).collect();
    assert_eq!(ids, vec![1, 4]);

    // an empty filter keeps whatever has a tag list at all
    let all: Vec<String> = Vec::new();
    let kept = filter_entries_by_tags(&entries, &all);
    let ids: Vec<i64> = kept.iter().map(|e| e.id).collect();
    assert_eq!(ids, vec![1, 2, 4]);
}

#[test]
fn pagination_clamps_to_the_list() {
    let entries: Vec<MediaEntry> = (0..5).map(|i| sample_entry(i, None)).collect();
    let ids = |v: &Vec<MediaEntry>| v.iter().map(|e| e.id).collect::<Vec<_>>();

    assert_eq!(ids(&paginate_entries(&entries, Some(2), Some(1))), vec![1, 2]);
    assert_eq!(ids(&paginate_entries(&entries, None, None)), vec![0, 1, 2, 3, 4]);
    assert_eq!(ids(&paginate_entries(&entries, Some(2), Some(10))), Vec::<i64>::new());
    assert_eq!(ids(&paginate_entries(&entries, Some(-1), None)), Vec::<i64>::new());
    assert_eq!(ids(&paginate_entries(&entries, Some(10), Some(-3))), vec![0, 1, 2, 3, 4]);
}

#[test]
fn entries_clone_field_for_field() {
    let e = sample_entry(7, Some(vec!["x"]));
    let c = clone_entry(&e);
    assert_eq!(c.id, e.id);
    assert_eq!(c.name, e.name);
    assert_eq!(c.path, e.path);
    assert_eq!(c.tags, e.tags);
    assert_eq!(c.mime_type, e.mime_type);
}

#[test]
fn kinds_label_listings() {
    assert_eq!(classify_kind(Some("image/png")), Some("image"));
    assert_eq!(classify_kind(Some("video/mp4")), Some("video"));
    assert_eq!(classify_kind(Some("audio/flac")), Some("audio"));
    assert_eq!(classify_kind(Some("text/plain")), Some("other"));
    assert_eq!(classify_kind(Some("")), None);
    assert_eq!(classify_kind(None), None);
}

#[test]
fn listing_statement_maps_known_parameters() {
    let base = "SELECT id, name, path, parent_id, mime_type, size, tags, thumb_path, width, \
                height, duration_secs, created_at FROM media WHERE parent_id IS ?";
    assert_eq!(
        build_children_query(None, None, None, None, true),
        format!("{} ORDER BY name ASC LIMIT ? OFFSET ?", base)
    );
    assert_eq!(
        build_children_query(Some("file"), Some("image"), Some("created"), Some("DESC"), false),
        format!(
            "{} AND mime_type IS NOT NULL AND mime_type LIKE 'image/%' ORDER BY created_at DESC",
            base
        )
    );
    assert_eq!(
        build_children_query(Some("directory"), None, Some("size"), Some("asc"), false),
        format!("{} AND mime_type IS NULL ORDER BY size ASC", base)
    );
    // unknown parameter values add no fragment and fall back to defaults
    assert_eq!(
        build_children_query(Some("weird"), Some("weird"), Some("weird"), Some("weird"), false),
        format!("{} ORDER BY name ASC", base)
    );
    assert_eq!(
        build_children_query(None, Some("other"), None, None, false),
        format!(
            "{} AND mime_type IS NOT NULL AND mime_type NOT LIKE 'image/%' AND mime_type NOT \
             LIKE 'video/%' AND mime_type NOT LIKE 'audio/%' ORDER BY name ASC",
            base
        )
    );
}

#[test]
fn scanner_records() {
    let f = new_file_entry(
        "photo.jpg".to_string(),
        "album/photo.jpg".to_string(),
        Some(4),
        2048,
    );
    assert_eq!(f.name, "photo.jpg");
    assert_eq!(f.path, "album/photo.jpg");
    assert_eq!(f.parent_id, Some(4));
    assert_eq!(f.mime_type.as_deref(), Some("image/jpeg"));
    assert_eq!(f.size, Some(2048));
    assert_eq!(f.thumb_path, None);

    let unknown = new_file_entry("blob".to_string(), "blob".to_string(), None, 1);
    assert_eq!(unknown.mime_type.as_deref(), Some("application/octet-stream"));

    let d = new_dir_entry("album".to_string(), "album".to_string(), None);
    assert_eq!(d.mime_type, None);
    assert_eq!(d.size, None);
}
