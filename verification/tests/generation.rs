//! Generator decisions: names, the idempotent fast path, the seek
//! heuristic, probe parsing, argument lists, and the failure taxonomy.

use media_core::catalog::MediaEntry;
use media_core::generator::{
    derivative_file_name, extract_args, initial_decision, media_kind, parse_probe_duration,
    probe_args, derivative_patch, should_collect_temp, temp_file_name, thumb_file_segment,
    thumb_url, video_extract_result, video_seek_offset, GenDecision, GenError, MediaKind,
};

#[test]
fn derivative_names_follow_the_convention() {
    assert_eq!(derivative_file_name(5, 100, 100), "5_100x100.jpg");
    assert_eq!(derivative_file_name(-3, 10, 20), "-3_10x20.jpg");
    assert_eq!(derivative_file_name(0, 1, 1), "0_1x1.jpg");
}

#[test]
fn temp_names_never_collide_with_final_names() {
    let out = derivative_file_name(5, 100, 100);
    let tmp = temp_file_name(&out, 12345);
    assert_eq!(tmp, "5_100x100.jpg.12345.jpg");
    assert_ne!(tmp, out);
}

#[test]
fn thumb_urls_point_into_the_mount() {
    assert_eq!(thumb_url("5_100x100.jpg"), "/thumbnails/5_100x100.jpg");
}

#[test]
fn only_old_temp_files_are_collected() {
    let out = derivative_file_name(5, 100, 100);
    let tmp = temp_file_name(&out, 12345);
    assert!(should_collect_temp(&tmp, 3601));
    assert!(!should_collect_temp(&tmp, 3600));
    assert!(!should_collect_temp(&out, 999999));
    assert!(!should_collect_temp("notes.txt", 999999));
}

#[test]
fn existing_target_short_circuits() {
    // the idempotent fast path: nothing is decoded or transcoded
    let d = initial_decision(true, Some("image/png"), true);
    assert_eq!(d, GenDecision::ServeExisting);
    let d = initial_decision(true, None, false);
    assert_eq!(d, GenDecision::ServeExisting);
}

#[test]
fn media_kinds_route_generation() {
    assert_eq!(
        initial_decision(false, Some("image/jpeg"), false),
        GenDecision::GenerateImage
    );
    assert_eq!(
        initial_decision(false, Some("video/mp4"), true),
        GenDecision::GenerateVideo
    );
    assert_eq!(
        initial_decision(false, Some("video/mp4"), false),
        GenDecision::Reject(GenError::TranscodeDisabled)
    );
    assert_eq!(
        initial_decision(false, Some("text/plain"), true),
        GenDecision::Reject(GenError::UnsupportedType)
    );
    assert_eq!(
        initial_decision(false, None, true),
        GenDecision::Reject(GenError::UnsupportedType)
    );
}

#[test]
fn mime_classification() {
    assert_eq!(media_kind(Some("image/png")), MediaKind::Image);
    assert_eq!(media_kind(Some("video/webm")), MediaKind::Video);
    assert_eq!(media_kind(Some("audio/mpeg")), MediaKind::Audio);
    assert_eq!(media_kind(Some("application/pdf")), MediaKind::Other);
    assert_eq!(media_kind(Some("")), MediaKind::Directory);
    assert_eq!(media_kind(None), MediaKind::Directory);
}

#[test]
fn seek_offset_heuristic() {
    assert_eq!(video_seek_offset(Some(2)), 0);
    assert_eq!(video_seek_offset(Some(10)), 1);
    assert_eq!(video_seek_offset(Some(3)), 0);
    assert_eq!(video_seek_offset(Some(4)), 1);
    assert_eq!(video_seek_offset(Some(0)), 0);
    assert_eq!(video_seek_offset(Some(-5)), 0);
    assert_eq!(video_seek_offset(None), 1);
}

#[test]
fn probe_output_parses_to_whole_seconds() {
    assert_eq!(parse_probe_duration("2.000000\n"), Some(2));
    assert_eq!(parse_probe_duration("10.5"), Some(11));
    assert_eq!(parse_probe_duration("0.4"), Some(0));
    assert_eq!(parse_probe_duration("0.5"), Some(1));
    assert_eq!(parse_probe_duration(" 7 "), Some(7));
    assert_eq!(parse_probe_duration("-2.5"), Some(-3));
    assert_eq!(parse_probe_duration(".5"), Some(1));
    assert_eq!(parse_probe_duration("2."), Some(2));
    assert_eq!(parse_probe_duration("+3.2"), Some(3));
}

#[test]
fn malformed_probe_output_parses_to_nothing() {
    assert_eq!(parse_probe_duration(""), None);
    assert_eq!(parse_probe_duration("abc"), None);
    assert_eq!(parse_probe_duration("1.2.3"), None);
    assert_eq!(parse_probe_duration("."), None);
    assert_eq!(parse_probe_duration("-"), None);
    assert_eq!(parse_probe_duration("1 2"), None);
}

#[test]
fn probe_and_extract_argument_lists() {
    let p = probe_args("/media/clip.mp4");
    assert_eq!(
        p,
        vec![
            "-v",
            "error",
            "-show_entries",
            "format=duration",
            "-of",
            "default=noprint_wrappers=1:nokey=1",
            "/media/clip.mp4",
        ]
        .into_iter()
        .map(String::from)
        .collect::<Vec<_>>()
    );
    let x = extract_args(1, "/media/clip.mp4", 100, "/cache/t.jpg.1.jpg");
    assert_eq!(
        x,
        vec![
            "-ss",
            "1",
            "-i",
            "/media/clip.mp4",
            "-frames:v",
            "1",
            "-q:v",
            "2",
            "-vf",
            "scale=100:-1",
            "-y",
            "/cache/t.jpg.1.jpg",
        ]
        .into_iter()
        .map(String::from)
        .collect::<Vec<_>>()
    );
}

#[test]
fn extraction_failures_map_to_the_taxonomy() {
    assert_eq!(
        video_extract_result(false, false, None),
        Err(GenError::TranscodeSpawnFailed)
    );
    assert_eq!(
        video_extract_result(true, false, None),
        Err(GenError::TranscodeProcessFailed)
    );
    assert_eq!(video_extract_result(true, true, None), Err(GenError::IoError));
    assert_eq!(video_extract_result(true, true, Some((64, 48))), Ok((64, 48)));
}

#[test]
fn failure_descriptions() {
    assert_eq!(GenError::TranscodeDisabled.describe(), "ffmpeg disabled");
    assert_eq!(GenError::TranscodeProcessFailed.describe(), "ffmpeg failed");
    assert_eq!(GenError::TranscodeSpawnFailed.describe(), "failed to spawn ffmpeg");
    assert_eq!(
        GenError::UnsupportedType.describe(),
        "unsupported media type or generation failed"
    );
    assert_eq!(GenError::NotFound.describe(), "not found");
}

#[test]
fn patch_attaches_derivative_metadata() {
    let entry = MediaEntry {
        id: 5,
        name: "clip".to_string(),
        path: "videos/clip.mp4".to_string(),
        parent_id: Some(2),
        mime_type: Some("video/mp4".to_string()),
        size: Some(1024),
        created_at: "2020-01-01".to_string(),
        tags: Some(vec!["home".to_string()]),
        thumb_path: None,
        width: None,
        height: None,
        duration_secs: Some(42),
    };
    let patch = derivative_patch(&entry, "5_100x100.jpg", 100, 75, Some(12));
    assert_eq!(patch.name, "clip");
    assert_eq!(patch.path, "videos/clip.mp4");
    assert_eq!(patch.parent_id, Some(2));
    assert_eq!(patch.mime_type.as_deref(), Some("video/mp4"));
    assert_eq!(patch.size, Some(1024));
    assert_eq!(patch.tags, Some(vec!["home".to_string()]));
    assert_eq!(patch.thumb_path.as_deref(), Some("/thumbnails/5_100x100.jpg"));
    assert_eq!(patch.width, Some(100));
    assert_eq!(patch.height, Some(75));
    // a freshly probed duration wins over the stored one
    assert_eq!(patch.duration_secs, Some(12));

    let patch = derivative_patch(&entry, "5_100x100.jpg", 100, 75, None);
    assert_eq!(patch.duration_secs, Some(42));
}

#[test]
fn stored_thumb_paths_resolve_to_their_file_name() {
    assert_eq!(
        thumb_file_segment("/thumbnails/5_100x100.jpg").as_deref(),
        Some("5_100x100.jpg")
    );
    assert_eq!(thumb_file_segment("bare.jpg").as_deref(), Some("bare.jpg"));
    assert_eq!(thumb_file_segment("/thumbnails/"), None);
    assert_eq!(thumb_file_segment(""), None);
    assert_eq!(thumb_file_segment("a/.."), None);
}
