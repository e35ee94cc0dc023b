//! Configuration decisions: the CORS policy, directory resolution, the
//! configuration search order, and the startup summary.

use media_core::config::{
    build_cors, choose_config_source, join_comma, log_startup_info, resolve_client_dist_dir,
    resolve_thumbnails_dir, AppConfig, ConfigSource, CorsOrigins,
};

fn base_config() -> AppConfig {
    AppConfig {
        db_path: "media.db".to_string(),
        directory_to_scan: "/media".to_string(),
        host: None,
        port: None,
        ffmpeg_enabled: None,
        ffmpeg_path: None,
        ffprobe_path: None,
        thumbnails_dir: None,
        cors_allowed_origins: None,
        cors_allow_credentials: None,
        cors_enabled: None,
        client_dist_dir: None,
    }
}

#[test]
fn disabled_cors_installs_nothing() {
    let mut cfg = base_config();
    cfg.cors_enabled = Some(false);
    assert!(matches!(build_cors(&cfg), Ok(None)));
}

#[test]
fn missing_origins_are_refused() {
    let cfg = base_config();
    let err = build_cors(&cfg).unwrap_err();
    assert!(err.starts_with("No CORS origins configured:"));
}

#[test]
fn credentials_with_wildcard_are_refused() {
    let mut cfg = base_config();
    cfg.cors_allowed_origins = Some(Vec::new());
    cfg.cors_allow_credentials = Some(true);
    let err = build_cors(&cfg).unwrap_err();
    assert!(err.starts_with("Invalid CORS configuration:"));
}

#[test]
fn empty_origin_list_means_any() {
    let mut cfg = base_config();
    cfg.cors_allowed_origins = Some(Vec::new());
    let policy = build_cors(&cfg).unwrap().unwrap();
    assert!(!policy.allow_credentials);
    assert!(matches!(policy.origins, CorsOrigins::AnyOrigin));
}

#[test]
fn explicit_origins_are_kept() {
    let mut cfg = base_config();
    cfg.cors_allowed_origins = Some(vec!["http://a".to_string(), "http://b".to_string()]);
    cfg.cors_allow_credentials = Some(true);
    let policy = build_cors(&cfg).unwrap().unwrap();
    assert!(policy.allow_credentials);
    match policy.origins {
        CorsOrigins::List(l) => {
            assert_eq!(l, vec!["http://a".to_string(), "http://b".to_string()])
        }
        CorsOrigins::AnyOrigin => panic!("expected the explicit list"),
    }
}

#[test]
fn thumbnail_directory_resolution_order() {
    assert_eq!(
        resolve_thumbnails_dir(Some("/custom".to_string()), true, None, None),
        "/custom"
    );
    assert_eq!(
        resolve_thumbnails_dir(None, true, Some("/xdg".to_string()), None),
        "/var/cache/media-server/thumbnails"
    );
    assert_eq!(
        resolve_thumbnails_dir(None, false, Some("/xdg".to_string()), Some("/home/u".to_string())),
        "/xdg/media-server/thumbnails"
    );
    assert_eq!(
        resolve_thumbnails_dir(None, false, None, Some("/home/u".to_string())),
        "/home/u/.cache/media-server/thumbnails"
    );
    assert_eq!(resolve_thumbnails_dir(None, false, None, None), ".thumbnails");
}

#[test]
fn client_dist_dir_passes_through() {
    let mut cfg = base_config();
    assert_eq!(resolve_client_dist_dir(&cfg), None);
    cfg.client_dist_dir = Some("client/dist".to_string());
    assert_eq!(resolve_client_dist_dir(&cfg), Some("client/dist".to_string()));
}

#[test]
fn configuration_search_order() {
    assert_eq!(
        choose_config_source(true, true, true, true, true, true, true),
        ConfigSource::CliPath
    );
    assert_eq!(
        choose_config_source(false, true, true, true, true, true, true),
        ConfigSource::DevLocal
    );
    assert_eq!(
        choose_config_source(false, false, true, true, true, true, true),
        ConfigSource::CwdConfig
    );
    assert_eq!(
        choose_config_source(false, false, false, true, true, true, true),
        ConfigSource::ServerConfig
    );
    assert_eq!(
        choose_config_source(false, false, false, false, true, true, true),
        ConfigSource::XdgConfig
    );
    assert_eq!(
        choose_config_source(false, false, false, false, false, true, true),
        ConfigSource::HomeConfig
    );
    assert_eq!(
        choose_config_source(false, false, false, false, false, false, true),
        ConfigSource::EtcConfig
    );
    assert_eq!(
        choose_config_source(false, false, false, false, false, false, false),
        ConfigSource::NotFound
    );
}

#[test]
fn startup_summary_line() {
    let mut cfg = base_config();
    cfg.cors_allowed_origins = Some(vec!["http://a".to_string(), "http://b".to_string()]);
    cfg.cors_allow_credentials = Some(true);
    assert_eq!(
        log_startup_info(&cfg),
        "CORS: Allowed: http://a, http://b (allow_credentials=true); client_dist_dir=<none>"
    );

    let mut cfg = base_config();
    cfg.cors_enabled = Some(false);
    cfg.client_dist_dir = Some("client/dist".to_string());
    assert_eq!(
        log_startup_info(&cfg),
        "CORS: disabled (allow_credentials=false); client_dist_dir=client/dist"
    );

    let mut cfg = base_config();
    cfg.cors_allowed_origins = Some(Vec::new());
    assert_eq!(
        log_startup_info(&cfg),
        "CORS: Any (allow_credentials=false); client_dist_dir=<none>"
    );

    let cfg = base_config();
    assert_eq!(
        log_startup_info(&cfg),
        "CORS: unspecified (allow_credentials=false); client_dist_dir=<none>"
    );
}

#[test]
fn joining_origin_lists() {
    let v: Vec<String> = Vec::new();
    assert_eq!(join_comma(&v), "");
    let v = vec!["a".to_string()];
    assert_eq!(join_comma(&v), "a");
    let v = vec!["a".to_string(), "b".to_string(), "c".to_string()];
    assert_eq!(join_comma(&v), "a, b, c");
}
