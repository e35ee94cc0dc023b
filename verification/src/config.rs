//! Server configuration: the settings record, where the configuration
//! file is searched for, how the CORS policy is derived and validated,
//! where the derivative cache lives, and the startup summary line.

use vstd::prelude::*;
use crate::catalog::clone_string_vec;

verus! {

/// The server's settings, as read from its configuration file.
pub struct AppConfig {
    pub db_path: String,
    pub directory_to_scan: String,
    pub host: Option<String>,
    pub port: Option<u16>,
    pub ffmpeg_enabled: Option<bool>,
    pub ffmpeg_path: Option<String>,
    pub ffprobe_path: Option<String>,
    pub thumbnails_dir: Option<String>,
    pub cors_allowed_origins: Option<Vec<String>>,
    pub cors_allow_credentials: Option<bool>,
    pub cors_enabled: Option<bool>,
    pub client_dist_dir: Option<String>,
}

/// Which origins a cross-origin policy admits: every origin, or an
/// explicit list.
#[derive(Debug)]
pub enum CorsOrigins {
    AnyOrigin,
    List(Vec<String>),
}

/// The validated cross-origin policy the server runs with.
#[derive(Debug)]
pub struct CorsPolicy {
    pub allow_credentials: bool,
    pub origins: CorsOrigins,
}

/// Whether the configuration asks for credentialed cross-origin
/// requests.
pub open spec fn spec_cors_credentials(config: AppConfig) -> bool {
    match config.cors_allow_credentials {
        Some(b) => b,
        None => false,
    }
}

/// Derives the cross-origin policy from the configuration: disabled
/// configuration means no policy; an empty origin list means every
/// origin, which credentialed requests cannot be combined with; a
/// missing list is refused rather than defaulted. The syntactic check of
/// each origin as a header value stays with the code that builds the
/// HTTP layer.
pub fn build_cors(config: &AppConfig) -> (r: Result<Option<CorsPolicy>, String>)
    ensures
        config.cors_enabled == Some(false) ==> (r matches Ok(o) && o is None),
        config.cors_enabled != Some(false) && config.cors_allowed_origins is None ==> (r matches Err(
            m,
        ) && m@
            == "No CORS origins configured: set `cors_allowed_origins` in config.json (use an empty array for Any), or set `cors_enabled = false` to disable CORS."@),
        config.cors_enabled != Some(false) && (config.cors_allowed_origins matches Some(v)
            && v@.len() == 0) && spec_cors_credentials(*config) ==> (r matches Err(m) && m@
            == "Invalid CORS configuration: `cors_allow_credentials = true` cannot be used with wildcard/Any origins. Use explicit origins when credentials are required."@),
        config.cors_enabled != Some(false) && (config.cors_allowed_origins matches Some(v)
            && v@.len() == 0) && !spec_cors_credentials(*config) ==> (r matches Ok(o) && (o matches
            Some(p) && p.allow_credentials == spec_cors_credentials(*config)
            && p.origins is AnyOrigin)),
        config.cors_enabled != Some(false) && (config.cors_allowed_origins matches Some(v)
            && v@.len() > 0) ==> (r matches Ok(o) && (o matches Some(p) && p.allow_credentials
            == spec_cors_credentials(*config) && (p.origins matches CorsOrigins::List(l)
            && l.deep_view() == config.cors_allowed_origins->0.deep_view()))),
{
    if let Some(false) = config.cors_enabled {
        return Ok(None);
    }
    let creds = match config.cors_allow_credentials {
        Some(b) => b,
        None => false,
    };
    match &config.cors_allowed_origins {
        None => Err(
            String::from_str(
                "No CORS origins configured: set `cors_allowed_origins` in config.json (use an empty array for Any), or set `cors_enabled = false` to disable CORS.",
            ),
        ),
        Some(origins) => {
            if origins.len() == 0 {
                if creds {
                    Err(
                        String::from_str(
                            "Invalid CORS configuration: `cors_allow_credentials = true` cannot be used with wildcard/Any origins. Use explicit origins when credentials are required.",
                        ),
                    )
                } else {
                    Ok(
                        Some(
                            CorsPolicy {
                                allow_credentials: creds,
                                origins: CorsOrigins::AnyOrigin,
                            },
                        ),
                    )
                }
            } else {
                Ok(
                    Some(
                        CorsPolicy {
                            allow_credentials: creds,
                            origins: CorsOrigins::List(clone_string_vec(origins)),
                        },
                    ),
                )
            }
        },
    }
}

/// Where the derivative cache lives: the configured directory if one is
/// set, the system cache for the superuser, the user cache directory
/// when one is known, and a local fallback otherwise.
pub open spec fn spec_thumbnails_dir(
    configured: Option<Seq<char>>,
    is_root: bool,
    xdg_cache: Option<Seq<char>>,
    home: Option<Seq<char>>,
) -> Seq<char> {
    match configured {
        Some(t) => t,
        None => if is_root {
            "/var/cache/media-server/thumbnails"@
        } else {
            match xdg_cache {
                Some(x) => x + "/media-server/thumbnails"@,
                None => match home {
                    Some(h) => h + "/.cache/media-server/thumbnails"@,
                    None => ".thumbnails"@,
                },
            }
        },
    }
}

/// Resolves the derivative cache directory from the configured value and
/// the environment the caller read: whether the process is the
/// superuser, the cache-home variable, and the home directory.
pub fn resolve_thumbnails_dir(
    configured: Option<String>,
    is_root: bool,
    xdg_cache: Option<String>,
    home: Option<String>,
) -> (r: String)
    ensures
        r@ == spec_thumbnails_dir(
            configured.deep_view(),
            is_root,
            xdg_cache.deep_view(),
            home.deep_view(),
        ),
{
    match configured {
        Some(t) => t,
        None => {
            if is_root {
                String::from_str("/var/cache/media-server/thumbnails")
            } else {
                match xdg_cache {
                    Some(x) => {
                        let mut r = x;
                        r.append("/media-server/thumbnails");
                        r
                    },
                    None => match home {
                        Some(h) => {
                            let mut r = h;
                            r.append("/.cache/media-server/thumbnails");
                            r
                        },
                        None => String::from_str(".thumbnails"),
                    },
                }
            }
        },
    }
}

/// The configured client bundle directory, when one is set.
pub fn resolve_client_dist_dir(config: &AppConfig) -> (r: Option<String>)
    ensures
        r.deep_view() == config.client_dist_dir.deep_view(),
{
    match &config.client_dist_dir {
        Some(d) => Some(d.clone()),
        None => None,
    }
}

/// Where the configuration file is taken from, in search order: the path
/// given on the command line, a development file beside the working
/// directory, the working directory's own file, the server
/// subdirectory's, the user's configuration directory (the XDG variable
/// first, the home fallback second), and the system directory last.
#[derive(Clone, Copy, PartialEq, Eq, Structural, Debug)]
pub enum ConfigSource {
    CliPath,
    DevLocal,
    CwdConfig,
    ServerConfig,
    XdgConfig,
    HomeConfig,
    EtcConfig,
    NotFound,
}

/// Picks the configuration source by the fixed priority, from what the
/// caller found to exist.
pub fn choose_config_source(
    cli_given: bool,
    dev_exists: bool,
    cwd_exists: bool,
    server_exists: bool,
    xdg_exists: bool,
    home_exists: bool,
    etc_exists: bool,
) -> (r: ConfigSource)
    ensures
        r == if cli_given {
            ConfigSource::CliPath
        } else if dev_exists {
            ConfigSource::DevLocal
        } else if cwd_exists {
            ConfigSource::CwdConfig
        } else if server_exists {
            ConfigSource::ServerConfig
        } else if xdg_exists {
            ConfigSource::XdgConfig
        } else if home_exists {
            ConfigSource::HomeConfig
        } else if etc_exists {
            ConfigSource::EtcConfig
        } else {
            ConfigSource::NotFound
        },
{
    if cli_given {
        ConfigSource::CliPath
    } else if dev_exists {
        ConfigSource::DevLocal
    } else if cwd_exists {
        ConfigSource::CwdConfig
    } else if server_exists {
        ConfigSource::ServerConfig
    } else if xdg_exists {
        ConfigSource::XdgConfig
    } else if home_exists {
        ConfigSource::HomeConfig
    } else if etc_exists {
        ConfigSource::EtcConfig
    } else {
        ConfigSource::NotFound
    }
}

/// The items joined with a comma and a space between each two.
pub open spec fn spec_join_comma(s: Seq<Seq<char>>) -> Seq<char>
    decreases s.len(),
{
    if s.len() == 0 {
        Seq::empty()
    } else if s.len() == 1 {
        s[0]
    } else {
        spec_join_comma(s.drop_last()) + ", "@ + s.last()
    }
}

/// Joins strings with `, ` between each two.
pub fn join_comma(v: &Vec<String>) -> (r: String)
    ensures
        r@ == spec_join_comma(v.deep_view()),
{
    let mut r = String::new();
    let mut i: usize = 0;
    proof {
        assert(v.deep_view().take(0) =~= Seq::<Seq<char>>::empty());
    }
    while i < v.len()
        invariant
            i <= v@.len(),
            v.deep_view().len() == v@.len(),
            r@ == spec_join_comma(v.deep_view().take(i as int)),
        decreases v@.len() - i,
    {
        proof {
            assert(v.deep_view().take(i + 1).drop_last() =~= v.deep_view().take(i as int));
            assert(v.deep_view().take(i + 1).last() == v.deep_view()[i as int]);
            assert(v.deep_view()[i as int] == v@[i as int]@);
        }
        if i > 0 {
            r.append(", ");
        }
        r.append(v[i].as_str());
        i = i + 1;
    }
    proof {
        assert(v.deep_view().take(v@.len() as int) =~= v.deep_view());
    }
    r
}

/// The description of the effective CORS policy in the startup summary.
pub open spec fn spec_cors_desc(
    cors_enabled: Option<bool>,
    origins: Option<Seq<Seq<char>>>,
) -> Seq<char> {
    if cors_enabled == Some(false) {
        "disabled"@
    } else {
        match origins {
            Some(o) => if o.len() == 0 {
                "Any"@
            } else {
                "Allowed: "@ + spec_join_comma(o)
            },
            None => "unspecified"@,
        }
    }
}

/// The word a truth value prints as.
pub open spec fn spec_bool_word(b: bool) -> Seq<char> {
    if b {
        "true"@
    } else {
        "false"@
    }
}

/// The one-line startup summary: the CORS policy, whether credentials
/// are allowed, and the client bundle directory or a placeholder.
pub open spec fn spec_startup_summary(config: AppConfig) -> Seq<char> {
    "CORS: "@ + spec_cors_desc(config.cors_enabled, config.cors_allowed_origins.deep_view())
        + " (allow_credentials="@ + spec_bool_word(spec_cors_credentials(config))
        + "); client_dist_dir="@ + (match config.client_dist_dir {
        Some(d) => d@,
        None => "<none>"@,
    })
}

/// Renders the startup summary line that the server logs once it is
/// configured.
pub fn log_startup_info(config: &AppConfig) -> (r: String)
    ensures
        r@ == spec_startup_summary(*config),
{
    let mut r = String::from_str("CORS: ");
    let mut disabled = false;
    if let Some(false) = config.cors_enabled {
        disabled = true;
    }
    if disabled {
        r.append("disabled");
    } else {
        match &config.cors_allowed_origins {
            Some(o) => {
                if o.len() == 0 {
                    r.append("Any");
                } else {
                    r.append("Allowed: ");
                    let joined = join_comma(o);
                    r.append(joined.as_str());
                }
            },
            None => {
                r.append("unspecified");
            },
        }
    }
    r.append(" (allow_credentials=");
    let creds = match config.cors_allow_credentials {
        Some(b) => b,
        None => false,
    };
    if creds {
        r.append("true");
    } else {
        r.append("false");
    }
    r.append("); client_dist_dir=");
    match &config.client_dist_dir {
        Some(d) => {
            r.append(d.as_str());
        },
        None => {
            r.append("<none>");
        },
    }
    r
}

} // verus!
