//! Plugin settings: where they come from and which source wins.
//!
//! Settings reach the plugin from the host's `initialize` call (runtime) and
//! from a sidecar file next to the executable; a runtime value wins over the
//! file's, field by field.
use vstd::prelude::*;
use crate::common::DEFAULT_MAX_BLOB_SIZE;

verus! {

/// The plugin's TLS and resource settings; every field is optional.
#[derive(Debug, Clone)]
pub struct PluginConfig {
    pub ssl_ca: Option<String>,
    pub ssl_cert: Option<String>,
    pub ssl_key: Option<String>,
    pub ssl_mode: Option<String>,
    pub max_connections: Option<u32>,
    pub max_blob_size: Option<u64>,
}

/// Settings with every field unset.
pub open spec fn empty_config() -> PluginConfig {
    PluginConfig {
        ssl_ca: None,
        ssl_cert: None,
        ssl_key: None,
        ssl_mode: None,
        max_connections: None,
        max_blob_size: None,
    }
}

impl Default for PluginConfig {
    fn default() -> (r: Self)
        ensures
            r == empty_config(),
    {
        PluginConfig {
            ssl_ca: None,
            ssl_cert: None,
            ssl_key: None,
            ssl_mode: None,
            max_connections: None,
            max_blob_size: None,
        }
    }
}

/// `first` when it is set, otherwise `second` (`Option::or`).
pub open spec fn or_else<T>(first: Option<T>, second: Option<T>) -> Option<T> {
    match first {
        Some(v) => Some(v),
        None => second,
    }
}

/// The settings in force: each field from `runtime` when set there, otherwise from `file`.
pub open spec fn merged(file: PluginConfig, runtime: PluginConfig) -> PluginConfig {
    PluginConfig {
        ssl_ca: or_else(runtime.ssl_ca, file.ssl_ca),
        ssl_cert: or_else(runtime.ssl_cert, file.ssl_cert),
        ssl_key: or_else(runtime.ssl_key, file.ssl_key),
        ssl_mode: or_else(runtime.ssl_mode, file.ssl_mode),
        max_connections: or_else(runtime.max_connections, file.max_connections),
        max_blob_size: or_else(runtime.max_blob_size, file.max_blob_size),
    }
}

fn pick_text(first: &Option<String>, second: &Option<String>) -> (r: Option<String>)
    ensures
        r == or_else(*first, *second),
{
    match first {
        Some(v) => Some(v.clone()),
        None => match second {
            Some(v) => Some(v.clone()),
            None => None,
        },
    }
}

/// Combines the sidecar file's settings with the runtime ones: each field is
/// the runtime value when it is set, the file's otherwise.
pub fn merge_config(file: &PluginConfig, runtime: &PluginConfig) -> (r: PluginConfig)
    ensures
        r == merged(*file, *runtime),
{
    PluginConfig {
        ssl_ca: pick_text(&runtime.ssl_ca, &file.ssl_ca),
        ssl_cert: pick_text(&runtime.ssl_cert, &file.ssl_cert),
        ssl_key: pick_text(&runtime.ssl_key, &file.ssl_key),
        ssl_mode: pick_text(&runtime.ssl_mode, &file.ssl_mode),
        max_connections: match runtime.max_connections {
            Some(v) => Some(v),
            None => file.max_connections,
        },
        max_blob_size: match runtime.max_blob_size {
            Some(v) => Some(v),
            None => file.max_blob_size,
        },
    }
}

/// The settings in force, given the file's settings and the runtime ones
/// (`None` when the runtime settings cannot be read, which counts as none set).
pub fn load(file: &PluginConfig, runtime: Option<&PluginConfig>) -> (r: PluginConfig)
    ensures
        r == merged(
            *file,
            match runtime {
                Some(c) => *c,
                None => empty_config(),
            },
        ),
{
    match runtime {
        Some(c) => merge_config(file, c),
        None => {
            let none = PluginConfig::default();
            merge_config(file, &none)
        },
    }
}

/// The largest BLOB the plugin handles: the configured one, or 100 MiB.
pub fn max_blob_size(config: &PluginConfig) -> (r: u64)
    ensures
        r == match config.max_blob_size {
            Some(n) => n,
            None => DEFAULT_MAX_BLOB_SIZE,
        },
{
    match config.max_blob_size {
        Some(n) => n,
        None => DEFAULT_MAX_BLOB_SIZE,
    }
}

/// Runtime settings override the file's field by field; with no runtime
/// settings the file's are in force, and the other way round; merging twice
/// with the same runtime settings changes nothing more.
pub proof fn lemma_merge_laws(file: PluginConfig, runtime: PluginConfig)
    ensures
        merged(file, empty_config()) == file,
        merged(empty_config(), runtime) == runtime,
        merged(merged(file, runtime), runtime) == merged(file, runtime),
        merged(runtime, runtime) == runtime,
{
}

// ---------------------------------------------------------------------------
// Paths

/// A plain file name: non-empty, without `'/'`, `'\\'` or `':'`, and neither
/// `.` nor `..`. On every platform such a name has no root and no prefix, so it
/// is relative, and joining it onto a directory appends it as one component.
pub open spec fn is_plain_name(p: Seq<char>) -> bool {
    &&& p.len() > 0
    &&& !p.contains('/')
    &&& !p.contains('\\')
    &&& !p.contains(':')
    &&& p != seq!['.']
    &&& p != seq!['.', '.']
}

/// `s` ends with `p`.
pub open spec fn ends_with(s: Seq<char>, p: Seq<char>) -> bool {
    p.len() <= s.len() && s.skip(s.len() - p.len()) == p
}

/// What holds of `s`, the resolved form of `raw` against `base`, on every
/// platform: a plain name ends the resolved path, after the base when the base
/// is not empty.
pub open spec fn resolved_from(raw: Seq<char>, base: Seq<char>, s: Seq<char>) -> bool {
    is_plain_name(raw) ==> ends_with(s, raw) && (base.len() > 0 ==> s.len() > raw.len())
}

/// `Path::is_absolute` on `p`. Its contract: a path without `'/'`, `'\\'` and
/// `':'` is not absolute (absolute needs a root on Unix, and a prefix and a
/// root on Windows). Which other paths are absolute depends on the platform
/// and is left unstated.
#[verifier::external_body]
fn path_is_absolute(p: &str) -> (r: bool)
    ensures
        !p@.contains('/') && !p@.contains('\\') && !p@.contains(':') ==> !r,
{
    std::path::Path::new(p).is_absolute()
}

/// `Path::join` of `p` onto `base`, rendered with `to_string_lossy`. Its
/// contract: a plain name (`is_plain_name`), being relative, is adjoined to
/// `base` as its last component, so the text ends with it, and is longer than
/// it when `base` is not empty. The separator and the rest of the text depend
/// on the platform and are left unstated.
#[verifier::external_body]
fn path_join(base: &str, p: &str) -> (r: String)
    ensures
        is_plain_name(p@) ==> ends_with(r@, p@) && (base@.len() > 0 ==> r@.len() > p@.len()),
{
    std::path::Path::new(base).join(p).to_string_lossy().to_string()
}

/// The resolved form of a configured path `raw`: `raw` itself when the
/// platform takes it as absolute, otherwise `joined`, the platform's join of
/// `raw` onto the base directory.
pub fn resolve_with(raw: String, is_absolute: bool, joined: String) -> (r: String)
    ensures
        r == (if is_absolute { raw } else { joined }),
{
    if is_absolute {
        raw
    } else {
        joined
    }
}

/// A configured path, resolved: `before` set exactly when `after` is, and a
/// plain name resolved against `base`.
pub open spec fn path_resolved(before: Option<String>, after: Option<String>, base: Seq<char>) -> bool {
    match before {
        Some(raw) => after matches Some(s) && resolved_from(raw@, base, s@),
        None => after is None,
    }
}

/// A configured path made usable: absolute paths are kept as they are,
/// relative ones are resolved against `base_dir`; no path stays no path. A
/// plain file name comes back as the last component of a longer path when
/// `base_dir` is not empty. Which other paths are absolute, and the rest of
/// the text of a join, rest on the platform's path rules and are left unstated.
pub fn resolve_path(base_dir: &str, value: Option<String>) -> (r: Option<String>)
    ensures
        path_resolved(value, r, base_dir@),
{
    match value {
        Some(raw) => {
            let absolute = path_is_absolute(raw.as_str());
            let joined = path_join(base_dir, raw.as_str());
            Some(resolve_with(raw, absolute, joined))
        },
        None => None,
    }
}

/// The settings with their three certificate paths resolved against
/// `base_dir`; the other fields are unchanged.
pub fn normalize_paths(config: PluginConfig, base_dir: &str) -> (r: PluginConfig)
    ensures
        r.ssl_mode == config.ssl_mode,
        r.max_connections == config.max_connections,
        r.max_blob_size == config.max_blob_size,
        path_resolved(config.ssl_ca, r.ssl_ca, base_dir@),
        path_resolved(config.ssl_cert, r.ssl_cert, base_dir@),
        path_resolved(config.ssl_key, r.ssl_key, base_dir@),
{
    PluginConfig {
        ssl_ca: resolve_path(base_dir, config.ssl_ca),
        ssl_cert: resolve_path(base_dir, config.ssl_cert),
        ssl_key: resolve_path(base_dir, config.ssl_key),
        ssl_mode: config.ssl_mode,
        max_connections: config.max_connections,
        max_blob_size: config.max_blob_size,
    }
}

} // verus!
