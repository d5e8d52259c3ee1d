//! Connection decisions: the TLS mode in force, the key under which a pool is
//! kept, and what a connection is opened with.
use vstd::prelude::*;
use crate::config::{merged, PluginConfig};
use crate::models::ConnectionParams;
use crate::text::{decimal, push_decimal, same_text};

verus! {

/// The TLS modes of a MySQL connection.
#[derive(Debug, Clone, Copy, PartialEq, Eq, Structural)]
pub enum SslMode {
    Disabled,
    Preferred,
    Required,
    VerifyCa,
    VerifyIdentity,
}

/// The mode asked for: the configured one, else the request's, else `required`.
pub open spec fn requested_ssl_mode(params: ConnectionParams, config: PluginConfig) -> Seq<char> {
    match config.ssl_mode {
        Some(m) => m@,
        None => match params.ssl_mode {
            Some(m) => m@,
            None => "required"@,
        },
    }
}

/// The mode a name selects; an unknown name selects `VerifyCa`.
pub open spec fn ssl_mode_named(name: Seq<char>) -> SslMode {
    if name == "disabled"@ || name == "disable"@ {
        SslMode::Disabled
    } else if name == "preferred"@ || name == "prefer"@ {
        SslMode::Preferred
    } else if name == "required"@ || name == "require"@ {
        SslMode::Required
    } else if name == "verify_identity"@ {
        SslMode::VerifyIdentity
    } else {
        SslMode::VerifyCa
    }
}

/// The mode in force: the requested one, except that a verifying mode without
/// a configured CA falls back to `Required`.
pub open spec fn effective_ssl_mode_spec(params: ConnectionParams, config: PluginConfig) -> SslMode {
    let mode = ssl_mode_named(requested_ssl_mode(params, config));
    if (mode == SslMode::VerifyCa || mode == SslMode::VerifyIdentity) && config.ssl_ca is None {
        SslMode::Required
    } else {
        mode
    }
}

fn mode_named(name: &str) -> (m: SslMode)
    ensures
        m == ssl_mode_named(name@),
        name@ == "disabled"@ ==> m == SslMode::Disabled,
        name@ == "disable"@ ==> m == SslMode::Disabled,
        name@ == "preferred"@ ==> m == SslMode::Preferred,
        name@ == "prefer"@ ==> m == SslMode::Preferred,
        name@ == "required"@ ==> m == SslMode::Required,
        name@ == "require"@ ==> m == SslMode::Required,
        name@ == "verify_ca"@ ==> m == SslMode::VerifyCa,
        name@ == "verify_identity"@ ==> m == SslMode::VerifyIdentity,
{
    proof { lemma_mode_names_distinct(); }
    if same_text(name, "disabled") || same_text(name, "disable") {
        SslMode::Disabled
    } else if same_text(name, "preferred") || same_text(name, "prefer") {
        SslMode::Preferred
    } else if same_text(name, "required") || same_text(name, "require") {
        SslMode::Required
    } else if same_text(name, "verify_identity") {
        SslMode::VerifyIdentity
    } else {
        SslMode::VerifyCa
    }
}

/// The TLS mode a connection uses under the settings in force.
pub fn effective_ssl_mode(params: &ConnectionParams, config: &PluginConfig) -> (m: SslMode)
    ensures
        m == effective_ssl_mode_spec(*params, *config),
        (m == SslMode::VerifyCa || m == SslMode::VerifyIdentity) ==> config.ssl_ca is Some,
        requested_ssl_mode(*params, *config) == "disabled"@ ==> m == SslMode::Disabled,
        requested_ssl_mode(*params, *config) == "disable"@ ==> m == SslMode::Disabled,
        requested_ssl_mode(*params, *config) == "preferred"@ ==> m == SslMode::Preferred,
        requested_ssl_mode(*params, *config) == "prefer"@ ==> m == SslMode::Preferred,
        requested_ssl_mode(*params, *config) == "required"@ ==> m == SslMode::Required,
        requested_ssl_mode(*params, *config) == "require"@ ==> m == SslMode::Required,
        requested_ssl_mode(*params, *config) == "verify_ca"@
            ==> m == (if config.ssl_ca is Some { SslMode::VerifyCa } else { SslMode::Required }),
        requested_ssl_mode(*params, *config) == "verify_identity"@
            ==> m == (if config.ssl_ca is Some { SslMode::VerifyIdentity } else { SslMode::Required }),
{
    proof { lemma_documented_modes(*params, *config); }
    let requested: &str = match &config.ssl_mode {
        Some(m) => m.as_str(),
        None => match &params.ssl_mode {
            Some(m) => m.as_str(),
            None => "required",
        },
    };
    let mode = mode_named(requested);
    if (mode == SslMode::VerifyCa || mode == SslMode::VerifyIdentity) && config.ssl_ca.is_none() {
        return SslMode::Required;
    }
    mode
}

/// The name of a mode.
pub open spec fn ssl_mode_name(m: SslMode) -> Seq<char> {
    match m {
        SslMode::Disabled => "disabled"@,
        SslMode::Preferred => "preferred"@,
        SslMode::Required => "required"@,
        SslMode::VerifyCa => "verify_ca"@,
        SslMode::VerifyIdentity => "verify_identity"@,
    }
}

/// The name of the TLS mode a connection uses.
pub fn ssl_mode_label(params: &ConnectionParams, config: &PluginConfig) -> (r: &'static str)
    ensures
        r@ == ssl_mode_name(effective_ssl_mode_spec(*params, *config)),
{
    match effective_ssl_mode(params, config) {
        SslMode::Disabled => "disabled",
        SslMode::Preferred => "preferred",
        SslMode::Required => "required",
        SslMode::VerifyCa => "verify_ca",
        SslMode::VerifyIdentity => "verify_identity",
    }
}

/// The text of an optional setting, or `default`.
pub open spec fn text_or(v: Option<String>, default: Seq<char>) -> Seq<char> {
    match v {
        Some(s) => s@,
        None => default,
    }
}

/// The database a connection opens: the one asked for, else the primary one.
pub open spec fn target_database(params: ConnectionParams, override_db: Option<&str>) -> Seq<char> {
    match override_db {
        Some(db) => db@,
        None => params.database.primary_spec(),
    }
}

/// The key under which a pool is kept: the connection id (with the database
/// asked for, if any), or every setting that shapes the connection, joined by `'|'`.
pub open spec fn pool_key(params: ConnectionParams, override_db: Option<&str>, config: PluginConfig) -> Seq<char> {
    match params.connection_id {
        Some(id) => match override_db {
            Some(db) => id@ + ":"@ + db@,
            None => id@,
        },
        None => params.driver@ + "|"@ + text_or(params.host, "localhost"@) + "|"@
            + decimal(match params.port { Some(p) => p as nat, None => 3306 }) + "|"@
            + text_or(params.username, ""@) + "|"@ + text_or(params.password, ""@) + "|"@
            + target_database(params, override_db) + "|"@
            + (match params.ssl_mode {
                Some(m) => m@,
                None => text_or(config.ssl_mode, "verify_ca"@),
            }) + "|"@ + text_or(config.ssl_ca, ""@) + "|"@ + text_or(config.ssl_cert, ""@) + "|"@
            + text_or(config.ssl_key, ""@),
    }
}

fn append_or(out: &mut String, v: &Option<String>, default: &str)
    ensures
        final(out)@ == old(out)@ + text_or(*v, default@),
{
    match v {
        Some(s) => out.append(s.as_str()),
        None => out.append(default),
    }
}

/// The key under which the pool for `params` (and `override_db`) is kept.
pub fn build_pool_key(params: &ConnectionParams, override_db: Option<&str>, config: &PluginConfig) -> (r: String)
    ensures
        r@ == pool_key(*params, override_db, *config),
{
    if let Some(connection_id) = &params.connection_id {
        if let Some(database) = override_db {
            let mut key = connection_id.clone();
            key.append(":");
            key.append(database);
            return key;
        }
        return connection_id.clone();
    }
    let mut key = params.driver.clone();
    key.append("|");
    append_or(&mut key, &params.host, "localhost");
    key.append("|");
    let port: u16 = match params.port {
        Some(p) => p,
        None => 3306,
    };
    push_decimal(&mut key, port as u64);
    key.append("|");
    append_or(&mut key, &params.username, "");
    key.append("|");
    append_or(&mut key, &params.password, "");
    key.append("|");
    match override_db {
        Some(db) => key.append(db),
        None => key.append(params.database.primary()),
    }
    key.append("|");
    match &params.ssl_mode {
        Some(m) => key.append(m.as_str()),
        None => append_or(&mut key, &config.ssl_mode, "verify_ca"),
    }
    key.append("|");
    append_or(&mut key, &config.ssl_ca, "");
    key.append("|");
    append_or(&mut key, &config.ssl_cert, "");
    key.append("|");
    append_or(&mut key, &config.ssl_key, "");
    key
}

/// What a connection is opened with.
#[derive(Debug, Clone)]
pub struct ConnectSettings {
    pub host: String,
    pub port: u16,
    pub username: String,
    pub password: String,
    pub database: String,
    pub ssl_mode: SslMode,
    pub ssl_ca: Option<String>,
    pub ssl_cert: Option<String>,
    pub ssl_key: Option<String>,
}

fn text_or_default(v: &Option<String>, default: &str) -> (r: String)
    ensures
        r@ == text_or(*v, default@),
{
    match v {
        Some(s) => s.clone(),
        None => String::from_str(default),
    }
}

/// The settings a connection for `params` is opened with: host (default
/// `localhost`), port (default 3306), user and password (default empty), the
/// target database, the TLS mode in force and the configured certificate paths.
pub fn connection_settings(params: &ConnectionParams, override_db: Option<&str>, config: &PluginConfig) -> (r: ConnectSettings)
    ensures
        r.host@ == text_or(params.host, "localhost"@),
        r.port == match params.port { Some(p) => p, None => 3306u16 },
        r.username@ == text_or(params.username, ""@),
        r.password@ == text_or(params.password, ""@),
        r.database@ == target_database(*params, override_db),
        r.ssl_mode == effective_ssl_mode_spec(*params, *config),
        r.ssl_ca == config.ssl_ca,
        r.ssl_cert == config.ssl_cert,
        r.ssl_key == config.ssl_key,
{
    let database = match override_db {
        Some(db) => String::from_str(db),
        None => String::from_str(params.database.primary()),
    };
    ConnectSettings {
        host: text_or_default(&params.host, "localhost"),
        port: match params.port {
            Some(p) => p,
            None => 3306,
        },
        username: text_or_default(&params.username, ""),
        password: text_or_default(&params.password, ""),
        database,
        ssl_mode: effective_ssl_mode(params, config),
        ssl_ca: config.ssl_ca.clone(),
        ssl_cert: config.ssl_cert.clone(),
        ssl_key: config.ssl_key.clone(),
    }
}

/// The size of a connection pool: the configured one, or 5.
pub fn pool_max_connections(config: &PluginConfig) -> (r: u32)
    ensures
        r == match config.max_connections { Some(n) => n, None => 5u32 },
{
    match config.max_connections {
        Some(n) => n,
        None => 5,
    }
}

/// How a certificate path is reported: the path and whether the file exists
/// (`exists`, as the caller found it), or `<none>`.
pub open spec fn file_status_text(path: Option<String>, exists: bool) -> Seq<char> {
    match path {
        Some(p) => p@ + " (exists="@ + (if exists { "true"@ } else { "false"@ }) + ")"@,
        None => "<none>"@,
    }
}

/// How a certificate path is reported, given whether the file exists.
pub fn file_status(path: Option<&String>, exists: bool) -> (r: String)
    ensures
        r@ == file_status_text(match path { Some(p) => Some(*p), None => None }, exists),
{
    match path {
        Some(value) => {
            let mut s = value.clone();
            s.append(" (exists=");
            if exists {
                s.append("true");
            } else {
                s.append("false");
            }
            s.append(")");
            s
        },
        None => String::from_str("<none>"),
    }
}

/// The message for a failed connection: the driver's error text, the TLS mode
/// in force and the state of the three certificate files.
pub fn connect_failure_message(
    error_text: &str,
    params: &ConnectionParams,
    config: &PluginConfig,
    ca_exists: bool,
    cert_exists: bool,
    key_exists: bool,
) -> (r: String)
    ensures
        r@ == "MySQL connect failed: "@ + error_text@ + " | ssl_mode="@
            + ssl_mode_name(effective_ssl_mode_spec(*params, *config)) + " | ssl_ca="@
            + file_status_text(config.ssl_ca, ca_exists) + " | ssl_cert="@
            + file_status_text(config.ssl_cert, cert_exists) + " | ssl_key="@
            + file_status_text(config.ssl_key, key_exists),
{
    let mut s = String::from_str("MySQL connect failed: ");
    s.append(error_text);
    s.append(" | ssl_mode=");
    s.append(ssl_mode_label(params, config));
    s.append(" | ssl_ca=");
    let ca = file_status(config.ssl_ca.as_ref(), ca_exists);
    s.append(ca.as_str());
    s.append(" | ssl_cert=");
    let cert = file_status(config.ssl_cert.as_ref(), cert_exists);
    s.append(cert.as_str());
    s.append(" | ssl_key=");
    let key = file_status(config.ssl_key.as_ref(), key_exists);
    s.append(key.as_str());
    s
}

/// The TLS mode asked for follows the documented precedence: the plugin
/// settings from the host, then the sidecar file, then the request's own
/// `ssl_mode`, then `required`.
pub proof fn lemma_ssl_mode_precedence(file: PluginConfig, runtime: PluginConfig, params: ConnectionParams)
    ensures
        requested_ssl_mode(params, merged(file, runtime)) == (match runtime.ssl_mode {
            Some(m) => m@,
            None => match file.ssl_mode {
                Some(m) => m@,
                None => match params.ssl_mode {
                    Some(m) => m@,
                    None => "required"@,
                },
            },
        }),
{
}

proof fn lemma_mode_names_distinct()
    ensures
        "disabled"@ != "disable"@,
        "disabled"@ != "preferred"@,
        "disabled"@ != "prefer"@,
        "disabled"@ != "required"@,
        "disabled"@ != "require"@,
        "disabled"@ != "verify_ca"@,
        "disabled"@ != "verify_identity"@,
        "disable"@ != "preferred"@,
        "disable"@ != "prefer"@,
        "disable"@ != "required"@,
        "disable"@ != "require"@,
        "disable"@ != "verify_ca"@,
        "disable"@ != "verify_identity"@,
        "preferred"@ != "prefer"@,
        "preferred"@ != "required"@,
        "preferred"@ != "require"@,
        "preferred"@ != "verify_ca"@,
        "preferred"@ != "verify_identity"@,
        "prefer"@ != "required"@,
        "prefer"@ != "require"@,
        "prefer"@ != "verify_ca"@,
        "prefer"@ != "verify_identity"@,
        "required"@ != "require"@,
        "required"@ != "verify_ca"@,
        "required"@ != "verify_identity"@,
        "require"@ != "verify_ca"@,
        "require"@ != "verify_identity"@,
        "verify_ca"@ != "verify_identity"@,
{
    reveal_strlit("disabled");
    reveal_strlit("disable");
    reveal_strlit("preferred");
    reveal_strlit("prefer");
    reveal_strlit("required");
    reveal_strlit("require");
    reveal_strlit("verify_ca");
    reveal_strlit("verify_identity");
    assert("disabled"@.len() == 8 && "disabled"@[0] == 'd');
    assert("disable"@.len() == 7 && "disable"@[0] == 'd');
    assert("preferred"@.len() == 9 && "preferred"@[0] == 'p');
    assert("prefer"@.len() == 6 && "prefer"@[0] == 'p');
    assert("required"@.len() == 8 && "required"@[0] == 'r');
    assert("require"@.len() == 7 && "require"@[0] == 'r');
    assert("verify_ca"@.len() == 9 && "verify_ca"@[0] == 'v');
    assert("verify_identity"@.len() == 15 && "verify_identity"@[0] == 'v');
}

/// Each documented mode name selects its own mode: `disabled`/`disable`
/// no TLS, `preferred`/`prefer` TLS when offered, `required`/`require` TLS
/// always; `verify_ca` and `verify_identity` their verifying modes when a CA
/// is configured, and `required` without one.
pub proof fn lemma_documented_modes(params: ConnectionParams, config: PluginConfig)
    ensures
        requested_ssl_mode(params, config) == "disabled"@ ==> effective_ssl_mode_spec(params, config) == SslMode::Disabled,
        requested_ssl_mode(params, config) == "disable"@ ==> effective_ssl_mode_spec(params, config) == SslMode::Disabled,
        requested_ssl_mode(params, config) == "preferred"@ ==> effective_ssl_mode_spec(params, config) == SslMode::Preferred,
        requested_ssl_mode(params, config) == "prefer"@ ==> effective_ssl_mode_spec(params, config) == SslMode::Preferred,
        requested_ssl_mode(params, config) == "required"@ ==> effective_ssl_mode_spec(params, config) == SslMode::Required,
        requested_ssl_mode(params, config) == "require"@ ==> effective_ssl_mode_spec(params, config) == SslMode::Required,
        requested_ssl_mode(params, config) == "verify_ca"@ ==> effective_ssl_mode_spec(params, config)
            == (if config.ssl_ca is Some { SslMode::VerifyCa } else { SslMode::Required }),
        requested_ssl_mode(params, config) == "verify_identity"@ ==> effective_ssl_mode_spec(params, config)
            == (if config.ssl_ca is Some { SslMode::VerifyIdentity } else { SslMode::Required }),
{
    lemma_mode_names_distinct();
}

/// A verifying mode (`verify_ca`, `verify_identity`, or any name the plugin
/// does not know) asked for without a configured CA falls back to `required`;
/// with a CA it stays as asked.
pub proof fn lemma_verify_without_ca_falls_back(params: ConnectionParams, config: PluginConfig)
    ensures
        ({
            let asked = ssl_mode_named(requested_ssl_mode(params, config));
            &&& (asked == SslMode::VerifyCa || asked == SslMode::VerifyIdentity) && config.ssl_ca is None
                ==> effective_ssl_mode_spec(params, config) == SslMode::Required
            &&& !((asked == SslMode::VerifyCa || asked == SslMode::VerifyIdentity) && config.ssl_ca is None)
                ==> effective_ssl_mode_spec(params, config) == asked
        }),
{
}

} // verus!
