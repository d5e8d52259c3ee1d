use mysqlssl_plugin::config::{load, max_blob_size, merge_config, normalize_paths, resolve_path, resolve_with, PluginConfig};
use mysqlssl_plugin::models::{ConnectionParams, DatabaseSelection};
use mysqlssl_plugin::pool_manager::{
    build_pool_key, connect_failure_message, connection_settings, effective_ssl_mode,
    file_status, pool_max_connections, ssl_mode_label, SslMode,
};

fn config(ca: Option<&str>, mode: Option<&str>) -> PluginConfig {
    PluginConfig {
        ssl_ca: ca.map(str::to_string),
        ssl_cert: None,
        ssl_key: None,
        ssl_mode: mode.map(str::to_string),
        max_connections: None,
        max_blob_size: None,
    }
}

fn params_with_mode(mode: Option<&str>) -> ConnectionParams {
    let mut p = ConnectionParams::default();
    p.ssl_mode = mode.map(str::to_string);
    p
}

#[test]
fn runtime_settings_win_field_by_field() {
    let file = PluginConfig {
        ssl_ca: Some("/f/ca.pem".into()),
        ssl_cert: Some("/f/cert.pem".into()),
        ssl_key: None,
        ssl_mode: Some("verify_ca".into()),
        max_connections: Some(3),
        max_blob_size: Some(10),
    };
    let runtime = PluginConfig {
        ssl_ca: Some("/r/ca.pem".into()),
        ssl_cert: None,
        ssl_key: Some("/r/key.pem".into()),
        ssl_mode: None,
        max_connections: None,
        max_blob_size: Some(20),
    };
    let m = merge_config(&file, &runtime);
    assert_eq!(m.ssl_ca.as_deref(), Some("/r/ca.pem"));
    assert_eq!(m.ssl_cert.as_deref(), Some("/f/cert.pem"));
    assert_eq!(m.ssl_key.as_deref(), Some("/r/key.pem"));
    assert_eq!(m.ssl_mode.as_deref(), Some("verify_ca"));
    assert_eq!(m.max_connections, Some(3));
    assert_eq!(m.max_blob_size, Some(20));
}

#[test]
fn unreadable_runtime_settings_leave_the_file() {
    let file = config(Some("/ca"), Some("required"));
    let m = load(&file, None);
    assert_eq!(m.ssl_ca.as_deref(), Some("/ca"));
    assert_eq!(m.ssl_mode.as_deref(), Some("required"));
    let m2 = load(&file, Some(&PluginConfig::default()));
    assert_eq!(m2.ssl_ca.as_deref(), Some("/ca"));
}

#[test]
fn blob_limit_defaults() {
    assert_eq!(max_blob_size(&PluginConfig::default()), 104857600);
    let mut c = PluginConfig::default();
    c.max_blob_size = Some(7);
    assert_eq!(max_blob_size(&c), 7);
}

#[test]
fn absolute_paths_stay_and_relative_ones_join() {
    assert_eq!(resolve_path("/opt/plugin", Some("/etc/ca.pem".into())), Some("/etc/ca.pem".to_string()));
    assert_eq!(resolve_path("/opt/plugin", None), None);
    assert_eq!(resolve_with("x.pem".into(), true, "/opt/plugin/x.pem".into()), "x.pem");
    assert_eq!(resolve_with("x.pem".into(), false, "/opt/plugin/x.pem".into()), "/opt/plugin/x.pem");
    let joined = resolve_path("/opt/plugin", Some("certs/ca.pem".into())).unwrap();
    assert!(joined.starts_with("/opt/plugin"));
    assert!(joined.ends_with("ca.pem"));
    let c = PluginConfig {
        ssl_ca: Some("/abs/ca.pem".into()),
        ssl_cert: None,
        ssl_key: Some("k.pem".into()),
        ssl_mode: Some("disabled".into()),
        max_connections: Some(9),
        max_blob_size: None,
    };
    let n = normalize_paths(c, "/base");
    assert_eq!(n.ssl_ca.as_deref(), Some("/abs/ca.pem"));
    assert!(n.ssl_cert.is_none());
    assert!(n.ssl_key.is_some());
    assert_eq!(n.ssl_mode.as_deref(), Some("disabled"));
    assert_eq!(n.max_connections, Some(9));
}

#[test]
fn ssl_mode_names_and_precedence() {
    let with_ca = |m: Option<&str>| config(Some("/ca"), m);
    assert_eq!(effective_ssl_mode(&params_with_mode(None), &with_ca(None)), SslMode::Required);
    assert_eq!(effective_ssl_mode(&params_with_mode(Some("disable")), &with_ca(None)), SslMode::Disabled);
    assert_eq!(effective_ssl_mode(&params_with_mode(Some("prefer")), &with_ca(None)), SslMode::Preferred);
    assert_eq!(effective_ssl_mode(&params_with_mode(Some("verify_identity")), &with_ca(None)), SslMode::VerifyIdentity);
    assert_eq!(effective_ssl_mode(&params_with_mode(Some("bogus")), &with_ca(None)), SslMode::VerifyCa);
    assert_eq!(effective_ssl_mode(&params_with_mode(Some("disabled")), &with_ca(Some("require"))), SslMode::Required);
}

#[test]
fn verifying_without_ca_falls_back_to_required() {
    assert_eq!(effective_ssl_mode(&params_with_mode(Some("verify_ca")), &config(None, None)), SslMode::Required);
    assert_eq!(effective_ssl_mode(&params_with_mode(None), &config(None, Some("verify_identity"))), SslMode::Required);
    assert_eq!(ssl_mode_label(&params_with_mode(Some("verify_ca")), &config(None, None)), "required");
    assert_eq!(ssl_mode_label(&params_with_mode(Some("verify_ca")), &config(Some("/ca"), None)), "verify_ca");
    assert_eq!(ssl_mode_label(&params_with_mode(Some("preferred")), &config(None, None)), "preferred");
}

#[test]
fn pool_key_by_connection_id() {
    let mut p = ConnectionParams::default();
    p.connection_id = Some("conn-1".into());
    assert_eq!(build_pool_key(&p, None, &PluginConfig::default()), "conn-1");
    assert_eq!(build_pool_key(&p, Some("shop"), &PluginConfig::default()), "conn-1:shop");
}

#[test]
fn pool_key_from_settings() {
    let mut p = ConnectionParams::default();
    p.driver = "mysqlssl".into();
    p.database = DatabaseSelection::Multiple(vec!["a".into(), "b".into()]);
    assert_eq!(build_pool_key(&p, None, &PluginConfig::default()), "mysqlssl|localhost|3306|||a|verify_ca|||");
    p.host = Some("db".into());
    p.port = Some(3307);
    p.username = Some("u".into());
    p.password = Some("pw".into());
    let c = PluginConfig {
        ssl_ca: Some("/ca".into()),
        ssl_cert: Some("/cert".into()),
        ssl_key: Some("/key".into()),
        ssl_mode: Some("required".into()),
        max_connections: None,
        max_blob_size: None,
    };
    assert_eq!(build_pool_key(&p, Some("x"), &c), "mysqlssl|db|3307|u|pw|x|required|/ca|/cert|/key");
    p.ssl_mode = Some("disabled".into());
    assert_eq!(build_pool_key(&p, Some("x"), &c), "mysqlssl|db|3307|u|pw|x|disabled|/ca|/cert|/key");
}

#[test]
fn connection_defaults() {
    let p = ConnectionParams::default();
    let s = connection_settings(&p, None, &PluginConfig::default());
    assert_eq!(s.host, "localhost");
    assert_eq!(s.port, 3306);
    assert_eq!(s.username, "");
    assert_eq!(s.password, "");
    assert_eq!(s.database, "");
    assert_eq!(s.ssl_mode, SslMode::Required);
    let s2 = connection_settings(&p, Some("other"), &config(Some("/ca"), Some("verify_ca")));
    assert_eq!(s2.database, "other");
    assert_eq!(s2.ssl_mode, SslMode::VerifyCa);
    assert_eq!(s2.ssl_ca.as_deref(), Some("/ca"));
    assert_eq!(pool_max_connections(&PluginConfig::default()), 5);
}

#[test]
fn failure_message_reports_files() {
    assert_eq!(file_status(None, true), "<none>");
    let path = "/ca.pem".to_string();
    assert_eq!(file_status(Some(&path), false), "/ca.pem (exists=false)");
    let c = config(Some("/ca.pem"), None);
    assert_eq!(
        connect_failure_message("refused", &ConnectionParams::default(), &c, true, false, false),
        "MySQL connect failed: refused | ssl_mode=required | ssl_ca=/ca.pem (exists=true) | ssl_cert=<none> | ssl_key=<none>"
    );
}

#[test]
fn database_selection() {
    assert_eq!(DatabaseSelection::Single("a".into()).primary(), "a");
    assert_eq!(DatabaseSelection::Multiple(vec!["b".into(), "c".into()]).primary(), "b");
    assert_eq!(DatabaseSelection::Multiple(vec![]).primary(), "");
    assert_eq!(DatabaseSelection::Multiple(vec!["b".into(), "c".into()]).to_display_string(), "b,c");
    assert_eq!(DatabaseSelection::Single("a".into()).to_display_string(), "a");
    assert_eq!(DatabaseSelection::default().primary(), "");
}
