use mysqlssl_plugin::common::{base64_len_ok, decode_blob_wire_format, encode_blob_full, BlobSource};
use mysqlssl_plugin::mysql::{
    escape_identifier, extract_order_by, group_by_table, is_raw_sql_function, is_wkt_geometry,
    plan_query_checked, remove_order_by,
};

#[test]
fn ascii_upper_casing_examples() {
    assert!(is_wkt_geometry(" point(1 2)"));
    assert!(!is_wkt_geometry("POINT (1 2)"));
    assert!(is_raw_sql_function("st_GeomFromText('POINT(1 1)')"));
    assert!(!is_raw_sql_function("ST_X"));
}

#[test]
fn order_by_examples() {
    assert_eq!(remove_order_by("SELECT * FROM t ORDER BY a DESC LIMIT 5"), "SELECT * FROM t LIMIT 5");
    assert_eq!(remove_order_by("SELECT * FROM t order by a"), "SELECT * FROM t");
    assert_eq!(remove_order_by("SELECT 1"), "SELECT 1");
    assert_eq!(extract_order_by("select * from t order by a desc limit 5"), "order by a desc");
    assert_eq!(extract_order_by("SELECT 1"), "");
}

#[test]
fn checked_planner_refuses_undefined_plans() {
    assert!(plan_query_checked("SELECT * FROM t", Some(10), 0).is_none());
    assert!(plan_query_checked("SELECT * FROM t", Some(u32::MAX), 1).is_none());
    let plan = plan_query_checked("SELECT * FROM t", Some(10), 2).unwrap();
    assert_eq!(plan.final_query, "SELECT * FROM (SELECT * FROM t) as data_wrapper LIMIT 11 OFFSET 10");
    let plain = plan_query_checked("DELETE FROM t", Some(10), 0).unwrap();
    assert_eq!(plain.final_query, "DELETE FROM t");
}

#[test]
fn escaping_undoes_and_lengthens() {
    let e = escape_identifier("a`b");
    assert_eq!(e, "a``b");
    assert_eq!(e.replace("``", "`"), "a`b");
    assert_eq!(e.len(), "a`b".len() + 1);
}

#[test]
fn standard_base64_text() {
    let t = encode_blob_full(b"Man");
    assert!(t.ends_with(":TWFu"));
    let t = encode_blob_full(b"Ma");
    assert!(t.ends_with(":TWE="));
    let t = encode_blob_full(b"M");
    assert!(t.ends_with(":TQ=="));
    let t = encode_blob_full(&[0xfb, 0xff]);
    assert!(t.ends_with(":+/8="));
}

#[test]
fn full_blob_decodes_whatever_the_limit() {
    let data = vec![1u8, 2, 3, 4, 5];
    let t = encode_blob_full(&data);
    match decode_blob_wire_format(&t, 0) {
        Some(BlobSource::Inline(b)) => assert_eq!(b, data),
        _ => panic!("round trip failed"),
    }
    assert!(decode_blob_wire_format("plain text", 10).is_none());
}

#[test]
fn base64_length_limit() {
    assert!(base64_len_ok(3));
    assert!(base64_len_ok(0));
    assert!(!base64_len_ok(usize::MAX));
}

#[test]
fn batch_groups_match_per_table_rows() {
    let rows = vec![
        ("a".to_string(), 1u32),
        ("a".to_string(), 2u32),
        ("b".to_string(), 3u32),
    ];
    let groups = group_by_table(rows.clone());
    assert_eq!(groups.len(), 2);
    for g in &groups {
        let per_table: Vec<u32> = rows.iter().filter(|r| r.0 == g.name).map(|r| r.1).collect();
        assert!(!g.items.is_empty());
        assert_eq!(g.items, per_table);
    }
}

use mysqlssl_plugin::mysql::{insert_statement, text_write_kind, update_statement, Piece, TextValuePlan, WriteKind};

fn render(pieces: &[Piece]) -> String {
    let mut out = String::new();
    for p in pieces {
        match p {
            Piece::Sql(s) => out.push_str(s),
            Piece::Bind(i) => out.push_str(&format!("?{i}")),
            Piece::ValueSql(i) => out.push_str(&format!("<{i}>")),
        }
    }
    out
}

#[test]
fn update_statement_pieces() {
    let r = update_statement("t", "c", "id", WriteKind::Bound);
    assert_eq!(render(&r), "UPDATE `t` SET `c` = ?0 WHERE `id` = ?1");
    let r = update_statement("t", "c", "id", WriteKind::Default);
    assert_eq!(render(&r), "UPDATE `t` SET `c` = DEFAULT WHERE `id` = ?1");
    let r = update_statement("t", "c", "id", WriteKind::Json);
    assert_eq!(render(&r), "UPDATE `t` SET `c` = CAST(?0 AS JSON) WHERE `id` = ?1");
    let r = update_statement("t", "c", "id", WriteKind::RawSql);
    assert_eq!(render(&r), "UPDATE `t` SET `c` = <0> WHERE `id` = ?1");
}

#[test]
fn insert_statement_pieces() {
    let cols = vec!["a".to_string(), "b".to_string(), "c".to_string(), "d".to_string()];
    let kinds = vec![WriteKind::Bound, WriteKind::Geometry, WriteKind::Null, WriteKind::RawSql];
    let r = insert_statement("t", &cols, &kinds);
    assert_eq!(render(&r), "INSERT INTO `t` (`a`, `b`, `c`, `d`) VALUES (?0ST_GeomFromText(?1), NULL<3>)");
    let kinds = vec![WriteKind::Json, WriteKind::Null, WriteKind::Bound, WriteKind::Bound];
    let r = insert_statement("t", &cols, &kinds);
    assert_eq!(render(&r), "INSERT INTO `t` (`a`, `b`, `c`, `d`) VALUES (CAST(?0 AS JSON)NULL, ?2, ?3)");
    let r = insert_statement("t", &Vec::new(), &Vec::new());
    assert_eq!(render(&r), "INSERT INTO `t` () VALUES ()");
}

#[test]
fn text_kinds() {
    assert!(text_write_kind(&TextValuePlan::UseDefault) == WriteKind::Default);
    assert!(text_write_kind(&TextValuePlan::Plain) == WriteKind::Bound);
    assert!(text_write_kind(&TextValuePlan::RawSql) == WriteKind::RawSql);
    assert!(text_write_kind(&TextValuePlan::Geometry) == WriteKind::Geometry);
}

use mysqlssl_plugin::config::{normalize_paths, resolve_path, PluginConfig};
use mysqlssl_plugin::mysql::{check_key_shape, value_write_kind, JsonShape};

#[test]
fn plain_names_are_joined_under_the_base() {
    let r = resolve_path("/opt/plugin", Some("ca.pem".into())).unwrap();
    assert!(r.ends_with("ca.pem"));
    assert!(r.len() > "ca.pem".len());
    let c = PluginConfig {
        ssl_ca: Some("ca.pem".into()),
        ssl_cert: Some("cert.pem".into()),
        ssl_key: None,
        ssl_mode: None,
        max_connections: None,
        max_blob_size: None,
    };
    let n = normalize_paths(c, "/base");
    assert!(n.ssl_ca.as_deref().unwrap().ends_with("ca.pem"));
    assert_ne!(n.ssl_ca.as_deref(), Some("ca.pem"));
    assert_ne!(n.ssl_cert.as_deref(), Some("cert.pem"));
    assert!(n.ssl_key.is_none());
}

#[test]
fn json_kinds_and_keys() {
    assert!(value_write_kind(JsonShape::Number, WriteKind::Geometry) == WriteKind::Bound);
    assert!(value_write_kind(JsonShape::Text, WriteKind::Geometry) == WriteKind::Geometry);
    assert!(value_write_kind(JsonShape::Null, WriteKind::Bound) == WriteKind::Null);
    assert!(value_write_kind(JsonShape::Structured, WriteKind::Bound) == WriteKind::Json);
    assert!(check_key_shape(JsonShape::Number).is_ok());
    assert!(check_key_shape(JsonShape::Text).is_ok());
    assert_eq!(check_key_shape(JsonShape::Bool), Err("Unsupported PK type".to_string()));
    assert_eq!(check_key_shape(JsonShape::Null), Err("Unsupported PK type".to_string()));
}
