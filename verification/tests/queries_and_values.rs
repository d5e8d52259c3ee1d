use mysqlssl_plugin::common::BlobSource;
use mysqlssl_plugin::models::{ForeignKey, Pagination, TableColumn, TableInfo};
use mysqlssl_plugin::mysql::{
    assemble_snapshot, extract_order_by, finish_page, function_return_parameter, group_by_table,
    index_from_row, is_raw_sql_function, is_select_query, is_wkt_geometry, order_by_sliceable,
    plain_text_plan, plan_is_defined, plan_query, reached_row_limit, remove_order_by,
    table_column_from_row, text_value_plan, TextValuePlan,
};

#[test]
fn geometry_text() {
    assert!(is_wkt_geometry("POINT(1 2)"));
    assert!(is_wkt_geometry("  point(1 2)"));
    assert!(is_wkt_geometry("multipolygon(((0 0)))"));
    assert!(is_wkt_geometry("GeometryCollection(POINT(1 1))"));
    assert!(!is_wkt_geometry("POINT (1 2)"));
    assert!(!is_wkt_geometry("hello"));
    assert!(!is_wkt_geometry(""));
}

#[test]
fn spatial_function_text() {
    assert!(is_raw_sql_function("ST_GeomFromText('POINT(1 1)')"));
    assert!(is_raw_sql_function(" st_point(1, 2) "));
    assert!(!is_raw_sql_function("ST_NAME"));
    assert!(is_raw_sql_function("GeomFromText('POINT(1 1)')"));
    assert!(is_raw_sql_function("pointfromwkb(x)"));
    assert!(!is_raw_sql_function("POINT(1 1)"));
    assert!(!is_raw_sql_function("text"));
}

#[test]
fn upper_casing_follows_unicode() {
    // 'ſ' (long s) upper-cases to 'S'
    assert!(is_wkt_geometry("ſT_x") == false);
    assert!(is_raw_sql_function("ſT_f(1)"));
}

#[test]
fn text_value_plans() {
    assert!(matches!(text_value_plan("__USE_DEFAULT__", 10, true), TextValuePlan::UseDefault));
    assert!(matches!(text_value_plan("__USE_DEFAULT__", 10, false), TextValuePlan::Plain));
    match text_value_plan("BLOB:2:text/plain:aGk=", 10, true) {
        TextValuePlan::Blob(BlobSource::Inline(b)) => assert_eq!(b, b"hi".to_vec()),
        _ => panic!("expected inline blob"),
    }
    match text_value_plan("BLOB_FILE_REF:1:n:/tmp/x", 10, false) {
        TextValuePlan::Blob(BlobSource::File(p)) => assert_eq!(p, "/tmp/x"),
        _ => panic!("expected file blob"),
    }
    assert!(matches!(text_value_plan("BLOB_FILE_REF:11:n:/tmp/x", 10, false), TextValuePlan::Plain));
    assert!(matches!(text_value_plan("ST_Point(1,2)", 10, false), TextValuePlan::RawSql));
    assert!(matches!(text_value_plan("POINT(1 2)", 10, false), TextValuePlan::Geometry));
    assert!(matches!(plain_text_plan("abc"), TextValuePlan::Plain));
}

#[test]
fn order_by_is_found_and_removed() {
    let q = "SELECT * FROM t ORDER BY name DESC";
    assert_eq!(extract_order_by(q), "ORDER BY name DESC");
    assert_eq!(remove_order_by(q), "SELECT * FROM t");
    let q = "select a from t order by a limit 5";
    assert_eq!(extract_order_by(q), "order by a");
    assert_eq!(remove_order_by(q), "select a from t limit 5");
    let q = "SELECT 1";
    assert_eq!(extract_order_by(q), "");
    assert_eq!(remove_order_by(q), "SELECT 1");
    let q = "SELECT * FROM (SELECT * FROM t ORDER BY a) x ORDER BY b";
    assert_eq!(extract_order_by(q), "ORDER BY b");
    assert_eq!(remove_order_by(q), "SELECT * FROM (SELECT * FROM t ORDER BY a) x");
}

#[test]
fn order_by_after_non_ascii_text() {
    let q = "SELECT 'é' FROM t ORDER BY a";
    assert!(order_by_sliceable(q));
    assert_eq!(extract_order_by(q), "ORDER BY a");
    assert_eq!(remove_order_by(q), "SELECT 'é' FROM t");
    // 'ß' upper-cases to "SS": same byte count, so offsets still agree
    let q = "SELECT 'ß' FROM t ORDER BY a";
    assert!(order_by_sliceable(q));
    assert_eq!(extract_order_by(q), "ORDER BY a");
    // 'ı' (2 bytes) upper-cases to 'I' (1 byte): the offset found in the
    // upper-cased text is one byte early, here inside 'é'
    assert!(!order_by_sliceable("SELECT 'ı'éORDER BY a"));
    // one byte early but on a space: the cut still works
    let q = "SELECT 'ı' FROM t ORDER BY a";
    assert!(order_by_sliceable(q));
    assert_eq!(extract_order_by(q), "ORDER BY a");
    assert_eq!(remove_order_by(q), "SELECT 'ı' FROM t");
}

#[test]
fn select_detection() {
    assert!(is_select_query("SELECT 1"));
    assert!(is_select_query("  \n select * from t"));
    assert!(!is_select_query("UPDATE t SET a = 1"));
    assert!(!is_select_query("WITH x AS (SELECT 1) SELECT * FROM x"));
}

#[test]
fn paged_query_plan() {
    let plan = plan_query("SELECT * FROM t", Some(50), 3);
    assert!(plan.is_select);
    assert_eq!(plan.final_query, "SELECT * FROM (SELECT * FROM t) as data_wrapper LIMIT 51 OFFSET 100");
    let p = plan.pagination.unwrap();
    assert_eq!((p.page, p.page_size, p.total_rows, p.has_more), (3, 50, None, false));
    assert!(plan.manual_limit.is_none());

    let plan = plan_query("SELECT * FROM t ORDER BY a", Some(10), 1);
    assert_eq!(plan.final_query, "SELECT * FROM (SELECT * FROM t) as data_wrapper ORDER BY a LIMIT 11 OFFSET 0");

    let plan = plan_query("SELECT * FROM t", None, 1);
    assert_eq!(plan.final_query, "SELECT * FROM t");
    assert!(plan.pagination.is_none());

    let plan = plan_query("DELETE FROM t", Some(10), 2);
    assert!(!plan.is_select);
    assert_eq!(plan.final_query, "DELETE FROM t");
    assert!(plan.pagination.is_none());
}

#[test]
fn plans_that_would_overflow_are_refused() {
    assert!(!plan_is_defined("SELECT 1", Some(10), 0));
    assert!(!plan_is_defined("SELECT 1", Some(u32::MAX), 1));
    assert!(!plan_is_defined("SELECT 1", Some(1 << 20), 1 << 13));
    assert!(plan_is_defined("SELECT 1", None, 0));
    assert!(plan_is_defined("UPDATE t SET a = 1", Some(10), 0));
    assert!(plan_is_defined("SELECT 1", Some(10), 1));
}

#[test]
fn pages_end_with_the_extra_row() {
    let page = Some(Pagination { page: 1, page_size: 2, total_rows: None, has_more: false });
    let full = finish_page(3, false, page.clone());
    assert_eq!(full.rows_kept, 2);
    assert!(full.truncated);
    assert!(full.pagination.unwrap().has_more);
    let short = finish_page(2, false, page);
    assert_eq!(short.rows_kept, 2);
    assert!(!short.truncated);
    assert!(!short.pagination.unwrap().has_more);
    let unpaged = finish_page(7, true, None);
    assert_eq!((unpaged.rows_kept, unpaged.truncated), (7, true));
    assert!(reached_row_limit(5, Some(5)));
    assert!(!reached_row_limit(4, Some(5)));
    assert!(!reached_row_limit(400, None));
}

#[test]
fn catalogue_columns() {
    let c = table_column_from_row("id".into(), "int".into(), "PRI", "NO", "auto_increment", Some("5".into()), None);
    assert!(c.is_pk && !c.is_nullable && c.is_auto_increment);
    assert_eq!(c.default_value, None);
    let c = table_column_from_row("n".into(), "varchar".into(), "", "YES", "", Some("NULL".into()), Some(20));
    assert!(!c.is_pk && c.is_nullable && !c.is_auto_increment);
    assert_eq!(c.default_value, None);
    assert_eq!(c.character_maximum_length, Some(20));
    let c = table_column_from_row("n".into(), "varchar".into(), "MUL", "yes", "DEFAULT_GENERATED", Some("abc".into()), None);
    assert!(!c.is_nullable);
    assert_eq!(c.default_value.as_deref(), Some("abc"));
    let c = table_column_from_row("n".into(), "t".into(), "", "NO", "", Some("".into()), None);
    assert_eq!(c.default_value, None);
}

#[test]
fn catalogue_indexes_and_parameters() {
    let i = index_from_row("PRIMARY".into(), "id".into(), 0, 1);
    assert!(i.is_unique && i.is_primary);
    assert_eq!(i.seq_in_index, 1);
    let i = index_from_row("idx".into(), "a".into(), 1, (1i64 << 32) + 3);
    assert!(!i.is_unique && !i.is_primary);
    assert_eq!(i.seq_in_index, 3);
    let p = function_return_parameter("int".into(), "FUNCTION").unwrap();
    assert_eq!((p.name.as_str(), p.data_type.as_str(), p.mode.as_str(), p.ordinal_position), ("", "int", "OUT", 0));
    assert!(function_return_parameter("".into(), "FUNCTION").is_none());
    assert!(function_return_parameter("int".into(), "PROCEDURE").is_none());
}

fn fk(name: &str) -> ForeignKey {
    ForeignKey {
        name: name.into(),
        column_name: "c".into(),
        ref_table: "r".into(),
        ref_column: "i".into(),
        on_update: None,
        on_delete: None,
    }
}

fn column(name: &str) -> TableColumn {
    TableColumn {
        name: name.into(),
        data_type: "int".into(),
        is_pk: false,
        is_nullable: true,
        is_auto_increment: false,
        default_value: None,
        character_maximum_length: None,
    }
}

#[test]
fn rows_group_by_table() {
    let groups = group_by_table(vec![
        ("a".to_string(), 1),
        ("b".to_string(), 2),
        ("a".to_string(), 3),
    ]);
    assert_eq!(groups.len(), 2);
    assert_eq!(groups[0].name, "a");
    assert_eq!(groups[0].items, vec![1, 3]);
    assert_eq!(groups[1].name, "b");
    assert_eq!(groups[1].items, vec![2]);
    assert!(group_by_table(Vec::<(String, u8)>::new()).is_empty());
}

#[test]
fn snapshot_takes_each_group_once() {
    let columns = group_by_table(vec![
        ("t1".to_string(), column("a")),
        ("t2".to_string(), column("b")),
        ("t1".to_string(), column("c")),
    ]);
    let fks = group_by_table(vec![("t2".to_string(), fk("f"))]);
    let tables = vec![
        TableInfo { name: "t1".into() },
        TableInfo { name: "t2".into() },
        TableInfo { name: "t3".into() },
        TableInfo { name: "t1".into() },
    ];
    let snap = assemble_snapshot(tables, columns, fks);
    assert_eq!(snap.len(), 4);
    let names: Vec<Vec<String>> = snap.iter().map(|t| t.columns.iter().map(|c| c.name.clone()).collect()).collect();
    assert_eq!(names, vec![vec!["a".to_string(), "c".to_string()], vec!["b".to_string()], vec![], vec![]]);
    assert_eq!(snap[1].foreign_keys.len(), 1);
    assert_eq!(snap[0].foreign_keys.len(), 0);
    assert_eq!(snap[3].name, "t1");
}
