use mysqlssl_plugin::models::ColumnDefinition;
use mysqlssl_plugin::mysql::{
    alter_view_sql, create_view_sql, delete_record_sql, drop_foreign_key_sql, drop_index_sql,
    drop_view_sql, escape_identifier, get_add_column_sql, get_alter_column_sql,
    get_create_foreign_key_sql, get_create_index_sql, get_create_table_sql, insert_prefix_sql,
    select_column_sql, show_create_routine_sql, show_create_view_sql, update_condition_sql,
    update_prefix_sql,
};

fn col(name: &str, ty: &str, nullable: bool, pk: bool, auto: bool, default: Option<&str>) -> ColumnDefinition {
    ColumnDefinition {
        name: name.into(),
        data_type: ty.into(),
        is_nullable: nullable,
        is_pk: pk,
        is_auto_increment: auto,
        default_value: default.map(str::to_string),
    }
}

#[test]
fn identifiers_double_backticks() {
    assert_eq!(escape_identifier("plain"), "plain");
    assert_eq!(escape_identifier("we`ird"), "we``ird");
    assert_eq!(escape_identifier("``"), "````");
    assert_eq!(escape_identifier(""), "");
}

#[test]
fn create_table_with_primary_key() {
    let sql = get_create_table_sql(
        "users",
        vec![
            col("id", "INT", false, true, true, None),
            col("name", "VARCHAR(50)", true, false, false, Some("'x'")),
        ],
    )
    .unwrap();
    assert_eq!(
        sql,
        vec!["CREATE TABLE `users` (\n  `id` INT NOT NULL AUTO_INCREMENT,\n  `name` VARCHAR(50) DEFAULT 'x',\n  PRIMARY KEY (`id`)\n)".to_string()]
    );
}

#[test]
fn create_table_with_compound_key_and_without_key() {
    let sql = get_create_table_sql("t`1", vec![col("a", "INT", false, true, false, None), col("b", "INT", false, true, false, None)]).unwrap();
    assert_eq!(sql[0], "CREATE TABLE `t``1` (\n  `a` INT NOT NULL,\n  `b` INT NOT NULL,\n  PRIMARY KEY (`a`, `b`)\n)");
    let sql = get_create_table_sql("t", vec![col("a", "TEXT", true, false, false, None)]).unwrap();
    assert_eq!(sql[0], "CREATE TABLE `t` (\n  `a` TEXT\n)");
    let sql = get_create_table_sql("t", vec![]).unwrap();
    assert_eq!(sql[0], "CREATE TABLE `t` (\n  \n)");
}

#[test]
fn add_column() {
    let sql = get_add_column_sql("t", col("c", "INT", false, true, true, Some("0"))).unwrap();
    assert_eq!(sql, vec!["ALTER TABLE `t` ADD COLUMN `c` INT NOT NULL AUTO_INCREMENT DEFAULT 0 PRIMARY KEY".to_string()]);
    let sql = get_add_column_sql("t", col("c", "INT", true, false, false, None)).unwrap();
    assert_eq!(sql[0], "ALTER TABLE `t` ADD COLUMN `c` INT NULL");
}

#[test]
fn alter_column_renames_or_modifies() {
    let sql = get_alter_column_sql("t", col("a", "INT", true, false, false, None), col("b", "BIGINT", false, false, true, None)).unwrap();
    assert_eq!(sql[0], "ALTER TABLE `t` CHANGE `a` `b` BIGINT NOT NULL AUTO_INCREMENT");
    let sql = get_alter_column_sql("t", col("a", "INT", true, false, false, None), col("a", "TEXT", true, false, false, Some("'d'"))).unwrap();
    assert_eq!(sql[0], "ALTER TABLE `t` MODIFY COLUMN `a` TEXT NULL DEFAULT 'd'");
}

#[test]
fn create_index() {
    let sql = get_create_index_sql("t", "idx", vec!["a".into(), "b`".into()], true).unwrap();
    assert_eq!(sql, vec!["CREATE UNIQUE INDEX `idx` ON `t` (`a`, `b```)".to_string()]);
    let sql = get_create_index_sql("t", "idx", vec![], false).unwrap();
    assert_eq!(sql[0], "CREATE INDEX `idx` ON `t` ()");
}

#[test]
fn create_foreign_key() {
    let sql = get_create_foreign_key_sql("orders", "fk_user", "user_id", "users", "id", Some("CASCADE"), Some("SET NULL")).unwrap();
    assert_eq!(
        sql[0],
        "ALTER TABLE `orders` ADD CONSTRAINT `fk_user` FOREIGN KEY (`user_id`) REFERENCES `users` (`id`) ON DELETE CASCADE ON UPDATE SET NULL"
    );
    let sql = get_create_foreign_key_sql("o", "f", "c", "r", "i", None, None).unwrap();
    assert_eq!(sql[0], "ALTER TABLE `o` ADD CONSTRAINT `f` FOREIGN KEY (`c`) REFERENCES `r` (`i`)");
}

#[test]
fn view_and_routine_statements() {
    assert_eq!(show_create_view_sql("v`"), "SHOW CREATE VIEW `v```");
    assert_eq!(create_view_sql("v", "SELECT 1"), "CREATE VIEW `v` AS SELECT 1");
    assert_eq!(alter_view_sql("v", "SELECT 2"), "ALTER VIEW `v` AS SELECT 2");
    assert_eq!(drop_view_sql("v"), "DROP VIEW IF EXISTS `v`");
    assert_eq!(show_create_routine_sql("p", "PROCEDURE"), "SHOW CREATE PROCEDURE `p`");
    assert_eq!(drop_index_sql("t", "i"), "DROP INDEX `i` ON `t`");
    assert_eq!(drop_foreign_key_sql("t", "f"), "ALTER TABLE `t` DROP FOREIGN KEY `f`");
}

#[test]
fn row_statements() {
    assert_eq!(select_column_sql("t", "c", "id"), "SELECT `c` FROM `t` WHERE `id` = ?");
    assert_eq!(delete_record_sql("t", "id"), "DELETE FROM `t` WHERE `id` = ?");
    assert_eq!(update_prefix_sql("t", "c"), "UPDATE `t` SET `c` = ");
    assert_eq!(update_condition_sql("id"), " WHERE `id` = ");
    assert_eq!(insert_prefix_sql("t", &vec![]), "INSERT INTO `t` () VALUES ()");
    assert_eq!(insert_prefix_sql("t", &vec!["a".into(), "b".into()]), "INSERT INTO `t` (`a`, `b`) VALUES (");
}
