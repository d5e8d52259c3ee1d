//! The data that the plugin exchanges with its host.
use vstd::prelude::*;
use crate::text::{join, join_strings, views};

verus! {

/// The database (or databases) a connection works on.
#[derive(Debug, Clone)]
pub enum DatabaseSelection {
    Single(String),
    Multiple(Vec<String>),
}

impl Default for DatabaseSelection {
    fn default() -> (r: Self)
        ensures
            r matches DatabaseSelection::Single(s) && s@.len() == 0,
    {
        DatabaseSelection::Single(String::new())
    }
}

impl DatabaseSelection {
    /// The database that a connection opens: the single one, or the first of several.
    pub open spec fn primary_spec(&self) -> Seq<char> {
        match self {
            DatabaseSelection::Single(value) => value@,
            DatabaseSelection::Multiple(values) => if values@.len() > 0 {
                values@[0]@
            } else {
                Seq::<char>::empty()
            },
        }
    }

    /// The database that a connection opens: the single one, or the first of
    /// several (empty when there are none).
    pub fn primary(&self) -> (r: &str)
        ensures
            r@ == self.primary_spec(),
    {
        match self {
            DatabaseSelection::Single(value) => value.as_str(),
            DatabaseSelection::Multiple(values) => {
                if values.len() > 0 {
                    values[0].as_str()
                } else {
                    proof { reveal_strlit(""); }
                    ""
                }
            },
        }
    }

    /// The selection as text: the single name, or the names joined by `','`.
    pub open spec fn display_spec(&self) -> Seq<char> {
        match self {
            DatabaseSelection::Single(value) => value@,
            DatabaseSelection::Multiple(values) => join(views(values@), seq![',']),
        }
    }

    /// The selection as text (what `Display` writes): the single name, or the
    /// names joined by `','`.
    pub fn to_display_string(&self) -> (r: String)
        ensures
            r@ == self.display_spec(),
    {
        match self {
            DatabaseSelection::Single(value) => value.clone(),
            DatabaseSelection::Multiple(values) => {
                proof { reveal_strlit(","); }
                let r = join_strings(values, ",");
                assert(","@ =~= seq![',']);
                r
            },
        }
    }
}

/// How to reach and authenticate to a server, as the host sends it.
#[derive(Debug, Clone)]
pub struct ConnectionParams {
    pub driver: String,
    pub host: Option<String>,
    pub port: Option<u16>,
    pub username: Option<String>,
    pub password: Option<String>,
    pub database: DatabaseSelection,
    pub ssl_mode: Option<String>,
    pub ssh_enabled: Option<bool>,
    pub ssh_connection_id: Option<String>,
    pub ssh_host: Option<String>,
    pub ssh_port: Option<u16>,
    pub ssh_user: Option<String>,
    pub ssh_password: Option<String>,
    pub ssh_key_file: Option<String>,
    pub ssh_key_passphrase: Option<String>,
    pub save_in_keychain: Option<bool>,
    pub connection_id: Option<String>,
}

impl Default for ConnectionParams {
    fn default() -> (r: Self)
        ensures
            r.driver@.len() == 0,
            r.host is None && r.port is None && r.username is None && r.password is None,
            r.database matches DatabaseSelection::Single(s) && s@.len() == 0,
            r.ssl_mode is None && r.ssh_enabled is None && r.ssh_connection_id is None,
            r.ssh_host is None && r.ssh_port is None && r.ssh_user is None,
            r.ssh_password is None && r.ssh_key_file is None && r.ssh_key_passphrase is None,
            r.save_in_keychain is None && r.connection_id is None,
    {
        ConnectionParams {
            driver: String::new(),
            host: None,
            port: None,
            username: None,
            password: None,
            database: DatabaseSelection::default(),
            ssl_mode: None,
            ssh_enabled: None,
            ssh_connection_id: None,
            ssh_host: None,
            ssh_port: None,
            ssh_user: None,
            ssh_password: None,
            ssh_key_file: None,
            ssh_key_passphrase: None,
            save_in_keychain: None,
            connection_id: None,
        }
    }
}

/// A table of a schema.
#[derive(Debug, Clone)]
pub struct TableInfo {
    pub name: String,
}

/// A column of a table or view.
#[derive(Debug, Clone)]
pub struct TableColumn {
    pub name: String,
    pub data_type: String,
    pub is_pk: bool,
    pub is_nullable: bool,
    pub is_auto_increment: bool,
    pub default_value: Option<String>,
    pub character_maximum_length: Option<u64>,
}

/// A foreign key column of a table.
#[derive(Debug, Clone)]
pub struct ForeignKey {
    pub name: String,
    pub column_name: String,
    pub ref_table: String,
    pub ref_column: String,
    pub on_update: Option<String>,
    pub on_delete: Option<String>,
}

/// One column of an index.
#[derive(Debug, Clone)]
pub struct Index {
    pub name: String,
    pub column_name: String,
    pub is_unique: bool,
    pub is_primary: bool,
    pub seq_in_index: i32,
}

/// A view of a schema.
#[derive(Debug, Clone)]
pub struct ViewInfo {
    pub name: String,
    pub definition: Option<String>,
}

/// A stored procedure or function.
#[derive(Debug, Clone)]
pub struct RoutineInfo {
    pub name: String,
    pub routine_type: String,
    pub definition: Option<String>,
}

/// A parameter (or the return value) of a routine.
#[derive(Debug, Clone)]
pub struct RoutineParameter {
    pub name: String,
    pub data_type: String,
    pub mode: String,
    pub ordinal_position: i32,
}

/// The page of a query result that was returned.
#[derive(Debug, Clone)]
pub struct Pagination {
    pub page: u32,
    pub page_size: u32,
    pub total_rows: Option<u64>,
    pub has_more: bool,
}

/// A column to create or alter.
#[derive(Debug, Clone)]
pub struct ColumnDefinition {
    pub name: String,
    pub data_type: String,
    pub is_nullable: bool,
    pub is_pk: bool,
    pub is_auto_increment: bool,
    pub default_value: Option<String>,
}

/// A table with its columns and foreign keys.
#[derive(Debug, Clone)]
pub struct TableSchema {
    pub name: String,
    pub columns: Vec<TableColumn>,
    pub foreign_keys: Vec<ForeignKey>,
}

} // verus!
