//! The JSON-RPC surface: which operation a method name selects, and the
//! error codes and messages of failed requests.
use vstd::prelude::*;
use crate::text::{contains_text, find_first, lemma_find_first, occurs_at, same_text};

verus! {

/// The operations the plugin serves.
#[derive(Debug, Clone, Copy, PartialEq, Eq, Structural)]
pub enum RpcMethod {
    Initialize,
    Ping,
    TestConnection,
    GetDatabases,
    GetSchemas,
    GetTables,
    GetColumns,
    GetForeignKeys,
    GetIndexes,
    GetViews,
    GetViewDefinition,
    GetViewColumns,
    CreateView,
    AlterView,
    DropView,
    GetRoutines,
    GetRoutineParameters,
    GetRoutineDefinition,
    ExecuteQuery,
    InsertRecord,
    UpdateRecord,
    DeleteRecord,
    SaveBlobToFile,
    FetchBlobAsDataUrl,
    GetCreateTableSql,
    GetAddColumnSql,
    GetAlterColumnSql,
    GetCreateIndexSql,
    GetCreateForeignKeySql,
    DropIndex,
    DropForeignKey,
    GetSchemaSnapshot,
    GetAllColumnsBatch,
    GetAllForeignKeysBatch,
}

/// The operation a method name selects; the `_row` names are aliases of the
/// `_record` ones.
pub open spec fn method_named(name: Seq<char>) -> Option<RpcMethod> {
    if name == "initialize"@ {
        Some(RpcMethod::Initialize)
    } else if name == "ping"@ {
        Some(RpcMethod::Ping)
    } else if name == "test_connection"@ {
        Some(RpcMethod::TestConnection)
    } else if name == "get_databases"@ {
        Some(RpcMethod::GetDatabases)
    } else if name == "get_schemas"@ {
        Some(RpcMethod::GetSchemas)
    } else if name == "get_tables"@ {
        Some(RpcMethod::GetTables)
    } else if name == "get_columns"@ {
        Some(RpcMethod::GetColumns)
    } else if name == "get_foreign_keys"@ {
        Some(RpcMethod::GetForeignKeys)
    } else if name == "get_indexes"@ {
        Some(RpcMethod::GetIndexes)
    } else if name == "get_views"@ {
        Some(RpcMethod::GetViews)
    } else if name == "get_view_definition"@ {
        Some(RpcMethod::GetViewDefinition)
    } else if name == "get_view_columns"@ {
        Some(RpcMethod::GetViewColumns)
    } else if name == "create_view"@ {
        Some(RpcMethod::CreateView)
    } else if name == "alter_view"@ {
        Some(RpcMethod::AlterView)
    } else if name == "drop_view"@ {
        Some(RpcMethod::DropView)
    } else if name == "get_routines"@ {
        Some(RpcMethod::GetRoutines)
    } else if name == "get_routine_parameters"@ {
        Some(RpcMethod::GetRoutineParameters)
    } else if name == "get_routine_definition"@ {
        Some(RpcMethod::GetRoutineDefinition)
    } else if name == "execute_query"@ {
        Some(RpcMethod::ExecuteQuery)
    } else if name == "insert_record"@ || name == "insert_row"@ {
        Some(RpcMethod::InsertRecord)
    } else if name == "update_record"@ || name == "update_row"@ {
        Some(RpcMethod::UpdateRecord)
    } else if name == "delete_record"@ || name == "delete_row"@ {
        Some(RpcMethod::DeleteRecord)
    } else if name == "save_blob_to_file"@ {
        Some(RpcMethod::SaveBlobToFile)
    } else if name == "fetch_blob_as_data_url"@ {
        Some(RpcMethod::FetchBlobAsDataUrl)
    } else if name == "get_create_table_sql"@ {
        Some(RpcMethod::GetCreateTableSql)
    } else if name == "get_add_column_sql"@ {
        Some(RpcMethod::GetAddColumnSql)
    } else if name == "get_alter_column_sql"@ {
        Some(RpcMethod::GetAlterColumnSql)
    } else if name == "get_create_index_sql"@ {
        Some(RpcMethod::GetCreateIndexSql)
    } else if name == "get_create_foreign_key_sql"@ {
        Some(RpcMethod::GetCreateForeignKeySql)
    } else if name == "drop_index"@ {
        Some(RpcMethod::DropIndex)
    } else if name == "drop_foreign_key"@ {
        Some(RpcMethod::DropForeignKey)
    } else if name == "get_schema_snapshot"@ {
        Some(RpcMethod::GetSchemaSnapshot)
    } else if name == "get_all_columns_batch"@ {
        Some(RpcMethod::GetAllColumnsBatch)
    } else if name == "get_all_foreign_keys_batch"@ {
        Some(RpcMethod::GetAllForeignKeysBatch)
    } else {
        None
    }
}

/// The operation `name` selects, if any.
pub fn parse_method(name: &str) -> (r: Option<RpcMethod>)
    ensures
        r == method_named(name@),
{
    if same_text(name, "initialize") {
        Some(RpcMethod::Initialize)
    } else if same_text(name, "ping") {
        Some(RpcMethod::Ping)
    } else if same_text(name, "test_connection") {
        Some(RpcMethod::TestConnection)
    } else if same_text(name, "get_databases") {
        Some(RpcMethod::GetDatabases)
    } else if same_text(name, "get_schemas") {
        Some(RpcMethod::GetSchemas)
    } else if same_text(name, "get_tables") {
        Some(RpcMethod::GetTables)
    } else if same_text(name, "get_columns") {
        Some(RpcMethod::GetColumns)
    } else if same_text(name, "get_foreign_keys") {
        Some(RpcMethod::GetForeignKeys)
    } else if same_text(name, "get_indexes") {
        Some(RpcMethod::GetIndexes)
    } else if same_text(name, "get_views") {
        Some(RpcMethod::GetViews)
    } else if same_text(name, "get_view_definition") {
        Some(RpcMethod::GetViewDefinition)
    } else if same_text(name, "get_view_columns") {
        Some(RpcMethod::GetViewColumns)
    } else if same_text(name, "create_view") {
        Some(RpcMethod::CreateView)
    } else if same_text(name, "alter_view") {
        Some(RpcMethod::AlterView)
    } else if same_text(name, "drop_view") {
        Some(RpcMethod::DropView)
    } else if same_text(name, "get_routines") {
        Some(RpcMethod::GetRoutines)
    } else if same_text(name, "get_routine_parameters") {
        Some(RpcMethod::GetRoutineParameters)
    } else if same_text(name, "get_routine_definition") {
        Some(RpcMethod::GetRoutineDefinition)
    } else if same_text(name, "execute_query") {
        Some(RpcMethod::ExecuteQuery)
    } else if same_text(name, "insert_record") || same_text(name, "insert_row") {
        Some(RpcMethod::InsertRecord)
    } else if same_text(name, "update_record") || same_text(name, "update_row") {
        Some(RpcMethod::UpdateRecord)
    } else if same_text(name, "delete_record") || same_text(name, "delete_row") {
        Some(RpcMethod::DeleteRecord)
    } else if same_text(name, "save_blob_to_file") {
        Some(RpcMethod::SaveBlobToFile)
    } else if same_text(name, "fetch_blob_as_data_url") {
        Some(RpcMethod::FetchBlobAsDataUrl)
    } else if same_text(name, "get_create_table_sql") {
        Some(RpcMethod::GetCreateTableSql)
    } else if same_text(name, "get_add_column_sql") {
        Some(RpcMethod::GetAddColumnSql)
    } else if same_text(name, "get_alter_column_sql") {
        Some(RpcMethod::GetAlterColumnSql)
    } else if same_text(name, "get_create_index_sql") {
        Some(RpcMethod::GetCreateIndexSql)
    } else if same_text(name, "get_create_foreign_key_sql") {
        Some(RpcMethod::GetCreateForeignKeySql)
    } else if same_text(name, "drop_index") {
        Some(RpcMethod::DropIndex)
    } else if same_text(name, "drop_foreign_key") {
        Some(RpcMethod::DropForeignKey)
    } else if same_text(name, "get_schema_snapshot") {
        Some(RpcMethod::GetSchemaSnapshot)
    } else if same_text(name, "get_all_columns_batch") {
        Some(RpcMethod::GetAllColumnsBatch)
    } else if same_text(name, "get_all_foreign_keys_batch") {
        Some(RpcMethod::GetAllForeignKeysBatch)
    } else {
        None
    }
}

/// The JSON-RPC error code for a failed request, chosen by its message:
/// invalid params for a missing parameter, method not found for an
/// unimplemented method, internal error otherwise.
pub open spec fn error_code_for(message: Seq<char>) -> i32 {
    if find_first(message, "Missing parameter"@) is Some {
        -32602i32
    } else if find_first(message, "not implemented"@) is Some {
        -32601i32
    } else {
        -32603i32
    }
}

/// The JSON-RPC error code for a failed request with `message`.
pub fn error_code(message: &str) -> (r: i32)
    ensures
        r == error_code_for(message@),
{
    if contains_text(message, "Missing parameter") {
        -32602i32
    } else if contains_text(message, "not implemented") {
        -32601i32
    } else {
        -32603i32
    }
}

/// The message for a request that lacks parameter `key`.
pub fn missing_parameter_message(key: &str) -> (r: String)
    ensures
        r@ == "Missing parameter: "@ + key@,
{
    let mut m = String::from_str("Missing parameter: ");
    m.append(key);
    m
}

/// The message for a request naming an unknown method.
pub fn not_implemented_message(method: &str) -> (r: String)
    ensures
        r@ == "Method '"@ + method@ + "' not implemented"@,
{
    let mut m = String::from_str("Method '");
    m.append(method);
    m.append("' not implemented");
    m
}

/// The code of a request whose JSON does not parse.
pub const PARSE_ERROR: i32 = -32700;

/// The code of a request whose `jsonrpc` field is not `2.0`.
pub const INVALID_REQUEST: i32 = -32600;

/// Whether a request's `jsonrpc` field names the supported version.
pub fn is_supported_version(version: &str) -> (b: bool)
    ensures
        b == (version@ == "2.0"@),
{
    same_text(version, "2.0")
}

/// A request that lacks a parameter is answered with "invalid params"; one
/// that names an unknown method with "method not found", unless the method
/// name itself holds the words of the first message.
pub proof fn lemma_error_codes(key: Seq<char>, method: Seq<char>)
    requires
        find_first(method, "Missing parameter"@) is None,
    ensures
        error_code_for("Missing parameter: "@ + key) == -32602,
        error_code_for("Method '"@ + method + "' not implemented"@) == -32601,
{
    reveal_strlit("Missing parameter: ");
    reveal_strlit("Missing parameter");
    reveal_strlit("Method '");
    reveal_strlit("' not implemented");
    reveal_strlit("not implemented");
    let p = "Missing parameter"@;
    let m1 = "Missing parameter: "@ + key;
    lemma_find_first(m1, p);
    assert(m1.subrange(0, 17) =~= p);
    assert(occurs_at(m1, p, 0));

    let m2 = "Method '"@ + method + "' not implemented"@;
    let q = "not implemented"@;
    lemma_find_first(m2, p);
    lemma_find_first(method, p);
    lemma_find_first(m2, q);
    let n: int = method.len() as int;
    assert(m2.len() == n + 25);
    assert(m2.subrange(n + 10, n + 25) =~= q);
    assert(occurs_at(m2, q, n + 10));
    assert forall|k: int| !occurs_at(m2, p, k) by {
        if occurs_at(m2, p, k) {
            let w = m2.subrange(k, k + 17);
            if k < 8 {
                assert(w[0] == p[0]);
                assert(w[1] == p[1]);
                assert(m2[k] == w[0]);
                assert(m2[k + 1] == w[1]);
            } else if k + 17 <= 8 + n {
                assert(method.subrange(k - 8, k + 9) =~= w);
                assert(occurs_at(method, p, k - 8));
            } else {
                // the occurrence covers the quote after the method name
                let j = 8 + n - k;
                assert(0 <= j < 17);
                assert(w[j] == m2[8 + n]);
                assert(m2[8 + n] == '\'');
                assert(p[j] != '\'');
            }
        }
    }
}

} // verus!
