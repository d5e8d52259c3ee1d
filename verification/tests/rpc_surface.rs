use mysqlssl_plugin::rpc::{
    error_code, is_supported_version, missing_parameter_message, not_implemented_message,
    parse_method, RpcMethod, INVALID_REQUEST, PARSE_ERROR,
};

#[test]
fn method_names_and_aliases() {
    assert_eq!(parse_method("initialize"), Some(RpcMethod::Initialize));
    assert_eq!(parse_method("insert_row"), Some(RpcMethod::InsertRecord));
    assert_eq!(parse_method("insert_record"), Some(RpcMethod::InsertRecord));
    assert_eq!(parse_method("update_row"), Some(RpcMethod::UpdateRecord));
    assert_eq!(parse_method("delete_row"), Some(RpcMethod::DeleteRecord));
    assert_eq!(parse_method("get_all_foreign_keys_batch"), Some(RpcMethod::GetAllForeignKeysBatch));
    assert_eq!(parse_method("fetch_blob_as_data_url"), Some(RpcMethod::FetchBlobAsDataUrl));
    assert_eq!(parse_method("Ping"), None);
    assert_eq!(parse_method(""), None);
}

#[test]
fn error_codes_follow_the_message() {
    assert_eq!(error_code(&missing_parameter_message("table")), -32602);
    assert_eq!(missing_parameter_message("table"), "Missing parameter: table");
    assert_eq!(not_implemented_message("frob"), "Method 'frob' not implemented");
    assert_eq!(error_code(&not_implemented_message("frob")), -32601);
    assert_eq!(error_code("connection refused"), -32603);
    assert_eq!(PARSE_ERROR, -32700);
    assert_eq!(INVALID_REQUEST, -32600);
}

#[test]
fn only_version_two_is_served() {
    assert!(is_supported_version("2.0"));
    assert!(!is_supported_version("1.0"));
    assert!(!is_supported_version("2.0 "));
}
