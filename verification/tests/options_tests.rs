use openapi_fdw::option_map::{Environment, OptionMap};
use openapi_fdw::server::{ServerConfig, PACKAGE_VERSION};
use openapi_fdw::table::{PaginationMode, TableConfig};

fn options(pairs: &[(&str, &str)]) -> OptionMap {
    let mut map = OptionMap::new();
    for (name, value) in pairs {
        map.insert_str(name, value);
    }
    map
}

#[test]
fn rejects_plain_http_by_default() {
    let options = options(&[("base_url", "http://example.test")]);
    assert!(ServerConfig::from_options(&options, &Environment::empty()).is_err());
}

#[test]
fn plain_http_is_accepted_when_allowed() {
    let options = options(&[("base_url", "http://example.test"), ("allow_http", "true")]);
    assert!(ServerConfig::from_options(&options, &Environment::empty()).is_ok());
}

#[test]
fn default_user_agent_tracks_the_package_version() {
    let options = options(&[("base_url", "https://example.test")]);
    let config = ServerConfig::from_options(&options, &Environment::empty()).unwrap();
    assert_eq!(
        config.headers.get("user-agent").map(String::as_str),
        Some(format!("openapi_fdw/{}", PACKAGE_VERSION).as_str())
    );
    assert_eq!(PACKAGE_VERSION, "0.4.0");
}

#[test]
fn parses_jsonb_first_table_defaults() {
    let options = options(&[("endpoint", "/items")]);
    let config = TableConfig::from_options(&options).unwrap();
    assert_eq!(config.method, "GET");
    assert_eq!(config.attrs_column, "attrs");
    assert_eq!(config.limit_param.as_deref(), Some("limit"));
    assert_eq!(config.pagination, PaginationMode::Auto);
    assert!(config.insert.is_none());
    assert!(config.update.is_none());
    assert!(config.delete.is_none());
}

#[test]
fn parses_explicit_writable_table_contract() {
    let options = options(&[
        ("endpoint", "/items"),
        ("rowid_column", "id"),
        ("rowid_parameter", "itemId"),
        ("insert_endpoint", "/items"),
        ("update_endpoint", "/items/{itemId}"),
        ("update_method", "PUT"),
        ("delete_endpoint", "/items/{itemId}"),
        ("write_columns", r#"["name","data"]"#),
    ]);
    let config = TableConfig::from_options(&options).unwrap();
    assert_eq!(config.insert.unwrap().method, "POST");
    assert_eq!(config.update.unwrap().method, "PUT");
    assert_eq!(config.delete.unwrap().method, "DELETE");
    assert_eq!(config.rowid_parameter.as_deref(), Some("itemId"));
    assert_eq!(
        config.write_columns.unwrap(),
        vec!["data".to_string(), "name".to_string()]
    );
}

#[test]
fn writable_identity_endpoints_must_bind_the_rowid() {
    let options = options(&[
        ("endpoint", "/items"),
        ("rowid_column", "id"),
        ("update_endpoint", "/items"),
    ]);
    assert!(TableConfig::from_options(&options).is_err());
}

#[test]
fn debug_output_never_contains_credentials() {
    let options = options(&[
        ("base_url", "https://example.test"),
        ("bearer_token", "extremely-secret"),
        ("headers", r#"{"x-vendor-auth":"vendor-secret"}"#),
    ]);
    let config = ServerConfig::from_options(&options, &Environment::empty()).unwrap();
    assert!(!config.debug_text().contains("extremely-secret"));
    assert!(!config.debug_text().contains("vendor-secret"));
    assert_eq!(
        config.redact("failed for Bearer extremely-secret and vendor-secret"),
        "failed for [REDACTED] and [REDACTED]"
    );
}

#[test]
fn missing_environment_secret_names_are_safe_to_report() {
    let options = options(&[
        ("base_url", "https://example.test"),
        ("bearer_token_env", "OPENAPI_FDW_TEST_DEFINITELY_MISSING"),
    ]);
    let error = ServerConfig::from_options(&options, &Environment::empty())
        .err()
        .unwrap()
        .message();
    assert!(error.contains("OPENAPI_FDW_TEST_DEFINITELY_MISSING"));
    assert!(error.contains("missing or empty"));
}

#[test]
fn document_fetches_drop_credentials_unless_asked() {
    let options = options(&[
        ("base_url", "https://example.test"),
        ("spec_url", "https://example.test/openapi.json"),
        ("bearer_token", "extremely-secret"),
    ]);
    let config = ServerConfig::from_options(&options, &Environment::empty()).unwrap();
    let fetch = config.for_spec_fetch();
    assert!(fetch.headers.get("authorization").is_none());
    assert!(fetch.headers.get("user-agent").is_some());
    assert!(fetch.secrets.is_empty());
}

#[test]
fn endpoints_must_be_relative() {
    let options = options(&[("endpoint", "https://elsewhere.test/items")]);
    assert_eq!(
        TableConfig::from_options(&options).err().unwrap().message(),
        "invalid OpenAPI FDW configuration: `endpoint` must be relative to the server `base_url`"
    );
}

#[test]
fn secrets_are_redacted_longest_in_bytes_first() {
    let options = options(&[
        ("base_url", "https://example.test"),
        ("bearer_token", "eabc"),
        ("headers", "{\"x-vendor-auth\":\"\u{e9}\u{e9}e\"}"),
    ]);
    let config = ServerConfig::from_options(&options, &Environment::empty()).unwrap();
    assert_eq!(config.redact("\u{e9}\u{e9}eabc"), "[REDACTED]abc");
}
