use openapi_fdw::json::{parse_json_text, Json};
use openapi_fdw::openapi::{
    base_url_from_spec, endpoints, postgres_type, sanitize_identifier, schema_type, table_name_from_path,
    unique_identifier, validate_spec, ImportedColumn, ImportedEndpoint, NameCounts,
};
use openapi_fdw::urls::parse_url;

fn json(text: &str) -> Json {
    parse_json_text(text).unwrap()
}

#[test]
fn imports_enveloped_openapi_31_schema() {
    let spec = json(
        r##"{
            "openapi": "3.1.0",
            "info": {"title": "Example", "version": "1"},
            "servers": [{"url": "https://example.test/api"}],
            "paths": {
                "/items": {
                    "get": {
                        "operationId": "listItems",
                        "responses": {
                            "200": {"content": {"application/json": {"schema": {
                                "type": "object",
                                "properties": {
                                    "results": {"type": "array", "items": {"$ref": "#/components/schemas/Item"}}
                                }
                            }}}}
                        }
                    }
                }
            },
            "components": {"schemas": {"Item": {
                "type": "object",
                "properties": {
                    "id": {"type": "integer", "format": "int64"},
                    "displayName": {"type": ["string", "null"]}
                }
            }}}
        }"##,
    );
    let endpoints = endpoints(&spec, &vec!["GET".to_string()]).unwrap();
    assert_eq!(endpoints[0].table_name, "list_items");
    assert_eq!(endpoints[0].response_path.as_deref(), Some("/results"));
    assert_eq!(endpoints[0].columns[0].name, "id");
    assert_eq!(endpoints[0].columns[1].name, "display_name");
    assert_eq!(endpoints[0].columns[1].json_name, "displayName");
    let base = base_url_from_spec(&spec, None, false).unwrap();
    assert_eq!(base.serialization, "https://example.test/api");
}

#[test]
fn imports_geojson_properties_instead_of_collection_envelope() {
    let spec = json(
        r#"{
            "openapi": "3.0.3",
            "info": {"title": "Weather", "version": "1"},
            "paths": {"/stations": {"get": {"responses": {"200": {
                "content": {"application/geo+json": {"schema": {
                    "type": "object",
                    "properties": {"features": {"type": "array", "items": {
                        "type": "object",
                        "properties": {
                            "geometry": {"type": "object"},
                            "properties": {"type": "object", "properties": {
                                "stationIdentifier": {"type": "string"},
                                "name": {"type": "string"}
                            }}
                        }
                    }}}
                }}}
            }}}}}
        }"#,
    );
    let endpoints = endpoints(&spec, &vec!["GET".to_string()]).unwrap();
    assert_eq!(endpoints[0].response_path.as_deref(), Some("/features"));
    assert_eq!(endpoints[0].object_path.as_deref(), Some("/properties"));
    assert_eq!(endpoints[0].columns[0].name, "name");
    assert_eq!(endpoints[0].columns[1].name, "station_identifier");
}

#[test]
fn infers_object_type_when_openapi_omits_type() {
    let schema = json(r#"{"properties": {"id": {"type": "integer"}}}"#);
    assert_eq!(schema_type(&schema).as_deref(), Some("object"));
    assert_eq!(postgres_type(&schema), "jsonb");
}

#[test]
fn imports_primitive_arrays_as_native_postgres_arrays() {
    assert_eq!(
        postgres_type(&json(r#"{"type": "array", "items": {"type": "string"}}"#)),
        "text[]"
    );
    assert_eq!(
        postgres_type(&json(
            r#"{"type": "array", "items": {"type": "object", "properties": {"id": {"type": "integer"}}}}"#
        )),
        "jsonb"
    );
}

#[test]
fn generated_sql_quotes_every_identifier_and_keeps_attrs() {
    let endpoint = ImportedEndpoint {
        table_name: "order".to_string(),
        endpoint: "/odd'path".to_string(),
        method: "GET".to_string(),
        response_path: None,
        object_path: None,
        columns: vec![ImportedColumn {
            name: "display_name".to_string(),
            json_name: "displayName".to_string(),
            pg_type: "text",
        }],
    };
    let sql = endpoint.create_sql("target", "server", true);
    assert!(sql.contains("CREATE FOREIGN TABLE \"target\".\"order\""));
    assert!(sql.contains("endpoint '/odd''path'"));
    assert!(sql.contains("\"attrs\" jsonb"));
    assert!(sql.contains("column_map '{\"display_name\":\"displayName\"}'"));
}

#[test]
fn generated_identifiers_are_nonempty_unique_and_postgres_sized() {
    let mut seen = NameCounts::new();
    let first = unique_identifier(sanitize_identifier("---"), "field", &mut seen);
    let long = "x".repeat(80);
    let second = unique_identifier(long.clone(), "field", &mut seen);
    let third = unique_identifier(long, "field", &mut seen);
    assert_eq!(first, "field");
    assert_eq!(second.len(), 63);
    assert_eq!(third.len(), 63);
    assert_ne!(second, third);
}

#[test]
fn identifiers_are_cut_by_bytes_between_characters() {
    let mut seen = NameCounts::new();
    let base = format!("a{}", "\u{e9}".repeat(40));
    let first = unique_identifier(base.clone(), "field", &mut seen);
    let second = unique_identifier(base, "field", &mut seen);
    assert_eq!(first, format!("a{}", "\u{e9}".repeat(31)));
    assert_eq!(first.len(), 63);
    assert_eq!(second, format!("a{}_2", "\u{e9}".repeat(30)));
    assert_eq!(second.len(), 63);
}

#[test]
fn catch_all_name_cannot_collide_with_api_columns() {
    let endpoint = ImportedEndpoint {
        table_name: "items".to_string(),
        endpoint: "/items".to_string(),
        method: "GET".to_string(),
        response_path: None,
        object_path: None,
        columns: vec![
            ImportedColumn {
                name: "attrs".to_string(),
                json_name: "attrs".to_string(),
                pg_type: "jsonb",
            },
            ImportedColumn {
                name: "_attrs".to_string(),
                json_name: "_attrs".to_string(),
                pg_type: "jsonb",
            },
        ],
    };
    let sql = endpoint.create_sql("target", "server", true);
    assert!(sql.contains("\"_attrs_2\" jsonb"));
    assert!(sql.contains("attrs_column '_attrs_2'"));
}

#[test]
fn identifiers_are_snake_case_and_tables_follow_paths() {
    assert_eq!(sanitize_identifier("displayName"), "display_name");
    assert_eq!(sanitize_identifier("HTTPStatus"), "http_status");
    assert_eq!(sanitize_identifier("2fa"), "_2fa");
    assert_eq!(table_name_from_path("/users/{id}/posts", "GET"), "users_id_posts");
    assert_eq!(table_name_from_path("/users", "POST"), "users_post");
}

#[test]
fn documents_must_be_openapi_3() {
    assert!(validate_spec(&json(r#"{"openapi": "3.0.0", "paths": {}}"#)).is_ok());
    assert!(validate_spec(&json(r#"{"swagger": "2.0", "paths": {}}"#)).is_err());
    assert!(validate_spec(&json(r#"{"openapi": "3.0.0"}"#)).is_err());
}

#[test]
fn relative_servers_resolve_against_the_document_url() {
    let spec = json(r#"{"openapi": "3.0.0", "paths": {}, "servers": [{"url": "/v2"}]}"#);
    let origin = parse_url("https://example.test/specs/openapi.json").unwrap();
    let base = base_url_from_spec(&spec, Some(&origin), false).unwrap();
    assert_eq!(base.serialization, "https://example.test/v2");
}
