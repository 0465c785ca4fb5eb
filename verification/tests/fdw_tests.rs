use openapi_fdw::fdw::{
    column_value, get_rel_size, import_bool, import_methods, import_statements, json_query_values,
    json_to_cell, parse_i64, pg_type, plan_scan, project_row, qual_value, set_query_value, settle_cell,
    PgParse,
    substitute_path_parameters, validate_options, validator_options, Cell, Column, ImportSelection,
    OptionCatalog, PgType, Qual, QualCell, RowStep, ScanState,
};
use openapi_fdw::json::{parse_json_text, Json};
use openapi_fdw::openapi::{ImportedColumn, ImportedEndpoint};
use openapi_fdw::option_map::{Environment, OptionMap};
use openapi_fdw::response::{Page, PageToken};
use openapi_fdw::server::ServerConfig;
use openapi_fdw::table::{TableConfig, TypeErrorMode};
use openapi_fdw::urls::parse_url;

fn string_qual(field: &str, value: &str) -> Qual {
    Qual {
        field: field.to_string(),
        operator: "=".to_string(),
        value: QualCell::Text(value.to_string()),
        use_or: false,
    }
}

fn json(text: &str) -> Json {
    parse_json_text(text).unwrap()
}

fn table(extra: &[(&str, &str)]) -> TableConfig {
    let mut options = OptionMap::new();
    options.insert_str("endpoint", "/items");
    for (name, value) in extra {
        options.insert_str(name, value);
    }
    TableConfig::from_options(&options).unwrap()
}

fn server(extra: &[(&str, &str)]) -> ServerConfig {
    let mut options = OptionMap::new();
    options.insert_str("base_url", "https://example.test");
    for (name, value) in extra {
        options.insert_str(name, value);
    }
    ServerConfig::from_options(&options, &Environment::empty()).unwrap()
}

#[test]
fn substitutes_and_encodes_path_parameters() {
    let substitution = substitute_path_parameters(
        "/pokemon/{pokemon_name}",
        &vec![string_qual("pokemon_name", "mr. mime")],
    )
    .unwrap();
    assert_eq!(substitution.endpoint, "/pokemon/mr%2E%20mime");
    assert!(substitution.uses("pokemon_name"));
    assert_eq!(substitution.injected_value("pokemon_name").unwrap(), "mr. mime");
}

#[test]
fn path_parameters_are_required() {
    assert!(substitute_path_parameters("/items/{id}", &Vec::new()).is_err());
}

#[test]
fn path_parameter_errors_name_the_missing_column() {
    assert_eq!(
        substitute_path_parameters("/items/{itemId}", &Vec::new())
            .err()
            .unwrap()
            .message(),
        "invalid OpenAPI FDW configuration: endpoint path parameter `itemId` requires `WHERE item_id = <value>`"
    );
    assert_eq!(
        substitute_path_parameters("/items/{id", &Vec::new()).err().unwrap().message(),
        "invalid OpenAPI FDW configuration: endpoint has an unmatched `{`"
    );
    let quals = vec![Qual {
        field: "ID".to_string(),
        operator: "=".to_string(),
        value: QualCell::Int(-42),
        use_or: false,
    }];
    assert_eq!(substitute_path_parameters("/items/{id}", &quals).unwrap().endpoint, "/items/%2D42");
}

#[test]
fn static_json_array_becomes_repeated_query_parameter() {
    assert_eq!(
        json_query_values("tag", &json(r#"["one", "two"]"#)),
        vec![
            ("tag".to_string(), "one".to_string()),
            ("tag".to_string(), "two".to_string())
        ]
    );
}

#[test]
fn query_values_and_replacement() {
    assert_eq!(
        json_query_values("f", &json(r#"{"a":1}"#)),
        vec![("f".to_string(), r#"{"a":1}"#.to_string())]
    );
    assert_eq!(json_query_values("n", &json("3")), vec![("n".to_string(), "3".to_string())]);
    let mut query = vec![
        ("a".to_string(), "1".to_string()),
        ("b".to_string(), "2".to_string()),
        ("a".to_string(), "3".to_string()),
    ];
    set_query_value(&mut query, "a".to_string(), "9".to_string());
    assert_eq!(
        query,
        vec![("b".to_string(), "2".to_string()), ("a".to_string(), "9".to_string())]
    );
}

#[test]
fn qualifier_values() {
    let mut q = string_qual("d", "x");
    q.value = QualCell::Quoted("'2024-01-02'".to_string());
    assert_eq!(qual_value(&q).unwrap(), "2024-01-02");
    q.value = QualCell::Bool(false);
    assert_eq!(qual_value(&q).unwrap(), "false");
    q.operator = ">".to_string();
    assert!(qual_value(&q).is_none());
}

#[test]
fn scan_plan_sets_limits_and_qualifier_parameters() {
    let t = table(&[("query_params", r#"{"kind":["a","b"]}"#), ("page_size", "50")]);
    let base = parse_url("https://example.test/api").unwrap();
    let plan = plan_scan(&t, &base, &Vec::new(), true, Some((10, 5))).unwrap().unwrap();
    assert_eq!(plan.url.serialization, "https://example.test/api/items");
    assert_eq!(plan.maximum_rows, Some(15));
    assert_eq!(
        plan.query,
        vec![
            ("kind".to_string(), "a".to_string()),
            ("kind".to_string(), "b".to_string()),
            ("limit".to_string(), "15".to_string())
        ]
    );
    let filtered = plan_scan(&t, &base, &vec![string_qual("status", "open")], true, Some((10, 5)))
        .unwrap()
        .unwrap();
    assert_eq!(filtered.maximum_rows, None);
    assert_eq!(
        filtered.query,
        vec![
            ("kind".to_string(), "a".to_string()),
            ("kind".to_string(), "b".to_string()),
            ("status".to_string(), "open".to_string()),
            ("limit".to_string(), "50".to_string())
        ]
    );
    assert_eq!(get_rel_size(true, true, Some((10, 5)), 3), (15, 192));
    let lookup = table(&[("endpoint", "/items/{id}")]);
    assert!(plan_scan(&lookup, &base, &Vec::new(), true, None).unwrap().is_none());
    let bound = plan_scan(&lookup, &base, &vec![string_qual("id", "7")], true, None)
        .unwrap()
        .unwrap();
    assert_eq!(bound.url.serialization, "https://example.test/api/items/7");
    assert!(bound.query.iter().all(|(name, _)| name != "id"));
    let mut broken = table(&[]);
    broken.endpoint = "/items/{id".to_string();
    assert!(plan_scan(&broken, &base, &Vec::new(), true, None).is_err());
    assert_eq!(get_rel_size(false, true, Some((10, 5)), 0), (1000, 64));
}

#[test]
fn paging_follows_tokens_once_and_respects_max_pages() {
    let t = table(&[("max_pages", "2")]);
    let config = server(&[]);
    let base = parse_url("https://example.test").unwrap();
    let first = parse_url("https://example.test/items").unwrap();
    let mut state = ScanState::new(None);
    let (u, q) = state.page_request(&t, &config, &base, &first, &Vec::new()).unwrap();
    assert_eq!(u.serialization, "https://example.test/items");
    assert!(q.is_empty());
    let page = Page { rows: vec![json("1"), json("2")], next: Some(PageToken::Cursor("c1".to_string())) };
    state.accept_page(first.duplicate(), page).unwrap();
    assert!(matches!(state.next_row(), RowStep::Row(_)));
    assert!(matches!(state.next_row(), RowStep::Row(_)));
    assert!(matches!(state.next_row(), RowStep::FetchNextPage));
    let (u, q) = state.page_request(&t, &config, &base, &first, &Vec::new()).unwrap();
    assert_eq!(u.serialization, "https://example.test/items");
    assert_eq!(q, vec![("cursor".to_string(), "c1".to_string())]);
    let repeat = Page { rows: vec![json("3")], next: Some(PageToken::Cursor("c1".to_string())) };
    assert_eq!(
        state.accept_page(first.duplicate(), repeat).unwrap_err().message(),
        "OpenAPI FDW received an invalid response: pagination returned a duplicate cursor or URL"
    );
    assert_eq!(
        state.page_request(&t, &config, &base, &first, &Vec::new()).unwrap_err().message(),
        "OpenAPI FDW received an invalid response: pagination exceeded max_pages 2"
    );
}

#[test]
fn cursor_tokens_set_the_cursor_parameter_and_rows_stop_at_the_bound() {
    let t = table(&[("cursor_param", "after")]);
    let config = server(&[]);
    let base = parse_url("https://example.test").unwrap();
    let first = parse_url("https://example.test/items").unwrap();
    let mut state = ScanState::new(Some(1));
    state.page_request(&t, &config, &base, &first, &Vec::new()).unwrap();
    let page = Page { rows: vec![json("1"), json("2")], next: Some(PageToken::Cursor("c1".to_string())) };
    state.accept_page(first.duplicate(), page).unwrap();
    let (_, q) = state
        .page_request(&t, &config, &base, &first, &vec![("after".to_string(), "old".to_string())])
        .unwrap();
    assert_eq!(q, vec![("after".to_string(), "c1".to_string())]);
    assert!(matches!(state.next_row(), RowStep::Row(_)));
    assert!(matches!(state.next_row(), RowStep::Done));
    state.rescan();
    assert!(matches!(state.next_row(), RowStep::Row(_)));
}

#[test]
fn rows_are_projected_and_converted() {
    let t = table(&[("column_map", r#"{"label":"/meta/name"}"#)]);
    let source = json(r#"{"id":"12","displayName":"Ada","meta":{"name":"x"},"flag":"t","uid":"67e55044-10b1-426f-9247-bb680e5fe0c8"}"#);
    let columns = vec![
        Column { name: "id".to_string(), type_oid: 23 },
        Column { name: "display_name".to_string(), type_oid: 25 },
        Column { name: "label".to_string(), type_oid: 25 },
        Column { name: "flag".to_string(), type_oid: 16 },
        Column { name: "uid".to_string(), type_oid: 2950 },
        Column { name: "missing".to_string(), type_oid: 25 },
        Column { name: "attrs".to_string(), type_oid: 3802 },
    ];
    let path = substitute_path_parameters("/items", &Vec::new()).unwrap();
    let cells = project_row(&source, &t, &columns, &path).unwrap();
    assert!(matches!(cells[0], Some(Cell::I32(12))));
    assert!(matches!(&cells[1], Some(Cell::String(s)) if s == "Ada"));
    assert!(matches!(&cells[2], Some(Cell::String(s)) if s == "x"));
    assert!(matches!(cells[3], Some(Cell::Bool(true))));
    assert!(matches!(&cells[4], Some(Cell::Uuid(b)) if b.len() == 16 && b[0] == 0x67));
    assert!(cells[5].is_none());
    assert!(matches!(cells[6], Some(Cell::Json(_))));
}

#[test]
fn conversion_errors_and_the_null_mode() {
    let column = Column { name: "n".to_string(), type_oid: 21 };
    assert_eq!(
        json_to_cell(&json("70000"), &column).err().unwrap().message(),
        "cannot convert JSON value for column `n` to smallint: value is outside int16 range"
    );
    let strict = table(&[]);
    let lenient = table(&[("on_type_error", "null")]);
    let path = substitute_path_parameters("/items", &Vec::new()).unwrap();
    let source = json(r#"{"n":70000}"#);
    assert!(project_row(&source, &strict, &vec![Column { name: "n".to_string(), type_oid: 21 }], &path).is_err());
    let cells = project_row(&source, &lenient, &vec![Column { name: "n".to_string(), type_oid: 21 }], &path).unwrap();
    assert!(cells[0].is_none());
    let array = Column { name: "xs".to_string(), type_oid: 1007 };
    assert!(matches!(json_to_cell(&json("[1,null,3]"), &array), Ok(Cell::IntArray { bits: 32, .. })));
    assert_eq!(
        json_to_cell(&json(r#"[1,"x"]"#), &array).err().unwrap().message(),
        "cannot convert JSON value for column `xs` to integer[]: array element has wrong type"
    );
    assert_eq!(
        json_to_cell(&json("1"), &Column { name: "c".to_string(), type_oid: 600 }).err().unwrap().message(),
        "cannot convert JSON value for column `c` to supported PostgreSQL scalar or array type: type OID 600 is not supported"
    );
    assert_eq!(parse_i64(&json(r#""-9223372036854775808""#)), Some(i64::MIN));
    assert_eq!(parse_i64(&json("9223372036854775808")), None);
    assert!(matches!(pg_type(1184), PgType::Timestamptz));
}

#[test]
fn column_lookup_falls_back_to_sanitized_names_and_scalar_rows() {
    let map = OptionMap::new();
    let row = json(r#"{"DisplayName":"Ada"}"#);
    assert!(matches!(column_value(&row, "display_name", &map), Some(Json::Str(s)) if s == "Ada"));
    assert!(matches!(column_value(&json("5"), "value", &map), Some(Json::Number(n)) if n == "5"));
    assert!(column_value(&row, "value", &map).is_none());
}

#[test]
fn option_validation_and_import_options() {
    let options = validator_options(&vec![
        Some("base_url=https://example.test".to_string()),
        None,
        Some("nonsense".to_string()),
    ]);
    assert_eq!(options.get("base_url").unwrap(), "https://example.test");
    assert!(validate_options(OptionCatalog::Server, &options, &Environment::empty()).is_ok());
    let mut bad = OptionMap::new();
    bad.insert_str("endpoint", "/items");
    bad.insert_str("colour", "red");
    assert_eq!(
        validate_options(OptionCatalog::Table, &bad, &Environment::empty()).err().unwrap().message(),
        "invalid OpenAPI FDW configuration: unknown option `colour`"
    );
    assert!(validate_options(OptionCatalog::Other, &bad, &Environment::empty()).is_ok());
    let mut import = OptionMap::new();
    import.insert_str("include_attrs", "off");
    assert_eq!(import_bool(&import, "include_attrs", true).unwrap(), false);
    import.insert_str("include_attrs", "maybe");
    assert_eq!(
        import_bool(&import, "include_attrs", true).err().unwrap().message(),
        "OpenAPI schema import failed: IMPORT option `include_attrs` must be a boolean"
    );
    assert_eq!(import_methods(None).unwrap(), vec!["GET".to_string()]);
    let methods = " get , post ,".to_string();
    assert_eq!(import_methods(Some(&methods)).unwrap(), vec!["GET".to_string(), "POST".to_string()]);
    let bad_methods = "GET,PATCH".to_string();
    assert!(import_methods(Some(&bad_methods)).is_err());
}

#[test]
fn import_selection_filters_tables() {
    let endpoint = |name: &str| ImportedEndpoint {
        table_name: name.to_string(),
        endpoint: format!("/{name}"),
        method: "GET".to_string(),
        response_path: None,
        object_path: None,
        columns: vec![ImportedColumn { name: "id".to_string(), json_name: "id".to_string(), pg_type: "bigint" }],
    };
    let endpoints = vec![endpoint("items"), endpoint("users")];
    let listed = vec!["users".to_string()];
    let all = import_statements(&endpoints, ImportSelection::All, &listed, "target", "server", true);
    assert_eq!(all.len(), 2);
    let limited = import_statements(&endpoints, ImportSelection::LimitTo, &listed, "target", "server", true);
    assert_eq!(limited.len(), 1);
    assert!(limited[0].contains("\"users\""));
    let except = import_statements(&endpoints, ImportSelection::Except, &listed, "target", "server", true);
    assert!(except[0].contains("\"items\""));
}

#[test]
fn uuid_and_formatted_values() {
    let uuid = Column { name: "u".to_string(), type_oid: 2950 };
    assert_eq!(
        json_to_cell(&json(r#""not-a-uuid""#), &uuid).err().unwrap().message(),
        "cannot convert JSON value for column `u` to uuid: expected a UUID string"
    );
    let date = Column { name: "d".to_string(), type_oid: 1082 };
    assert!(matches!(json_to_cell(&json(r#""2024-01-02""#), &date), Ok(Cell::Date(s)) if s == "2024-01-02"));
    assert_eq!(
        json_to_cell(&json("5"), &date).err().unwrap().message(),
        "cannot convert JSON value for column `d` to date: expected a formatted string"
    );
}

#[test]
fn values_that_postgres_rejects_follow_the_type_error_mode() {
    let numeric = Column { name: "n".to_string(), type_oid: 1700 };
    let date = Column { name: "d".to_string(), type_oid: 1082 };
    let cell = json_to_cell(&json(r#""12x""#), &numeric).unwrap();
    assert!(matches!(cell, Cell::Numeric(ref s) if s == "12x"));
    assert_eq!(
        settle_cell(Some(cell), PgParse::Rejected("ignored".to_string()), &numeric, TypeErrorMode::Error)
            .err()
            .unwrap()
            .message(),
        "cannot convert JSON value for column `n` to numeric: expected a decimal number"
    );
    let cell = json_to_cell(&json(r#""2024-13-40""#), &date).unwrap();
    assert!(settle_cell(Some(cell), PgParse::Rejected("bad month".to_string()), &date, TypeErrorMode::Null)
        .unwrap()
        .is_none());
    let cell = json_to_cell(&json(r#""2024-13-40""#), &date).unwrap();
    assert_eq!(
        settle_cell(Some(cell), PgParse::Rejected("bad month".to_string()), &date, TypeErrorMode::Error)
            .err()
            .unwrap()
            .message(),
        "cannot convert JSON value for column `d` to date: invalid formatted string: bad month"
    );
    let cell = json_to_cell(&json(r#""2024-01-02""#), &date).unwrap();
    assert!(matches!(
        settle_cell(Some(cell), PgParse::Accepted, &date, TypeErrorMode::Error),
        Ok(Some(Cell::Date(ref s))) if s == "2024-01-02"
    ));
    let text = Column { name: "t".to_string(), type_oid: 25 };
    let cell = json_to_cell(&json(r#""x""#), &text).unwrap();
    assert!(matches!(
        settle_cell(Some(cell), PgParse::Rejected("n/a".to_string()), &text, TypeErrorMode::Error),
        Ok(Some(Cell::String(ref s))) if s == "x"
    ));
}
