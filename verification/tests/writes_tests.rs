use openapi_fdw::fdw::{
    check_import_options, import_bool, import_schema, import_statements, import_statements_with,
    validate_options, validator_options, write_options, ImportSelection, OptionCatalog,
};
use openapi_fdw::json::{parse_json_text, Json};
use openapi_fdw::openapi::{endpoints, request_properties, ImportedColumn, ImportedEndpoint};
use openapi_fdw::option_map::{Environment, OptionMap};

fn json(text: &str) -> Json {
    parse_json_text(text).unwrap()
}

fn column(name: &str, json_name: &str, pg_type: &'static str) -> ImportedColumn {
    ImportedColumn { name: name.to_string(), json_name: json_name.to_string(), pg_type }
}

fn objects_table() -> ImportedEndpoint {
    ImportedEndpoint {
        table_name: "objects".to_string(),
        endpoint: "/objects".to_string(),
        method: "GET".to_string(),
        response_path: None,
        object_path: None,
        columns: vec![column("id", "id", "text"), column("name", "name", "text"), column("data", "data", "jsonb")],
    }
}

const OBJECTS_DOC: &str = r##"{
  "openapi": "3.0.3",
  "info": {"title": "objects", "version": "1"},
  "paths": {
    "/objects": {
      "get": {
        "responses": {"200": {"description": "ok", "content": {"application/json": {
          "schema": {"type": "array", "items": {"$ref": "#/components/schemas/Object"}}
        }}}}
      },
      "post": {
        "requestBody": {"$ref": "#/components/requestBodies/ObjectBody"},
        "responses": {"200": {"description": "ok"}}
      }
    },
    "/objects/{objectId}": {
      "patch": {
        "requestBody": {"content": {"application/json": {"schema": {"$ref": "#/components/schemas/Input"}}}},
        "responses": {"200": {"description": "ok"}}
      },
      "put": {"responses": {"200": {"description": "ok"}}},
      "delete": {"responses": {"204": {"description": "gone"}}}
    }
  },
  "components": {
    "requestBodies": {
      "ObjectBody": {"content": {"application/json": {"schema": {"$ref": "#/components/schemas/Input"}}}}
    },
    "schemas": {
      "Input": {"type": "object", "properties": {"name": {"type": "string"}, "data": {"type": "object"}}},
      "Object": {"type": "object", "properties": {"id": {"type": "string"}, "name": {"type": "string"}, "data": {"type": "object"}}}
    }
  }
}"##;

fn lines(v: Vec<Vec<char>>) -> Vec<String> {
    v.into_iter().map(|l| l.into_iter().collect()).collect()
}

#[test]
fn readme_writable_table_passes_the_validator() {
    let options = validator_options(&vec![
        Some("endpoint=/objects".to_string()),
        Some("rowid_column=id".to_string()),
        Some("rowid_parameter=objectId".to_string()),
        Some("insert_endpoint=/objects".to_string()),
        Some("insert_method=POST".to_string()),
        Some("update_endpoint=/objects/{objectId}".to_string()),
        Some("update_method=PATCH".to_string()),
        Some("delete_endpoint=/objects/{objectId}".to_string()),
        Some(r#"write_columns=["name","data"]"#.to_string()),
    ]);
    assert!(validate_options(OptionCatalog::Table, &options, &Environment::empty()).is_ok());
}

#[test]
fn writable_is_a_known_import_option() {
    let mut options = OptionMap::new();
    options.insert_str("methods", "GET");
    options.insert_str("include_attrs", "true");
    options.insert_str("writable", "true");
    assert!(check_import_options(&options).is_ok());
    assert_eq!(import_bool(&options, "writable", false).unwrap(), true);
    assert_eq!(import_bool(&OptionMap::new(), "writable", false).unwrap(), false);
    options.insert_str("writeable", "true");
    assert_eq!(
        check_import_options(&options).err().unwrap().message(),
        "OpenAPI schema import failed: unknown IMPORT option `writeable`"
    );
}

#[test]
fn request_properties_follow_references() {
    let doc = json(OBJECTS_DOC);
    let post = doc.pointer_str("/paths/~1objects/post").unwrap();
    assert_eq!(request_properties(&doc, post), vec!["data".to_string(), "name".to_string()]);
    let put = doc.pointer_str("/paths/~1objects~1{objectId}/put").unwrap();
    assert!(request_properties(&doc, put).is_empty());
}

#[test]
fn writable_import_pairs_collection_and_item_operations() {
    let doc = json(OBJECTS_DOC);
    assert_eq!(
        lines(write_options(&doc, &objects_table())),
        vec![
            "    rowid_column 'id'",
            "    rowid_parameter 'objectId'",
            "    insert_endpoint '/objects'",
            "    insert_method 'POST'",
            "    update_endpoint '/objects/{objectId}'",
            "    update_method 'PATCH'",
            "    delete_endpoint '/objects/{objectId}'",
            r#"    write_columns '["name","data"]'"#,
        ]
    );
    let tables = vec![objects_table()];
    let sql = import_statements_with(&tables, ImportSelection::All, &vec![], "app", "vendor", true, Some(&doc));
    assert_eq!(
        sql[0],
        "CREATE FOREIGN TABLE \"app\".\"objects\" (\n    \"id\" text,\n    \"name\" text,\n    \"data\" jsonb,\n    \"attrs\" jsonb\n)\nSERVER \"vendor\" OPTIONS (\n    endpoint '/objects',\n    rowid_column 'id',\n    rowid_parameter 'objectId',\n    insert_endpoint '/objects',\n    insert_method 'POST',\n    update_endpoint '/objects/{objectId}',\n    update_method 'PATCH',\n    delete_endpoint '/objects/{objectId}',\n    write_columns '[\"name\",\"data\"]'\n)"
    );
    let read_only = import_statements(&tables, ImportSelection::All, &vec![], "app", "vendor", true);
    assert!(!read_only[0].contains("rowid_column"));
}

#[test]
fn writable_options_pass_the_table_validator() {
    let doc = json(OBJECTS_DOC);
    let mut options = OptionMap::new();
    options.insert_str("endpoint", "/objects");
    for line in lines(write_options(&doc, &objects_table())) {
        let (name, quoted) = line.trim().split_once(' ').unwrap();
        options.insert_str(name, &quoted[1..quoted.len() - 1]);
    }
    assert!(validate_options(OptionCatalog::Table, &options, &Environment::empty()).is_ok());
}

#[test]
fn identity_column_follows_the_path_parameter() {
    let doc = json(
        r#"{"paths": {"/users": {"get": {}}, "/users/{userId}": {"put": {}, "delete": {}}}}"#,
    );
    let table = ImportedEndpoint {
        table_name: "users".to_string(),
        endpoint: "/users".to_string(),
        method: "GET".to_string(),
        response_path: None,
        object_path: None,
        columns: vec![column("id", "id", "bigint"), column("user_id", "userId", "bigint")],
    };
    assert_eq!(
        lines(write_options(&doc, &table)),
        vec![
            "    rowid_column 'user_id'",
            "    rowid_parameter 'userId'",
            "    update_endpoint '/users/{userId}'",
            "    update_method 'PUT'",
            "    delete_endpoint '/users/{userId}'",
        ]
    );
}

#[test]
fn unpaired_operations_stay_read_only() {
    let no_item = json(r#"{"paths": {"/objects": {"get": {}, "post": {}}}}"#);
    assert!(write_options(&no_item, &objects_table()).is_empty());
    let nested = json(r#"{"paths": {"/objects": {"get": {}}, "/objects/{a}/{b}": {"delete": {}}}}"#);
    assert!(write_options(&nested, &objects_table()).is_empty());
    let get_only = json(r#"{"paths": {"/objects": {"get": {}}, "/objects/{objectId}": {"get": {}}}}"#);
    assert!(write_options(&get_only, &objects_table()).is_empty());
    let mut no_identity = objects_table();
    no_identity.columns = vec![column("name", "name", "text")];
    let doc = json(OBJECTS_DOC);
    assert!(write_options(&doc, &no_identity).is_empty());
    let mut item_table = objects_table();
    item_table.endpoint = "/objects/{objectId}".to_string();
    assert!(write_options(&doc, &item_table).is_empty());
}

#[test]
fn imported_endpoints_get_write_options() {
    let doc = json(OBJECTS_DOC);
    let tables = endpoints(&doc, &vec!["GET".to_string()]).unwrap();
    let sql = import_statements_with(&tables, ImportSelection::All, &vec![], "app", "vendor", true, Some(&doc));
    assert_eq!(sql.len(), 1);
    assert!(sql[0].contains("insert_endpoint '/objects'"));
    assert!(sql[0].contains("delete_endpoint '/objects/{objectId}'"));
}

#[test]
fn import_schema_attaches_write_options_only_when_writable() {
    let doc = json(OBJECTS_DOC);
    let mut options = OptionMap::new();
    options.insert_str("methods", "GET");
    let read_only = import_schema(&doc, &options, ImportSelection::All, &vec![], "app", "vendor").unwrap();
    assert_eq!(read_only.len(), 1);
    assert!(read_only[0].contains("\"attrs\" jsonb"));
    assert!(!read_only[0].contains("rowid_column"));
    options.insert_str("writable", "true");
    options.insert_str("include_attrs", "false");
    let writable = import_schema(&doc, &options, ImportSelection::All, &vec![], "app", "vendor").unwrap();
    assert!(writable[0].contains("rowid_column 'id'"));
    assert!(writable[0].contains("update_method 'PATCH'"));
    assert!(!writable[0].contains("\"attrs\" jsonb"));
    let listed = vec!["other".to_string()];
    assert!(import_schema(&doc, &options, ImportSelection::LimitTo, &listed, "app", "vendor").unwrap().is_empty());
}

#[test]
fn import_schema_refuses_bad_options() {
    let doc = json(OBJECTS_DOC);
    let mut options = OptionMap::new();
    options.insert_str("writable", "sometimes");
    assert_eq!(
        import_schema(&doc, &options, ImportSelection::All, &vec![], "app", "vendor").err().unwrap().message(),
        "OpenAPI schema import failed: IMPORT option `writable` must be a boolean"
    );
    let mut unknown = OptionMap::new();
    unknown.insert_str("prefix", "x");
    assert_eq!(
        import_schema(&doc, &unknown, ImportSelection::All, &vec![], "app", "vendor").err().unwrap().message(),
        "OpenAPI schema import failed: unknown IMPORT option `prefix`"
    );
    let mut methods = OptionMap::new();
    methods.insert_str("methods", "DELETE");
    assert!(import_schema(&doc, &methods, ImportSelection::All, &vec![], "app", "vendor").is_err());
}
