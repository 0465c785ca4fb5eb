use openapi_fdw::json::{parse_json_text, to_json_text, Json};
use openapi_fdw::option_map::OptionMap;
use openapi_fdw::response::{classify_token, normalize_page, parse_link_next, split_link_entries, PageToken};
use openapi_fdw::table::TableConfig;

fn table(extra: &[(&str, &str)]) -> TableConfig {
    let mut options = OptionMap::new();
    options.insert_str("endpoint", "/items");
    for (key, value) in extra {
        options.insert_str(key, value);
    }
    TableConfig::from_options(&options).unwrap()
}

fn json(text: &str) -> Json {
    parse_json_text(text).unwrap()
}

#[test]
fn unwraps_results_and_finds_next_url() {
    let body = json(
        r#"{"count": 2, "next": "https://example.test/items?offset=2", "results": [{"id": 1}, {"id": 2}]}"#,
    );
    let page = normalize_page(&body, &Vec::new(), &table(&[])).unwrap();
    assert_eq!(page.rows.len(), 2);
    assert!(matches!(page.next, Some(PageToken::Url(u)) if u == "https://example.test/items?offset=2"));
}

#[test]
fn uses_explicit_json_pointer() {
    let body = json(r#"{"payload": {"rows": [{"id": 7}]}}"#);
    let page = normalize_page(&body, &Vec::new(), &table(&[("response_path", "/payload/rows")])).unwrap();
    assert_eq!(page.rows.len(), 1);
    assert_eq!(to_json_text(&page.rows[0]), to_json_text(&json(r#"{"id": 7}"#)));
}

#[test]
fn parses_rfc_link_header() {
    let header = "<https://example.test/items?page=2>; rel=\"next\", <https://example.test/items?page=9>; rel=\"last\"";
    assert_eq!(
        parse_link_next(header).as_deref(),
        Some("https://example.test/items?page=2")
    );
}

#[test]
fn supports_geojson_features() {
    let body = json(
        r#"{"type": "FeatureCollection", "features": [{"type": "Feature", "properties": {"name": "KSEA"}}]}"#,
    );
    let page = normalize_page(&body, &Vec::new(), &table(&[])).unwrap();
    assert!(matches!(page.rows[0].pointer_str("/properties/name"), Some(Json::Str(s)) if s == "KSEA"));
}

#[test]
fn empty_pages_stop_pagination() {
    let body = json(r#"{"results": [], "next": "https://example.test/items?offset=2"}"#);
    let page = normalize_page(&body, &Vec::new(), &table(&[])).unwrap();
    assert!(page.rows.is_empty());
    assert!(page.next.is_none());
}

#[test]
fn link_headers_and_cursors() {
    let links = vec!["<https://example.test/items?page=3>; rel=\"prev next\"".to_string()];
    let page = normalize_page(&json(r#"[{"id": 1}]"#), &links, &table(&[])).unwrap();
    assert!(matches!(page.next, Some(PageToken::Url(u)) if u == "https://example.test/items?page=3"));
    let body = json(r#"{"data": [{"id": 1}], "has_more": true, "next_cursor": "abc"}"#);
    let page = normalize_page(&body, &Vec::new(), &table(&[])).unwrap();
    assert!(matches!(page.next, Some(PageToken::Cursor(c)) if c == "abc"));
    let off = normalize_page(&body, &Vec::new(), &table(&[("pagination", "none")])).unwrap();
    assert!(off.next.is_none());
    assert_eq!(off.rows.len(), 1);
    assert!(matches!(classify_token("?page=2".to_string()), PageToken::Url(_)));
    assert!(matches!(classify_token("opaque".to_string()), PageToken::Cursor(_)));
    assert_eq!(split_link_entries("<a,b>; rel=\"x,y\", <c>").len(), 2);
}

#[test]
fn missing_response_path_is_an_error() {
    let result = normalize_page(&json("{}"), &Vec::new(), &table(&[("response_path", "/nope")]));
    assert_eq!(
        result.err().unwrap().message(),
        "OpenAPI FDW received an invalid response: configured response_path `/nope` does not exist"
    );
}
