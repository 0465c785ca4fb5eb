use openapi_fdw::http::{
    accept_body, automatically_retryable, check_content_length, decode_json_response, endpoint_url,
    error_excerpt_limit, exponential_delay, is_json_content_type, is_retryable_status, next_step,
    parse_retry_after, parse_spec_document, request_headers, request_url, resolve_page_url, retry_delay,
    redirect_policy, redirect_step, retry_limit, status_error, transport_error, AttemptOutcome, NextStep,
    RedirectPolicy, RedirectStep,
};
use openapi_fdw::option_map::{Environment, OptionMap};
use openapi_fdw::server::ServerConfig;
use openapi_fdw::urls::parse_url;

fn url(raw: &str) -> openapi_fdw::urls::UrlParts {
    parse_url(raw).unwrap()
}

fn server(extra: &[(&str, &str)]) -> ServerConfig {
    let mut options = OptionMap::new();
    options.insert_str("base_url", "https://example.test");
    for (name, value) in extra {
        options.insert_str(name, value);
    }
    ServerConfig::from_options(&options, &Environment::empty()).unwrap()
}

#[test]
fn joins_endpoint_to_base_path() {
    let base = url("https://example.test/api/v1");
    assert_eq!(
        endpoint_url(&base, "/items").unwrap().serialization,
        "https://example.test/api/v1/items"
    );
}

#[test]
fn resolves_query_only_next_page() {
    let base = url("https://example.test/api");
    let current = url("https://example.test/api/items?page=1");
    assert_eq!(
        resolve_page_url(&base, &current, "?page=2", false)
            .unwrap()
            .serialization,
        "https://example.test/api/items?page=2"
    );
}

#[test]
fn blocks_cross_origin_pagination() {
    let base = url("https://example.test/api");
    let current = url("https://example.test/api/items");
    assert!(resolve_page_url(&base, &current, "https://attacker.test/collect", false).is_err());
}

#[test]
fn cross_origin_pagination_is_allowed_on_request_and_paths_resolve_on_the_base() {
    let base = url("https://example.test/api");
    let current = url("https://example.test/api/items");
    let next = resolve_page_url(&base, &current, "https://other.test/page/2", true).unwrap();
    assert_eq!(next.serialization, "https://other.test/page/2");
    let next = resolve_page_url(&base, &current, "/v2/items?page=3", false).unwrap();
    assert_eq!(next.serialization, "https://example.test/v2/items?page=3");
    let error = resolve_page_url(&base, &current, "ftp://example.test/x", true).unwrap_err();
    assert_eq!(
        error.message(),
        "OpenAPI FDW received an invalid response: API returned a next-page URL with an unsupported scheme"
    );
    let error = resolve_page_url(&base, &current, "https://attacker.test/collect", false).unwrap_err();
    assert!(error.message().contains("https://attacker.test"));
}

#[test]
fn accepts_json_and_structured_json_media_types() {
    assert!(is_json_content_type("application/json; charset=utf-8"));
    assert!(is_json_content_type("application/geo+json"));
    assert!(!is_json_content_type("text/html"));
}

#[test]
fn retries_only_idempotent_methods_automatically() {
    assert!(automatically_retryable("GET"));
    assert!(automatically_retryable("PUT"));
    assert!(automatically_retryable("DELETE"));
    assert!(!automatically_retryable("POST"));
    assert!(!automatically_retryable("PATCH"));
    assert_eq!(retry_limit("POST", 5), 0);
    assert_eq!(retry_limit("GET", 5), 5);
}

#[test]
fn retry_statuses_and_delays() {
    for status in [408u16, 429, 500, 502, 503, 504] {
        assert!(is_retryable_status(status));
    }
    assert!(!is_retryable_status(404));
    assert_eq!(exponential_delay(0, 10_000), 250);
    assert_eq!(exponential_delay(3, 10_000), 2_000);
    assert_eq!(exponential_delay(40, 100_000_000), 16_384_000);
    assert_eq!(exponential_delay(10, 5_000), 5_000);
    assert_eq!(parse_retry_after("7", 0), Some(7_000));
    assert_eq!(parse_retry_after("Thu, 01 Jan 1970 00:00:10 GMT", 4_000), Some(6_000));
    assert_eq!(parse_retry_after("Thu, 01 Jan 1970 00:00:10 GMT", 20_000), Some(0));
    assert_eq!(parse_retry_after("soon", 0), None);
    assert_eq!(retry_delay(Some("7"), 0, 0, 5_000), 5_000);
    assert_eq!(retry_delay(Some("soon"), 0, 1, 5_000), 500);
    assert_eq!(retry_delay(None, 0, 2, 5_000), 1_000);
}

#[test]
fn retry_decisions_stop_at_the_limit() {
    let status = AttemptOutcome::Status { status: 503, retry_after: None };
    assert!(matches!(next_step(&status, 0, 2, 0, 5_000), NextStep::Retry { delay_ms: 250 }));
    assert!(matches!(next_step(&status, 2, 2, 0, 5_000), NextStep::Fail));
    let missing = AttemptOutcome::Status { status: 404, retry_after: None };
    assert!(matches!(next_step(&missing, 0, 2, 0, 5_000), NextStep::Fail));
    let transport = AttemptOutcome::Transport { retryable: true };
    assert!(matches!(next_step(&transport, 1, 2, 0, 5_000), NextStep::Retry { delay_ms: 500 }));
    let fatal = AttemptOutcome::Transport { retryable: false };
    assert!(matches!(next_step(&fatal, 0, 2, 0, 5_000), NextStep::Fail));
    assert!(matches!(next_step(&AttemptOutcome::Success, 0, 0, 0, 0), NextStep::Accept));
}

#[test]
fn error_messages_redact_credentials() {
    let config = server(&[("bearer_token", "extremely-secret")]);
    let error = status_error(&config, "401 Unauthorized", Some("  bad token extremely-secret \n"));
    assert_eq!(
        error.message(),
        "OpenAPI FDW request failed: remote service returned HTTP 401 Unauthorized: bad token [REDACTED]"
    );
    let error = status_error(&config, "500 Internal Server Error", Some("   "));
    assert_eq!(
        error.message(),
        "OpenAPI FDW request failed: remote service returned HTTP 500 Internal Server Error"
    );
    let error = transport_error(&config, "connect to extremely-secret failed");
    assert_eq!(
        error.message(),
        "OpenAPI FDW request failed: connect to [REDACTED] failed"
    );
    assert_eq!(error_excerpt_limit(100), 100);
    assert_eq!(error_excerpt_limit(1_000_000), 4096);
}

#[test]
fn response_size_limits() {
    assert!(check_content_length(Some(10), 10).is_ok());
    assert_eq!(
        check_content_length(Some(11), 10).unwrap_err().message(),
        "OpenAPI FDW received an invalid response: response Content-Length is 11 bytes, above max_response_bytes 10"
    );
    assert_eq!(accept_body(204, Vec::new(), 10).unwrap(), b"null".to_vec());
    assert_eq!(accept_body(200, b"[1]".to_vec(), 10).unwrap(), b"[1]".to_vec());
    assert_eq!(
        accept_body(200, vec![b' '; 11], 10).unwrap_err().message(),
        "OpenAPI FDW received an invalid response: response exceeded max_response_bytes 10"
    );
}

#[test]
fn json_bodies_are_checked() {
    assert!(decode_json_response(Some("application/json"), b"{\"a\":1}").is_ok());
    assert_eq!(
        decode_json_response(Some("text/html"), b"<html>").unwrap_err().message(),
        "OpenAPI FDW received an invalid response: response Content-Type `text/html` is not JSON"
    );
    assert!(decode_json_response(None, b"{").unwrap_err().message().contains("line 1"));
    assert!(parse_spec_document(b"openapi: 3.0.0\npaths: {}\n").is_ok());
    assert!(parse_spec_document(b"{")
        .unwrap_err()
        .message()
        .starts_with("OpenAPI schema import failed: document is neither valid JSON nor valid YAML: "));
}

#[test]
fn request_headers_add_credentials_and_json_content_type() {
    let config = server(&[("api_key", "k-123"), ("api_key_name", "X-Key")]);
    let headers = request_headers(&config, true).unwrap();
    assert!(headers.contains(&("x-key".to_string(), "k-123".to_string())));
    assert!(headers.contains(&("content-type".to_string(), "application/json".to_string())));
    let without_body = request_headers(&config, false).unwrap();
    assert!(!without_body.iter().any(|(name, _)| name == "content-type"));
}

#[test]
fn query_api_keys_are_appended_to_the_request_url() {
    let config = server(&[("api_key", "k 1"), ("api_key_location", "query")]);
    let target = url("https://example.test/items");
    let full = request_url(&config, &target, &vec![("page".to_string(), "2".to_string())]).unwrap();
    assert_eq!(full.serialization, "https://example.test/items?page=2&x-api-key=k+1");
}

#[test]
fn header_values_that_cannot_be_sent_are_refused() {
    let config = server(&[("api_key", "line\nbreak")]);
    assert_eq!(
        request_headers(&config, false).unwrap_err().message(),
        "invalid OpenAPI FDW configuration: the configured credential cannot be represented as an HTTP header"
    );
    let config = server(&[("api_key", "k"), ("api_key_name", "bad name")]);
    assert_eq!(
        request_headers(&config, false).unwrap_err().message(),
        "invalid OpenAPI FDW configuration: api_key_name is not a valid header name"
    );
}

#[test]
fn redirects_stay_on_the_origin_and_within_the_limit() {
    let first = url("https://api.example.test/items");
    let same = url("https://API.example.test:443/other");
    let other = url("https://evil.example.test/items");
    let plain = url("http://api.example.test/items");
    assert_eq!(redirect_step(0, 3, Some(&first), Some(&same)), RedirectStep::Follow);
    assert_eq!(redirect_step(1, 3, Some(&first), Some(&other)), RedirectStep::CrossOrigin);
    assert_eq!(redirect_step(1, 3, Some(&first), Some(&plain)), RedirectStep::CrossOrigin);
    assert_eq!(redirect_step(3, 3, Some(&first), Some(&same)), RedirectStep::TooMany);
    assert_eq!(redirect_step(4, 3, Some(&first), Some(&other)), RedirectStep::TooMany);
    assert_eq!(redirect_step(0, 3, None, Some(&other)), RedirectStep::Follow);
}

#[test]
fn redirect_policy_follows_max_redirects() {
    assert!(matches!(redirect_policy(&server(&[("max_redirects", "0")])), RedirectPolicy::Disabled));
    assert!(matches!(redirect_policy(&server(&[("max_redirects", "4")])), RedirectPolicy::Limited(4)));
}
