use openapi_fdw::control::auth::{has_mutation_header, AuthState, COOKIE_NAME};
use openapi_fdw::control::model::{
    default_methods, ApiKeyLocation, AuthDefinition, Bundle, SampleQuery, SecretValue, ServerSettings,
    SourceDefinition,
};
use openapi_fdw::control::ops::{
    apply_slot, check_deletable, check_imported, delete_preflight, deleted_source, export_definitions,
    plan_bundle, sample_filter, sample_limit, sample_statement, settings_from_values,
};
use openapi_fdw::control::sql::{import_sql, quote_identifier, quote_literal, source_plan};
use openapi_fdw::option_map::OptionMap;

fn example() -> SourceDefinition {
    SourceDefinition {
        name: "brasilapi".to_string(),
        schema: "brasil".to_string(),
        remote_schema: "api".to_string(),
        spec_url: Some("https://example.test/openapi.json".to_string()),
        spec_json: None,
        base_url: None,
        methods: vec!["GET".to_string()],
        include_attrs: true,
        writable: false,
        tables: vec!["banks".to_string()],
        auth: AuthDefinition::Anonymous,
        headers: OptionMap::new(),
        headers_env: OptionMap::new(),
        settings: ServerSettings::default(),
    }
}

fn vendor_source() -> SourceDefinition {
    SourceDefinition {
        name: "vendor".to_string(),
        schema: "vendor".to_string(),
        remote_schema: "api".to_string(),
        spec_url: Some("https://example.test/openapi.json".to_string()),
        spec_json: None,
        base_url: None,
        methods: vec!["GET".to_string()],
        include_attrs: true,
        writable: false,
        tables: vec!["items".to_string()],
        auth: AuthDefinition::Bearer {
            secret: SecretValue {
                value: Some("do-not-show".to_string()),
                env: None,
                configured: false,
            },
        },
        headers: OptionMap::new(),
        headers_env: OptionMap::new(),
        settings: ServerSettings::default(),
    }
}

#[test]
fn bearer_and_cookie_authenticate_without_exposing_the_admin_token() {
    let auth = AuthState::new("correct-horse-battery-staple".to_string(), false);
    assert!(auth.authorized(Some("Bearer correct-horse-battery-staple"), None));
    let session_cookie = auth.session_cookie();
    let cookie = session_cookie.as_str();
    assert!(!cookie.contains("correct-horse-battery-staple"));
}

#[test]
fn session_cookie_authorizes_and_wrong_token_does_not() {
    let auth = AuthState::new("correct-horse-battery-staple".to_string(), true);
    let cookie = auth.session_cookie();
    let pair = cookie.split(';').next().unwrap().to_string();
    assert!(pair.starts_with(COOKIE_NAME));
    assert!(auth.authorized(None, Some(&format!("other=1; {pair}"))));
    assert!(!auth.authorized(Some("Bearer wrong-token-value-123"), None));
    assert!(!auth.authorized(None, None));
    assert!(auth.verify_token("correct-horse-battery-staple"));
    assert!(!auth.verify_token("correct-horse-battery-stapl"));
    assert!(cookie.contains("Secure"));
    assert!(auth.clear_cookie().contains("Max-Age=0"));
}

#[test]
fn mutation_header_is_required_for_writes() {
    assert!(has_mutation_header(Some("control-plane")));
    assert!(!has_mutation_header(Some("1")));
    assert!(!has_mutation_header(None));
}

#[test]
fn validates_a_minimal_source() {
    assert!(example().validate(true).is_ok());
}

#[test]
fn rejects_identifier_injection() {
    let mut source = example();
    source.schema = "public; DROP DATABASE postgres".to_string();
    assert!(source.validate(true).is_err());
}

#[test]
fn redacts_literal_secrets_but_keeps_environment_references() {
    let mut source = example();
    source.auth = AuthDefinition::ApiKey {
        secret: SecretValue {
            value: Some("secret".to_string()),
            env: None,
            configured: false,
        },
        name: "x-key".to_string(),
        location: ApiKeyLocation::Header,
        prefix: None,
    };
    source
        .headers
        .insert_sorted("x-private".to_string(), "hidden".to_string());
    source
        .headers_env
        .insert_sorted("x-shared".to_string(), "SHARED_HEADER".to_string());
    let safe = source.redacted();
    assert_eq!(safe.headers.get("x-private").unwrap(), "[REDACTED]");
    assert_eq!(safe.headers_env.get("x-shared").unwrap(), "SHARED_HEADER");
    let AuthDefinition::ApiKey { secret, .. } = safe.auth else {
        panic!("expected API-key auth")
    };
    assert!(secret.value.is_none());
    assert!(secret.configured);
}

#[test]
fn redaction_is_idempotent_and_stays_valid_without_credentials() {
    let source = vendor_source();
    let once = source.redacted();
    let twice = once.redacted();
    assert!(once.validate(false).is_ok());
    let AuthDefinition::Bearer { secret } = &twice.auth else {
        panic!("expected bearer auth")
    };
    assert!(secret.value.is_none() && secret.configured);
    assert_eq!(
        once.validate(true).unwrap_err(),
        "bearer token: the exported value was redacted; re-enter it"
    );
}

#[test]
fn generated_preview_redacts_credentials() {
    let plan = source_plan(&vendor_source(), "vendor", "vendor", false, true).unwrap();
    let display = plan.display();
    assert!(display.contains("[REDACTED]"));
    assert!(!display.contains("do-not-show"));
}

#[test]
fn applied_plan_keeps_the_credential_and_drops_before_replacing() {
    let plan = source_plan(&vendor_source(), "vendor", "vendor", true, false).unwrap();
    let statements = plan.statements();
    assert_eq!(statements.len(), 5);
    assert_eq!(statements[1], "DROP SERVER IF EXISTS \"vendor\" CASCADE");
    assert!(statements[2].contains("E'do-not-show'"));
    assert!(statements[4].starts_with("IMPORT FOREIGN SCHEMA \"api\""));
    assert!(statements[4].contains("LIMIT TO (\"items\")"));
}

#[test]
fn quotes_postgres_literals_and_identifiers() {
    assert_eq!(quote_identifier("odd\"name"), "\"odd\"\"name\"");
    assert_eq!(quote_literal("a'b\\c").unwrap(), "E'a''b\\\\c'");
    assert!(quote_literal("bad\0value").is_err());
}

#[test]
fn bundle_plan_joins_redacted_source_plans() {
    let mut second = vendor_source();
    second.name = "other".to_string();
    let bundle = Bundle::new(vec![vendor_source(), second]);
    let text = plan_bundle(&bundle, false).unwrap();
    assert!(text.contains("\n\n-- next source --\n\n"));
    assert!(!text.contains("do-not-show"));
    let duplicate = Bundle::new(vec![vendor_source(), vendor_source()]);
    assert_eq!(
        plan_bundle(&duplicate, false).unwrap_err(),
        "source `vendor` appears more than once"
    );
    let empty = Bundle::new(Vec::new());
    assert_eq!(plan_bundle(&empty, false).unwrap_err(), "the bundle has no sources");
}

#[test]
fn apply_never_touches_foreign_servers_of_other_wrappers() {
    assert_eq!(apply_slot("vendor", None, false), Ok(false));
    assert_eq!(apply_slot("vendor", Some("openapi_fdw"), true), Ok(true));
    assert_eq!(
        apply_slot("vendor", Some("openapi_fdw"), false).unwrap_err(),
        "foreign server `vendor` already exists; choose replace explicitly to reconcile it"
    );
    assert_eq!(
        apply_slot("vendor", Some("postgres_fdw"), true).unwrap_err(),
        "foreign server `vendor` belongs to FDW `postgres_fdw` and will not be replaced"
    );
}

#[test]
fn import_counts_are_checked() {
    let source = vendor_source();
    assert!(check_imported(&source, 1).is_ok());
    assert_eq!(
        check_imported(&source, 0).unwrap_err(),
        "source `vendor` imported no foreign tables"
    );
    assert_eq!(
        check_imported(&source, 3).unwrap_err(),
        "source `vendor` requested 1 tables but imported 3"
    );
}

#[test]
fn deletes_require_exact_confirmation() {
    assert_eq!(
        delete_preflight("vendor", "vendor").unwrap(),
        "DROP SERVER \"vendor\" CASCADE"
    );
    assert_eq!(
        delete_preflight("vendor", "Vendor").unwrap_err(),
        "confirmation must exactly match source name `vendor`"
    );
    assert!(delete_preflight("Bad Name", "Bad Name").is_err());
    assert_eq!(
        check_deletable("vendor", None).unwrap_err(),
        "foreign server `vendor` does not exist"
    );
    assert!(check_deletable("vendor", Some("openapi_fdw")).is_ok());
    let result = deleted_source("vendor", "DROP SERVER \"vendor\" CASCADE");
    assert!(result.ok);
    assert_eq!(result.sql, "DROP SERVER \"vendor\" CASCADE;");
}

#[test]
fn samples_are_bounded_and_filters_come_in_pairs() {
    let query = SampleQuery { limit: 500, filter_column: None, filter_value: None };
    assert_eq!(sample_limit("vendor", "vendor", "items", &query), Ok(100));
    let query = SampleQuery { limit: 0, filter_column: None, filter_value: None };
    assert_eq!(sample_limit("vendor", "vendor", "items", &query), Ok(1));
    assert!(sample_limit("vendor", "Vendor", "items", &query).is_err());
    let half = SampleQuery {
        limit: 5,
        filter_column: Some("id".to_string()),
        filter_value: None,
    };
    assert_eq!(
        sample_filter(&half).unwrap_err(),
        "filterColumn and filterValue must be provided together"
    );
    let full = SampleQuery {
        limit: 5,
        filter_column: Some("id".to_string()),
        filter_value: Some("7".to_string()),
    };
    assert_eq!(
        sample_filter(&full).unwrap(),
        Some(("id".to_string(), "7".to_string()))
    );
    let (sql, wrapped) = sample_statement("vendor", "items", 5, Some(("id", "7"))).unwrap();
    assert_eq!(sql, "SELECT * FROM \"vendor\".\"items\" WHERE \"id\" = E'7' LIMIT 5");
    assert_eq!(
        wrapped,
        format!("SELECT to_jsonb(sample_row) FROM ({sql}) AS sample_row")
    );
}

#[test]
fn exported_bundles_keep_readable_definitions() {
    let bundle = export_definitions(vec![Some(example()), None, Some(vendor_source())]);
    assert_eq!(bundle.sources.len(), 2);
    assert_eq!(bundle.sources[1].name, "vendor");
    assert_eq!(bundle.api_version, "openapi-fdw/v1");
    assert_eq!(default_methods(), vec!["GET".to_string()]);
}

#[test]
fn service_settings_are_validated() {
    let settings = settings_from_values(
        Some("postgres://db".to_string()),
        Some("0123456789abcdef".to_string()),
        None,
        None,
    )
    .unwrap();
    assert!(settings.cookie_secure);
    assert_eq!(settings.pool_max_size, 8);
    assert_eq!(
        settings_from_values(Some("postgres://db".to_string()), Some("short".to_string()), None, None)
            .err()
            .unwrap(),
        "OPENAPI_FDW_ADMIN_TOKEN must contain at least 16 characters"
    );
    assert_eq!(
        settings_from_values(None, None, None, None).err().unwrap(),
        "DATABASE_URL is required"
    );
    assert_eq!(
        settings_from_values(
            Some("postgres://db".to_string()),
            Some("0123456789abcdef".to_string()),
            Some("maybe"),
            None
        )
        .err()
        .unwrap(),
        "OPENAPI_FDW_COOKIE_SECURE must be true or false"
    );
    assert_eq!(
        settings_from_values(
            Some("postgres://db".to_string()),
            Some("0123456789abcdef".to_string()),
            Some("off"),
            Some("65")
        )
        .err()
        .unwrap(),
        "OPENAPI_FDW_POOL_SIZE must be between 1 and 64"
    );
}

#[test]
fn session_cookie_carries_the_sha256_of_the_labelled_token() {
    let auth = AuthState::new("correct-horse-battery-staple".to_string(), false);
    assert_eq!(
        auth.session_cookie(),
        "openapi_fdw_session=3ab6a8114cc1350fac88b5b0e9bb1eb35682882bf522f6dcd4f4f6225c485108; Path=/; HttpOnly; SameSite=Strict; Max-Age=43200"
    );
}

#[test]
fn writable_sources_ask_the_importer_for_write_options() {
    let mut source = example();
    assert!(!import_sql(&source, "server", "schema").contains("writable"));
    source.writable = true;
    assert!(import_sql(&source, "server", "schema").ends_with(", include_attrs E'true', writable E'true')"));
}

#[test]
fn session_value_is_sixty_four_lowercase_hex_digits() {
    let auth = AuthState::new("correct-horse-battery-staple".to_string(), false);
    let cookie = auth.session_cookie();
    let value = cookie.split(';').next().unwrap().strip_prefix("openapi_fdw_session=").unwrap();
    assert_eq!(value.len(), 64);
    assert!(value.chars().all(|c| c.is_ascii_digit() || ('a'..='f').contains(&c)));
    assert!(cookie.ends_with("; Path=/; HttpOnly; SameSite=Strict; Max-Age=43200"));
}
