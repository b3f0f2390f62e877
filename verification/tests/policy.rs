use contract_metadata_injection::config::Config;
use contract_metadata_injection::fields::Fields;
use contract_metadata_injection::json::parse_json;
use contract_metadata_injection::policy::{
    body_asks_for_content, document_asks_for_content, is_content_method, reads_body,
    response_headers, schema_id, schema_id_header, Ctx,
};

fn config() -> Config {
    Config {
        cdgc_org_username: String::new(),
        cdgc_org_password: String::new(),
        schema_id: "configured".to_string(),
        schema_id_header: None,
        schema_id_claim: None,
        sensitive_marker: None,
        sensitive_levels: None,
        header_on_miss: None,
        refresh_interval_seconds: None,
        fail_open_on_cdgc_error: None,
        distributed: None,
        timeout: None,
    }
}

fn some(text: &str) -> Option<String> {
    Some(text.to_string())
}

fn pair(name: &str, value: &str) -> (String, String) {
    (name.to_string(), value.to_string())
}

#[test]
fn content_methods_are_known() {
    for method in [
        "tools/call",
        "resources/read",
        "prompts/get",
        "message/send",
        "message/stream",
        "SendMessage",
        "SendStreamingMessage",
    ] {
        assert!(is_content_method(method));
    }
    for method in ["tools/list", "initialize", "", "Tools/Call", "tools/call "] {
        assert!(!is_content_method(method));
    }
}

#[test]
fn asset_of_a_request_is_chosen() {
    let c = config();
    assert_eq!(schema_id(&c, some("claim"), some("header")), "claim");
    assert_eq!(schema_id(&c, some(""), some("header")), "");
    assert_eq!(schema_id(&c, None, some(" header ")), " header ");
    assert_eq!(schema_id(&c, None, some(" \t\u{2003}")), "configured");
    assert_eq!(schema_id(&c, None, some("")), "configured");
    assert_eq!(schema_id(&c, None, None), "configured");
}

#[test]
fn asset_header_has_a_default() {
    let mut c = config();
    assert_eq!(schema_id_header(&c), "x-dp-schema-id");
    c.schema_id_header = some("x-asset");
    assert_eq!(schema_id_header(&c), "x-asset");
}

#[test]
fn body_of_a_json_post_is_read() {
    assert!(reads_body(some("application/json"), "POST"));
    assert!(reads_body(some("application/json; charset=utf-8"), "POST"));
    assert!(!reads_body(some("application/json"), "GET"));
    assert!(!reads_body(some("Application/JSON"), "POST"));
    assert!(!reads_body(some("text/plain"), "POST"));
    assert!(!reads_body(None, "POST"));
}

#[test]
fn body_may_name_a_method() {
    assert!(body_asks_for_content(br#"{"method":"tools/call"}"#));
    assert!(!body_asks_for_content(br#"{"jsonrpc":"2.0","method":"tools/list"}"#));
    assert!(body_asks_for_content(br#"{"method":3}"#));
    assert!(body_asks_for_content(br#"{"order":"tools/list"}"#));
    assert!(body_asks_for_content(br#"[{"method":"tools/list"}]"#));
    assert!(body_asks_for_content(b"not json"));
    assert!(body_asks_for_content(b""));
    let document = parse_json(br#"{"method":"ping"}"#).unwrap();
    assert!(!document_asks_for_content(&document));
}

#[test]
fn summary_is_stamped_in_order() {
    let mut fields = Fields::new();
    fields.insert("x-dp-name".to_string(), "dim_product.csv".to_string());
    fields.insert("x-dp-field-count".to_string(), "11".to_string());
    let ctx = Ctx::of(Some(fields));
    let stamped = response_headers(Some(&ctx), &config());
    assert_eq!(
        stamped,
        vec![
            pair("x-dp-field-count", "11"),
            pair("x-dp-name", "dim_product.csv"),
            pair("x-dp-metadata-source", "cdgc"),
            pair("x-dp-metadata-status", "ok"),
        ]
    );
    for (name, _) in &stamped {
        assert!(name.starts_with("x-dp-"));
    }
    assert_eq!(response_headers(Some(&ctx.clone()), &config()), stamped);
}

#[test]
fn outage_is_reported() {
    let ctx = Ctx::of(None);
    let mut c = config();
    let unavailable = vec![pair("x-dp-metadata-status", "unavailable")];
    assert_eq!(response_headers(Some(&ctx), &c), unavailable);
    c.header_on_miss = Some(true);
    assert_eq!(response_headers(Some(&ctx), &c), unavailable);
    c.header_on_miss = Some(false);
    assert_eq!(response_headers(Some(&ctx), &c), Vec::new());
}

#[test]
fn response_without_a_context_is_left_alone() {
    assert_eq!(response_headers(None, &config()), Vec::new());
}
