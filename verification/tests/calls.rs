use contract_metadata_injection::auth::{
    login_reply, login_request, token_reply, token_request, CdgcJwtResponse, CdgcLoginResponse,
    Session,
};
use contract_metadata_injection::calls::{transport_message, FetchError, Leg, Missing, Service};
use contract_metadata_injection::clock::{elapsed_ms, next_call_timeout, now_secs};
use contract_metadata_injection::config::Config;
use contract_metadata_injection::json::{parse_json, write_json, Body, Json};
use contract_metadata_injection::search::{found_in, search_reply, search_request};
use std::time::{Duration, SystemTime};

fn config() -> Config {
    Config {
        cdgc_org_username: "reader".to_string(),
        cdgc_org_password: "p\"w".to_string(),
        schema_id: "asset-1".to_string(),
        schema_id_header: None,
        schema_id_claim: None,
        sensitive_marker: None,
        sensitive_levels: None,
        header_on_miss: None,
        refresh_interval_seconds: None,
        fail_open_on_cdgc_error: None,
        distributed: None,
        timeout: None,
    }
}

fn login() -> CdgcLoginResponse {
    CdgcLoginResponse { session_id: "s-1".to_string(), org_id: "org-7".to_string() }
}

fn pair(name: &str, value: &str) -> (String, String) {
    (name.to_string(), value.to_string())
}

#[test]
fn login_posts_the_account() {
    let call = login_request(&config(), 0).unwrap();
    assert_eq!(call.service, Service::Login);
    assert_eq!(call.path, "/identity-service/api/v1/Login");
    assert_eq!(call.headers, vec![pair("Content-Type", "application/json")]);
    assert_eq!(call.body.unwrap(), br#"{"password":"p\"w","username":"reader"}"#.to_vec());
    assert_eq!(call.timeout, Duration::from_millis(5_000));
}

#[test]
fn token_is_asked_for_with_the_session() {
    let at = SystemTime::UNIX_EPOCH + Duration::new(2, 5);
    let call = token_request(&config(), &login(), at, 14_000).unwrap();
    assert_eq!(call.service, Service::Login);
    assert_eq!(
        call.path,
        "/identity-service/api/v1/jwt/Token?client_id=idmc_api&nonce=2000000005"
    );
    assert_eq!(
        call.headers,
        vec![pair("cookie", "USER_SESSION=s-1"), pair("IDS-SESSION-ID", "s-1")]
    );
    assert_eq!(call.body, None);
    assert_eq!(call.timeout, Duration::from_millis(1_000));
}

#[test]
fn search_posts_the_query_with_the_token() {
    let session = Session { jwt: "j.w.t".to_string(), org: "org-7".to_string() };
    let query = Body::Object(vec![
        ("size".to_string(), Body::Count(3)),
        ("from".to_string(), Body::List(vec![Body::Text("é".to_string())])),
        ("size".to_string(), Body::Count(4)),
    ]);
    let call = search_request(&config(), &session, &query, 100).unwrap();
    assert_eq!(call.service, Service::Search);
    assert_eq!(call.path, "/ccgf-searchv2/api/v1/search");
    assert_eq!(
        call.headers,
        vec![
            pair("Authorization", "Bearer j.w.t"),
            pair("X-INFA-ORG-ID", "org-7"),
            pair("X-INFA-SEARCH-LANGUAGE", "elasticsearch"),
            pair("Content-Type", "application/json"),
        ]
    );
    assert_eq!(call.body.unwrap(), "{\"from\":[\"é\"],\"size\":4}".as_bytes().to_vec());
    assert_eq!(call.timeout, Duration::from_millis(5_000));
}

#[test]
fn no_call_is_made_when_the_budget_is_used_up() {
    let session = Session { jwt: "j".to_string(), org: "o".to_string() };
    let query = Body::Object(Vec::new());
    assert!(matches!(login_request(&config(), 15_000), Err(FetchError::Budget(Leg::Login))));
    assert!(matches!(
        token_request(&config(), &login(), SystemTime::UNIX_EPOCH, 15_001),
        Err(FetchError::Budget(Leg::Token))
    ));
    assert!(matches!(
        search_request(&config(), &session, &query, 20_000),
        Err(FetchError::Budget(Leg::Search))
    ));
}

#[test]
fn login_is_answered() {
    let out = login_reply(200, Ok(login())).unwrap();
    assert_eq!(out.session_id, "s-1");
    assert_eq!(out.org_id, "org-7");
    assert!(matches!(login_reply(300, Ok(login())), Err(FetchError::Status(Leg::Login, 300))));
    assert!(login_reply(299, Ok(login())).is_ok());
    let unreadable = parse_json(b"{").unwrap_err();
    match login_reply(200, Err(unreadable)) {
        Err(FetchError::Parse(Leg::Login, words)) => {
            assert_eq!(words, "EOF while parsing an object at line 1 column 1")
        }
        _ => panic!("no parse error"),
    }
    let unreadable = parse_json(b"{").unwrap_err();
    assert!(matches!(
        login_reply(503, Err(unreadable)),
        Err(FetchError::Status(Leg::Login, 503))
    ));
}

#[test]
fn token_is_answered() {
    let token = CdgcJwtResponse { jwt_token: "j.w.t".to_string() };
    let session = token_reply(200, Ok(token), login()).unwrap();
    assert_eq!(session.jwt, "j.w.t");
    assert_eq!(session.org, "org-7");
    let token = CdgcJwtResponse { jwt_token: "j.w.t".to_string() };
    assert!(matches!(
        token_reply(401, Ok(token), login()),
        Err(FetchError::Status(Leg::Token, 401))
    ));
    let unreadable = parse_json(b"").unwrap_err();
    assert!(matches!(
        token_reply(200, Err(unreadable), login()),
        Err(FetchError::Parse(Leg::Token, _))
    ));
}

#[test]
fn search_finds_the_sources_of_its_hits() {
    let body = br#"{"hits":{"hits":[{"sourceAsMap":{"core.name":"a"}},{"id":1},
        {"sourceAsMap":"b"},7]}}"#;
    let found = search_reply(200, body).unwrap();
    assert_eq!(found.len(), 2);
    assert_eq!(found[0].text_at("core.name"), Some("a".to_string()));
    assert_eq!(found[1], Json::Text("b".to_string()));
}

#[test]
fn search_with_another_answer_finds_nothing() {
    for body in ["{}", "[]", r#"{"hits":[]}"#, r#"{"hits":{"hits":{}}}"#, "3"] {
        assert_eq!(found_in(parse_json(body.as_bytes()).unwrap()), Vec::new());
    }
}

#[test]
fn search_that_fails_is_an_error() {
    assert!(matches!(search_reply(500, b"{}"), Err(FetchError::Status(Leg::Search, 500))));
    assert!(matches!(search_reply(200, b"<html>"), Err(FetchError::Parse(Leg::Search, _))));
}

#[test]
fn json_is_read() {
    let value = parse_json(br#" {"a":[null,true,1.50,-2,"x\n"],"b":{},"a2":1e3} "#).unwrap();
    let a = match value.get("a") {
        Some(Json::Array(items)) => items,
        _ => panic!("no array"),
    };
    assert_eq!(a[0], Json::Null);
    assert_eq!(a[1], Json::Bool(true));
    assert_eq!(a[2], Json::Number("1.5".to_string()));
    assert_eq!(a[3], Json::Number("-2".to_string()));
    assert_eq!(a[4], Json::Text("x\n".to_string()));
    assert_eq!(value.get("b"), Some(&Json::Object(Vec::new())));
    assert_eq!(value.get("c"), None);
    assert_eq!(value.take("a2"), Some(Json::Number("1000.0".to_string())));
}

#[test]
fn json_member_that_comes_twice_counts_once() {
    let value = parse_json(br#"{"a":"first","a":"last"}"#).unwrap();
    assert_eq!(value.text_at("a"), Some("last".to_string()));
    let held = Json::Object(vec![
        ("a".to_string(), Json::Bool(false)),
        ("a".to_string(), Json::Bool(true)),
    ]);
    assert!(held.is_true_at("a"));
    assert!(!held.is_true_at("b"));
}

#[test]
fn json_that_is_broken_is_an_error() {
    for text in ["", "{", "nul", "{\"a\":}", "[1,]", "1 2"] {
        assert!(parse_json(text.as_bytes()).is_err());
    }
}

#[test]
fn json_body_is_written() {
    let body = Body::Object(vec![
        ("z".to_string(), Body::Count(u64::MAX)),
        ("a".to_string(), Body::List(vec![Body::Text("\"\\".to_string()), Body::Count(0)])),
    ]);
    let bytes = write_json(&body).unwrap();
    assert_eq!(bytes, br#"{"a":["\"\\",0],"z":18446744073709551615}"#.to_vec());
}

#[test]
fn seconds_are_counted_from_the_epoch() {
    let at = SystemTime::UNIX_EPOCH + Duration::new(1_700_000_000, 999_999_999);
    assert_eq!(now_secs(at), 1_700_000_000);
    assert_eq!(now_secs(SystemTime::UNIX_EPOCH - Duration::from_secs(1)), 0);
}

#[test]
fn elapsed_time_is_in_milliseconds() {
    let start = SystemTime::UNIX_EPOCH + Duration::from_secs(10);
    assert_eq!(elapsed_ms(start, start + Duration::from_micros(2_999)), 2);
    assert_eq!(elapsed_ms(start, start), 0);
    assert_eq!(elapsed_ms(start, start - Duration::from_secs(3)), 0);
}

#[test]
fn calls_keep_to_the_budget() {
    assert_eq!(next_call_timeout(5_000, 0), Some(Duration::from_millis(5_000)));
    assert_eq!(next_call_timeout(5_000, 12_345), Some(Duration::from_millis(2_655)));
    assert_eq!(next_call_timeout(0, 0), Some(Duration::from_millis(1)));
    assert_eq!(next_call_timeout(-7, 14_999), Some(Duration::from_millis(1)));
    assert_eq!(next_call_timeout(5_000, 14_999), Some(Duration::from_millis(1)));
    assert_eq!(next_call_timeout(5_000, 15_000), None);
    assert_eq!(next_call_timeout(i64::MAX, i64::MAX), None);
    assert_eq!(
        next_call_timeout(i64::MAX, i64::MIN),
        Some(Duration::from_millis(9_223_372_036_854_775_807))
    );
}

#[test]
fn entries_are_kept_for_twice_the_interval() {
    let mut config = config();
    assert_eq!(config.refresh_interval(), 86_400);
    assert_eq!(config.meta_store_ttl_ms(), 2_592_000_000);
    config.refresh_interval_seconds = Some(-5);
    assert_eq!(config.refresh_interval(), 0);
    assert_eq!(config.meta_store_ttl_ms(), 2_592_000_000);
    config.refresh_interval_seconds = Some(1_500_000);
    assert_eq!(config.meta_store_ttl_ms(), 3_000_000_000);
    config.refresh_interval_seconds = Some(2_147_484);
    assert_eq!(config.meta_store_ttl_ms(), u32::MAX);
    config.refresh_interval_seconds = Some(i64::MAX);
    assert_eq!(config.meta_store_ttl_ms(), u32::MAX);
}

#[test]
fn configured_timeout_limits_a_call() {
    let mut config = config();
    assert_eq!(config.call_timeout_ms(), 5_000);
    config.timeout = Some(250);
    assert_eq!(login_request(&config, 0).unwrap().timeout, Duration::from_millis(250));
}

#[test]
fn failures_are_described() {
    let id = "asset-1";
    assert_eq!(FetchError::Budget(Leg::Login).message(id), "budget before Login");
    assert_eq!(FetchError::Budget(Leg::Token).message(id), "budget before JWT");
    assert_eq!(FetchError::Budget(Leg::Search).message(id), "budget before search");
    assert_eq!(FetchError::Status(Leg::Login, 503).message(id), "CDGC login status 503");
    assert_eq!(FetchError::Status(Leg::Token, 401).message(id), "CDGC JWT status 401");
    assert_eq!(FetchError::Status(Leg::Search, 300).message(id), "CDGC search status 300");
    assert_eq!(
        FetchError::Missing(Missing::Asset).message(id),
        "schema asset 'asset-1' not found"
    );
    assert_eq!(
        FetchError::Missing(Missing::Location).message(id),
        "schema asset has no core.location"
    );
    assert_eq!(transport_message(Leg::Token, "timeout"), "CDGC JWT failed: timeout");
}

#[test]
fn json_failures_are_described_with_their_error() {
    let detail = "EOF while parsing a value at line 1 column 0";
    let login = FetchError::Parse(Leg::Login, parse_json(b"").unwrap_err());
    assert_eq!(login.message("a"), format!("parse login: {detail}"));
    let token = FetchError::Parse(Leg::Token, parse_json(b"").unwrap_err());
    assert_eq!(token.message("a"), format!("parse jwt: {detail}"));
    let search = FetchError::Parse(Leg::Search, parse_json(b"").unwrap_err());
    assert_eq!(search.message("a"), format!("parse search: {detail}"));
    assert_eq!(search_reply(200, b"").unwrap_err().message("a"), format!("parse search: {detail}"));
    let encode = FetchError::Encode(parse_json(b"").unwrap_err());
    assert_eq!(encode.message("a"), detail);
}

#[test]
fn stores_are_shared_on_request_only() {
    let mut config = config();
    assert!(!config.is_distributed());
    config.distributed = Some(false);
    assert!(!config.is_distributed());
    config.distributed = Some(true);
    assert!(config.is_distributed());
}
