use contract_metadata_injection::claims::claim_text;

/// The header is `{"alg":"HS256"}`, the payload `{"dp":"asset-9","n":7,"exp":1}`.
const TOKEN: &str = "eyJhbGciOiJIUzI1NiJ9.eyJkcCI6ImFzc2V0LTkiLCJuIjo3LCJleHAiOjF9.";

/// The header `{"typ":"JWT"}` names no algorithm.
const UNREADABLE: &str = "eyJ0eXAiOiJKV1QifQ.eyJkcCI6ImFzc2V0LTkifQ.";

#[test]
fn text_claim_is_read() {
    assert_eq!(claim_text(TOKEN.to_string(), "dp"), Some("asset-9".to_string()));
}

#[test]
fn claim_that_is_no_text_is_none() {
    assert_eq!(claim_text(TOKEN.to_string(), "n"), None);
    assert_eq!(claim_text(TOKEN.to_string(), "exp"), None);
    assert_eq!(claim_text(TOKEN.to_string(), "missing"), None);
}

#[test]
fn token_that_cannot_be_read_has_no_claims() {
    assert_eq!(claim_text(UNREADABLE.to_string(), "dp"), None);
    assert_eq!(claim_text("not a token".to_string(), "dp"), None);
    assert_eq!(claim_text(String::new(), "dp"), None);
}
