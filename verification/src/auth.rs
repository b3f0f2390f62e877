//! Authentication at the catalog: a login, and then a token for its session.

use crate::calls::{
    failed_status, is_call, is_posted, post_json, FetchError, Leg, OutboundCall, Service,
};
use crate::cdgc::{nonce_from_time, time_nonce};
use crate::clock::{call_limit_ms, next_call_timeout, DEFAULT_TIMEOUT_MS};
use crate::config::Config;
use crate::fields::header_texts;
use crate::json::{body_members_view, member, member_text, Body, JsonView};
use std::time::SystemTime;
use vstd::prelude::*;
use vstd::string::*;

verus! {

/// The answer to a login.
#[derive(Debug)]
pub struct CdgcLoginResponse {
    pub session_id: String,
    pub org_id: String,
}

/// The answer to a token request.
#[derive(Debug)]
pub struct CdgcJwtResponse {
    pub jwt_token: String,
}

/// What the search calls authenticate with.
#[derive(Debug)]
pub struct Session {
    pub jwt: String,
    pub org: String,
}

/// The configured milliseconds of one call.
pub open spec fn per_call_ms(config: Config) -> int {
    match config.timeout {
        Some(millis) => millis as int,
        None => DEFAULT_TIMEOUT_MS as int,
    }
}

/// The body of a login: the user name and the password.
pub open spec fn login_body(username: Seq<char>, password: Seq<char>) -> JsonView {
    JsonView::Object(
        map![
            "username"@ => JsonView::Text(username),
            "password"@ => JsonView::Text(password),
        ],
    )
}

/// Prepares the login.
pub fn login_request(config: &Config, elapsed: i64) -> (r: Result<OutboundCall, FetchError>)
    ensures
        is_posted(
            r,
            Leg::Login,
            Service::Login,
            "/identity-service/api/v1/Login"@,
            seq![("Content-Type"@, "application/json"@)],
            login_body(config.cdgc_org_username@, config.cdgc_org_password@),
            call_limit_ms(per_call_ms(*config), elapsed as int),
        ),
{
    let mut members: Vec<(String, Body)> = Vec::new();
    members.push(("username".to_string(), Body::Text(config.cdgc_org_username.clone())));
    members.push(("password".to_string(), Body::Text(config.cdgc_org_password.clone())));
    let body = Body::Object(members);
    let mut headers: Vec<(String, String)> = Vec::new();
    headers.push(("Content-Type".to_string(), "application/json".to_string()));
    proof {
        reveal_with_fuel(body_members_view, 3);
        assert(members@.drop_last().drop_last() =~= Seq::<(String, Body)>::empty());
        assert(body.view() == login_body(config.cdgc_org_username@, config.cdgc_org_password@)) by {
            assert(body_members_view(members@) =~= login_body(
                config.cdgc_org_username@,
                config.cdgc_org_password@,
            )->Object_0);
        }
        assert(header_texts(headers@) =~= seq![("Content-Type"@, "application/json"@)]);
    }
    post_json(
        Leg::Login,
        Service::Login,
        "/identity-service/api/v1/Login".to_string(),
        headers,
        &body,
        config.call_timeout_ms(),
        elapsed,
    )
}

/// Reads the answer to a login: its status, and what its body says or the words of
/// the error that it could not be read.
pub fn login_reply(
    status: u32,
    parsed: Result<CdgcLoginResponse, String>,
) -> (r: Result<CdgcLoginResponse, FetchError>)
    ensures
        if failed_status(status) {
            r matches Err(FetchError::Status(at, s)) && at == Leg::Login && s == status
        } else {
            match parsed {
                Ok(login) => r matches Ok(out) && out == login,
                Err(e) => r matches Err(FetchError::Parse(at, out)) && at == Leg::Login && out
                    == e,
            }
        },
{
    if status >= 300 {
        return Err(FetchError::Status(Leg::Login, status));
    }
    match parsed {
        Ok(login) => Ok(login),
        Err(e) => Err(FetchError::Parse(Leg::Login, e)),
    }
}

/// Prepares the token request of a session. The nonce is that of the point in time `nonce_at`.
pub fn token_request(
    config: &Config,
    login: &CdgcLoginResponse,
    nonce_at: SystemTime,
    elapsed: i64,
) -> (r: Result<OutboundCall, FetchError>)
    ensures
        match call_limit_ms(per_call_ms(*config), elapsed as int) {
            Some(limit) => r matches Ok(call) && is_call(
                call,
                Service::Login,
                "/identity-service/api/v1/jwt/Token?client_id=idmc_api&nonce="@ + time_nonce(
                    nonce_at,
                ),
                seq![
                    ("cookie"@, "USER_SESSION="@ + login.session_id@),
                    ("IDS-SESSION-ID"@, login.session_id@),
                ],
                None,
                limit,
            ),
            None => r matches Err(FetchError::Budget(at)) && at == Leg::Token,
        },
{
    let nonce = nonce_from_time(nonce_at);
    let path = "/identity-service/api/v1/jwt/Token?client_id=idmc_api&nonce=".to_string().concat(
        nonce.as_str(),
    );
    let cookie = "USER_SESSION=".to_string().concat(login.session_id.as_str());
    let mut headers: Vec<(String, String)> = Vec::new();
    headers.push(("cookie".to_string(), cookie));
    headers.push(("IDS-SESSION-ID".to_string(), login.session_id.clone()));
    assert(header_texts(headers@) =~= seq![
        ("cookie"@, "USER_SESSION="@ + login.session_id@),
        ("IDS-SESSION-ID"@, login.session_id@),
    ]);
    match next_call_timeout(config.call_timeout_ms(), elapsed) {
        Some(timeout) => Ok(
            OutboundCall { service: Service::Login, path, headers, body: None, timeout },
        ),
        None => Err(FetchError::Budget(Leg::Token)),
    }
}

/// Reads the answer to a token request: its status, and what its body says or the words of
/// the error that it could not be read.
pub fn token_reply(
    status: u32,
    parsed: Result<CdgcJwtResponse, String>,
    login: CdgcLoginResponse,
) -> (r: Result<Session, FetchError>)
    ensures
        if failed_status(status) {
            r matches Err(FetchError::Status(at, s)) && at == Leg::Token && s == status
        } else {
            match parsed {
                Ok(token) => r matches Ok(session) && session.jwt == token.jwt_token && session.org
                    == login.org_id,
                Err(e) => r matches Err(FetchError::Parse(at, out)) && at == Leg::Token && out
                    == e,
            }
        },
{
    if status >= 300 {
        return Err(FetchError::Status(Leg::Token, status));
    }
    match parsed {
        Ok(token) => Ok(Session { jwt: token.jwt_token, org: login.org_id }),
        Err(e) => Err(FetchError::Parse(Leg::Token, e)),
    }
}

/// A login sends the user name and the password, as they are configured, and nothing else.
pub proof fn a_login_sends_the_account(
    username: Seq<char>,
    password: Seq<char>,
    name: Seq<char>,
)
    ensures
        member_text(login_body(username, password), "username"@) == Some(username),
        member_text(login_body(username, password), "password"@) == Some(password),
        name != "username"@ && name != "password"@ ==> member(
            login_body(username, password),
            name,
        ) is None,
{
    reveal_strlit("username");
    reveal_strlit("password");
    assert("username"@[0] == 'u' && "password"@[0] == 'p');
}

/// A call may take as long as is configured, and five seconds where nothing is.
pub proof fn a_call_may_take_as_long_as_configured(config: Config)
    ensures
        config.timeout matches Some(millis) ==> per_call_ms(config) == millis,
        config.timeout is None ==> per_call_ms(config) == 5_000,
{
}

} // verus!
