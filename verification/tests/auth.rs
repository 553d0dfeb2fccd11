use api_ws_demo::auth::extractor::{extract_bearer, require_bearer, user_from_claims};
use api_ws_demo::ws::{require_query_token, WsSecureQuery};
use api_ws_demo::auth::handlers::{
    grant, issue_tokens, login, logout, refresh, refresh_at, register, register_with_salt, Credentials,
    RefreshRequest, ACCESS_TTL_SECS, REFRESH_TTL_SECS,
};
use api_ws_demo::auth::jwt::{
    access_claims, check_expiry, check_expiry_now, claims_for, decode, encode, Claims, JwtError,
};
use api_ws_demo::auth::password::{generate_salt, hash_password, verify_password};
use api_ws_demo::auth::refresh::RefreshRegistry;
use api_ws_demo::auth::user_store::{User, UserStore};
use base64::Engine;
use hmac::Mac;

fn now() -> u64 {
    std::time::SystemTime::now().duration_since(std::time::UNIX_EPOCH).unwrap().as_secs()
}

fn claims_json(sub: &str, iat: u64, exp: u64) -> Vec<u8> {
    format!("{{\"sub\":\"{sub}\",\"iat\":{iat},\"exp\":{exp}}}").into_bytes()
}

fn field(payload: &[u8], name: &str) -> serde_json::Value {
    let v: serde_json::Value = serde_json::from_slice(payload).unwrap();
    v[name].clone()
}

fn hmac(key: &[u8], data: &[u8]) -> Vec<u8> {
    let mut mac = <hmac::Hmac<sha2::Sha256> as Mac>::new_from_slice(key).unwrap();
    mac.update(data);
    mac.finalize().into_bytes().to_vec()
}

#[test]
fn round_trip_valid_token() {
    let secret = b"test-secret";
    let claims = claims_json("alice", now(), now() + 900);
    let token = encode(&claims, secret);
    let decoded = decode(&token, secret).unwrap();
    assert_eq!(field(&decoded, "sub"), "alice");
}

#[test]
fn rejects_bad_signature() {
    let claims = claims_json("alice", now(), now() + 900);
    let token = encode(&claims, b"secret-a");
    assert!(matches!(decode(&token, b"secret-b"), Err(JwtError::BadSignature)));
}

#[test]
fn rejects_expired_token() {
    let claims = claims_json("alice", now() - 100, now() - 1);
    let secret = b"test-secret";
    let token = encode(&claims, secret);
    let payload = decode(&token, secret).unwrap();
    let exp = field(&payload, "exp").as_u64().unwrap();
    let claims = Claims { sub: "alice".to_string(), iat: now() - 100, exp };
    assert!(matches!(check_expiry_now(claims), Err(JwtError::Expired)));
}

#[test]
fn tokens_have_the_hs256_header_and_signature() {
    let secret = b"k";
    let token = encode(b"{}", secret);
    let parts: Vec<&str> = token.split('.').collect();
    assert_eq!(parts.len(), 3);
    assert_eq!(parts[0], "eyJhbGciOiJIUzI1NiIsInR5cCI6IkpXVCJ9");
    assert_eq!(parts[1], "e30");
    let expected = hmac(secret, format!("{}.{}", parts[0], parts[1]).as_bytes());
    assert_eq!(parts[2], base64::engine::general_purpose::URL_SAFE_NO_PAD.encode(expected));
}

#[test]
fn malformed_tokens_are_refused() {
    let secret = b"k";
    assert!(matches!(decode("", secret), Err(JwtError::Malformed)));
    assert!(matches!(decode("a.b", secret), Err(JwtError::Malformed)));
    assert!(matches!(decode("a.b.c.d", secret), Err(JwtError::Malformed)));
    assert!(matches!(decode("a.b.!!!", secret), Err(JwtError::Malformed)));
    let sig = hmac(secret, b"h.%%");
    let token = format!("h.%%.{}", base64::engine::general_purpose::URL_SAFE_NO_PAD.encode(sig));
    assert!(matches!(decode(&token, secret), Err(JwtError::Malformed)));
    let token = encode(b"{\"sub\":\"x\"}", secret);
    let tampered = token.replacen("eyJ", "eyK", 1);
    assert!(matches!(decode(&tampered, secret), Err(JwtError::BadSignature)));
}

#[test]
fn expiry_is_checked_against_the_given_time() {
    let c = Claims { sub: "a".to_string(), iat: 0, exp: 100 };
    assert!(check_expiry(c, 100).is_ok());
    let c = Claims { sub: "a".to_string(), iat: 0, exp: 100 };
    assert!(matches!(check_expiry(c, 101), Err(JwtError::Expired)));
}

#[test]
fn access_claims_expire_after_their_lifetime() {
    let c = access_claims("bob", 1_000, ACCESS_TTL_SECS);
    assert_eq!(c.sub, "bob");
    assert_eq!(c.iat, 1_000);
    assert_eq!(c.exp, 1_900);
    assert_eq!(access_claims("bob", u64::MAX - 1, 900).exp, u64::MAX);
    let c = claims_for("carol", 60);
    assert_eq!(c.exp, c.iat + 60);
}

#[test]
fn password_hash_is_hmac_of_the_password_under_the_salt() {
    let salt = [7u8; 16];
    let h = hash_password("hunter2", &salt);
    assert_eq!(h.to_vec(), hmac(&salt, b"hunter2"));
    assert!(verify_password("hunter2", &salt, &h));
    assert!(!verify_password("hunter3", &salt, &h));
    let other = generate_salt();
    assert_eq!(other.len(), 16);
}

#[test]
fn refresh_tokens_rotate_once() {
    let mut reg = RefreshRegistry::new();
    let id = reg.issue_at("alice", 100, 1_000, 11);
    assert_eq!(id, 11);
    assert_eq!(reg.rotate_at(11, 100, 1_050, 12).map(|(i, u)| (i, u)), Some((12, "alice".to_string())));
    assert_eq!(reg.rotate_at(11, 100, 1_050, 13), None);
    assert_eq!(reg.rotate_at(12, 100, 1_150, 14), Some((14, "alice".to_string())));
}

#[test]
fn expired_or_revoked_refresh_tokens_are_refused() {
    let mut reg = RefreshRegistry::new();
    reg.issue_at("alice", 100, 1_000, 1);
    assert_eq!(reg.rotate_at(1, 100, 1_100, 2), Some((2, "alice".to_string())));
    assert_eq!(reg.rotate_at(2, 100, 1_201, 3), None);
    assert_eq!(reg.rotate_at(2, 100, 1_100, 3), None);
    reg.issue_at("bob", 100, 1_000, 5);
    reg.revoke(5);
    assert_eq!(reg.rotate_at(5, 100, 1_000, 6), None);
    let fresh = reg.issue("carol", 100);
    assert!(reg.rotate(fresh, 100).is_some());
}

fn creds(u: &str, p: &str) -> Credentials {
    Credentials { username: u.to_string(), password: p.to_string() }
}

#[test]
fn registration_rules() {
    let mut store = UserStore::new();
    let e = register_with_salt(&mut store, &creds("", "pw"), [0; 16]).unwrap_err();
    assert_eq!((e.status, e.code, e.message.as_str()), (400, 400, "username and password are required"));
    let e = register_with_salt(&mut store, &creds("alice", ""), [0; 16]).unwrap_err();
    assert_eq!(e.status, 400);
    assert_eq!(register_with_salt(&mut store, &creds("alice", "pw"), [1; 16]).unwrap(), "alice");
    let e = register(&mut store, &creds("alice", "other")).unwrap_err();
    assert_eq!((e.status, e.code, e.message.as_str()), (409, 409, "username already registered"));
    let u = store.find("alice").unwrap();
    assert_eq!(u.salt, [1; 16]);
    assert_eq!(u.password_hash, hash_password("pw", &[1; 16]));
    assert!(store.contains("alice"));
    assert!(!store.contains("bob"));
}

#[test]
fn login_checks_the_password() {
    let mut store = UserStore::new();
    register(&mut store, &creds("alice", "pw")).unwrap();
    assert_eq!(login(&store, &creds("alice", "pw")).unwrap(), "alice");
    let e = login(&store, &creds("alice", "nope")).unwrap_err();
    assert_eq!((e.status, e.code, e.message.as_str()), (401, 401, "invalid username or password"));
    let e = login(&store, &creds("bob", "pw")).unwrap_err();
    assert_eq!(e.message, "invalid username or password");
}

#[test]
fn refresh_and_logout_endpoints() {
    let mut reg = RefreshRegistry::new();
    let e = refresh_at(&mut reg, &RefreshRequest { refresh_token: "nope".to_string() }, 0, 1).unwrap_err();
    assert_eq!((e.status, e.message.as_str()), (401, "invalid refresh token"));
    let text = "00000000-0000-0000-0000-00000000000a";
    let e = refresh_at(&mut reg, &RefreshRequest { refresh_token: text.to_string() }, 0, 1).unwrap_err();
    assert_eq!(e.message, "refresh token invalid, expired, or already used");
    reg.issue_at("alice", REFRESH_TTL_SECS, 0, 10);
    let (id, user) = refresh_at(&mut reg, &RefreshRequest { refresh_token: text.to_string() }, 5, 77).unwrap();
    assert_eq!((id, user.as_str()), (77, "alice"));
    let again = RefreshRequest { refresh_token: "00000000-0000-0000-0000-00000000004d".to_string() };
    logout(&mut reg, &again);
    assert!(refresh(&mut reg, &again).is_err());
    logout(&mut reg, &RefreshRequest { refresh_token: "garbage".to_string() });
}

#[test]
fn login_grants_an_access_and_a_refresh_token() {
    let mut reg = RefreshRegistry::new();
    let claims = claims_json("alice", 1, 901);
    let g = issue_tokens(&mut reg, b"s", "alice", &claims);
    assert_eq!(g.token_type, "Bearer");
    assert_eq!(g.expires_in, 900);
    assert_eq!(decode(&g.access_token, b"s").unwrap(), claims);
    let req = RefreshRequest { refresh_token: g.refresh_token.clone() };
    assert_eq!(refresh(&mut reg, &req).unwrap().1, "alice");
    let g = grant("tok".to_string(), 0x0102);
    assert_eq!(g.refresh_token, "00000000-0000-0000-0000-000000000102");
    assert_eq!(g.access_token, "tok");
}

#[test]
fn bearer_tokens_and_authenticated_users() {
    assert_eq!(extract_bearer(Some("Bearer abc")), Some("abc".to_string()));
    assert_eq!(extract_bearer(Some("bearer abc")), None);
    assert_eq!(extract_bearer(None), None);
    assert_eq!(require_bearer(Some("Bearer ")).unwrap(), "");
    let e = require_bearer(Some("Basic x")).unwrap_err();
    assert_eq!((e.status, e.message.as_str()), (401, "missing bearer token"));
    let u = user_from_claims(Ok(Claims { sub: "al".to_string(), iat: 0, exp: 0 })).unwrap();
    assert_eq!(u.username, "al");
    let e = user_from_claims(Err(JwtError::Expired)).unwrap_err();
    assert_eq!((e.status, e.message.as_str()), (401, "invalid or expired token"));
    let e = require_query_token(WsSecureQuery { token: None }).unwrap_err();
    assert_eq!(e.message, "missing token query parameter");
    assert_eq!(require_query_token(WsSecureQuery { token: Some("t".to_string()) }).unwrap(), "t");
}

#[test]
fn storing_a_user_again_replaces_it() {
    let mut store = UserStore::new();
    store.insert(User { username: "al".to_string(), salt: [1; 16], password_hash: [2; 32] });
    store.insert(User { username: "bo".to_string(), salt: [5; 16], password_hash: [6; 32] });
    store.insert(User { username: "al".to_string(), salt: [3; 16], password_hash: [4; 32] });
    let u = store.find("al").unwrap();
    assert_eq!((u.salt, u.password_hash), ([3; 16], [4; 32]));
    assert_eq!(store.find("bo").unwrap().salt, [5; 16]);
}
