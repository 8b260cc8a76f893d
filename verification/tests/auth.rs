use bencher::auth::{bearer_token, AuthError, AuthUser};
use http::HeaderValue;

fn token_of(text: &'static str) -> Result<String, AuthError> {
    let value = HeaderValue::from_static(text);
    bearer_token(Some(&value))
}

#[test]
fn bearer_token_plain() {
    assert_eq!(token_of("Bearer abc.def.ghi"), Ok("abc.def.ghi".to_string()));
}

#[test]
fn bearer_token_trims_whitespace() {
    assert_eq!(token_of("Bearer   abc \t"), Ok("abc".to_string()));
    assert_eq!(token_of("Bearer \tabc\t"), Ok("abc".to_string()));
}

#[test]
fn bearer_token_after_first_marker() {
    assert_eq!(token_of("Token Bearer x Bearer y"), Ok("x Bearer y".to_string()));
    assert_eq!(token_of("xBearer y"), Ok("y".to_string()));
}

#[test]
fn bearer_token_empty_token() {
    assert_eq!(token_of("Bearer "), Ok(String::new()));
    assert_eq!(token_of("Bearer    "), Ok(String::new()));
}

#[test]
fn bearer_token_missing_header() {
    assert_eq!(bearer_token(None), Err(AuthError::MissingHeader));
}

#[test]
fn bearer_token_invalid_header() {
    let value = HeaderValue::from_bytes(b"Bearer \xff\xfe").unwrap();
    assert_eq!(bearer_token(Some(&value)), Err(AuthError::InvalidHeader));
}

#[test]
fn bearer_token_missing_bearer() {
    assert_eq!(token_of("Basic dXNlcjpwYXNz"), Err(AuthError::MissingBearer));
    assert_eq!(token_of("Bearer\tabc"), Err(AuthError::MissingBearer));
    assert_eq!(token_of("bearer abc"), Err(AuthError::MissingBearer));
    assert_eq!(token_of("Bearer"), Err(AuthError::MissingBearer));
    assert_eq!(token_of(""), Err(AuthError::MissingBearer));
}

#[test]
fn bearer_token_round_trip() {
    for token in ["a", "abc.def", "x y", "tok\ten"] {
        let header = format!("Bearer {}", token);
        let value = HeaderValue::from_str(&header).unwrap();
        assert_eq!(bearer_token(Some(&value)), Ok(token.to_string()));
    }
}

#[test]
fn bearer_token_has_no_outer_whitespace() {
    for text in [" Bearer  a b  ", "Bearer \t x\t", "Bearer  \t "] {
        let value = HeaderValue::from_str(text).unwrap();
        let token = bearer_token(Some(&value)).unwrap();
        assert_eq!(token.trim(), token);
    }
}

#[test]
fn auth_error_messages() {
    assert_eq!(AuthError::MissingHeader.message(), "Missing \"Authorization\" header");
    assert_eq!(AuthError::InvalidHeader.message(), "Invalid \"Authorization\" header");
    assert_eq!(AuthError::MissingBearer.message(), "Missing \"Authorization\" Bearer");
    assert_eq!(AuthError::InvalidJwt.message(), "Invalid JWT (JSON Web Token)");
}

fn user(organizations: Vec<i32>) -> AuthUser<()> {
    AuthUser { id: 7, organizations, projects: vec![4, 5], rbac: () }
}

#[test]
fn organizations_keeps_allowed_in_order() {
    let u = user(vec![10, 20, 30, 40]);
    assert_eq!(u.organizations(&vec![true, false, true, true]), vec![10, 30, 40]);
}

#[test]
fn organizations_missing_check_is_denied() {
    let u = user(vec![10, 20, 30]);
    assert_eq!(u.organizations(&vec![true]), vec![10]);
    assert_eq!(u.organizations(&vec![]), Vec::<i32>::new());
}

#[test]
fn organizations_all_allowed_keeps_all() {
    let u = user(vec![3, 1, 2]);
    assert_eq!(u.organizations(&vec![true, true, true, false]), vec![3, 1, 2]);
}

#[test]
fn organizations_none_allowed_keeps_none() {
    let u = user(vec![3, 1, 2]);
    assert_eq!(u.organizations(&vec![false, false, false]), Vec::<i32>::new());
}

#[test]
fn projects_is_empty() {
    let u = user(vec![1]);
    assert_eq!(u.projects(), Vec::<i32>::new());
    assert_eq!(u.projects.len(), 2);
}
