use poem_todo::auth::{AuthError, BasicAuth, BasicAuthEndpoint, Credentials, Lookup};
use poem_todo::models::User;

fn endpoint() -> BasicAuthEndpoint<&'static str> {
    BasicAuth.transform("inner")
}

fn alice() -> User {
    User { id: 1, name: "alice".to_string(), password: "secret".to_string(), is_admin: false }
}

fn pair(username: &str, password: &str) -> Credentials {
    Credentials { username: username.to_string(), password: password.to_string() }
}

#[test]
fn transform_wraps_the_endpoint() {
    let guarded = BasicAuth.transform(7u32);
    assert_eq!(*guarded.endpoint(), 7);
    assert_eq!(*endpoint().endpoint(), "inner");
}

#[test]
fn basic_header_is_decoded() {
    assert_eq!(endpoint().credentials(Some("Basic YWxpY2U6c2VjcmV0")), Ok(pair("alice", "secret")));
    assert_eq!(
        endpoint().credentials(Some("Basic QWxhZGRpbjpvcGVuIHNlc2FtZQ==")),
        Ok(pair("Aladdin", "open sesame"))
    );
}

#[test]
fn empty_password_and_colons_in_password() {
    assert_eq!(endpoint().credentials(Some("Basic Ym9iOg==")), Ok(pair("bob", "")));
    assert_eq!(
        endpoint().credentials(Some("Basic YWxpY2U6c2U6Y3JldA==")),
        Ok(pair("alice", "se:cret"))
    );
    assert_eq!(endpoint().credentials(Some("Basic OnB3")), Ok(pair("", "pw")));
}

#[test]
fn absent_header_is_missing_credentials() {
    assert_eq!(endpoint().credentials(None), Err(AuthError::MissingCredentials));
}

#[test]
fn malformed_header_is_missing_credentials() {
    let malformed = [
        "",
        "Basic",
        "Basic ",
        "Bearer YWxpY2U6c2VjcmV0",
        "YWxpY2U6c2VjcmV0",
        "Basic not base64!",
        "Basic bm9jb2xvbg==",
        "BasicYWxpY2U6c2VjcmV0",
        "basic YWxpY2U6c2VjcmV0",
        " Basic YWxpY2U6c2VjcmV0",
        "Basic YWxpY2U6c2VjcmV0\n",
        "alice:secret",
    ];
    for header in malformed {
        assert_eq!(
            endpoint().credentials(Some(header)),
            Err(AuthError::MissingCredentials),
            "header {:?}",
            header
        );
    }
}

#[test]
fn decoded_pair_becomes_credentials() {
    assert_eq!(
        Credentials::from_decoded(Some(("alice".to_string(), "secret".to_string()))),
        Ok(pair("alice", "secret"))
    );
    assert_eq!(Credentials::from_decoded(None), Err(AuthError::MissingCredentials));
}

#[test]
fn valid_pair_yields_the_identity() {
    let creds = pair("alice", "secret");
    assert_eq!(endpoint().authenticate(&creds, Lookup::Found(alice())), Ok(alice()));
    // the same pair and the same answer give the same identity again
    assert_eq!(endpoint().authenticate(&creds, Lookup::Found(alice())), Ok(alice()));
}

#[test]
fn unknown_user_is_invalid_credentials() {
    let creds = pair("mallory", "secret");
    let refused = Err(AuthError::InvalidCredentials);
    assert_eq!(endpoint().authenticate(&creds, Lookup::NotFound), refused);
    assert_eq!(endpoint().authenticate(&creds, Lookup::NotFound), refused);
}

#[test]
fn wrong_secret_or_name_is_invalid_credentials() {
    assert_eq!(
        endpoint().authenticate(&pair("alice", "Secret"), Lookup::Found(alice())),
        Err(AuthError::InvalidCredentials)
    );
    assert_eq!(
        endpoint().authenticate(&pair("alice", ""), Lookup::Found(alice())),
        Err(AuthError::InvalidCredentials)
    );
    assert_eq!(
        endpoint().authenticate(&pair("Alice", "secret"), Lookup::Found(alice())),
        Err(AuthError::InvalidCredentials)
    );
}

#[test]
fn failing_directory_is_store_unavailable() {
    assert_eq!(
        endpoint().authenticate(&pair("alice", "secret"), Lookup::Unavailable),
        Err(AuthError::StoreUnavailable)
    );
}

#[test]
fn credentials_are_compared_with_a_user() {
    assert!(pair("alice", "secret").matches_user(&alice()));
    assert!(!pair("alice", "secre").matches_user(&alice()));
    assert!(!pair("alic", "secret").matches_user(&alice()));
}

#[test]
fn header_to_identity() {
    let guarded = endpoint();
    let creds = match guarded.credentials(Some("Basic YWxpY2U6c2VjcmV0")) {
        Ok(creds) => creds,
        Err(error) => panic!("no credentials: {:?}", error),
    };
    assert_eq!(guarded.authenticate(&creds, Lookup::Found(alice())), Ok(alice()));
}
