//! The OAuth exchange helpers: token-request encoding and token-response
//! parsing, run against the real `url` crate.

use clowder::html::error::Error;
use clowder::html::github::{access_token, access_token_of_pairs, token_request_body, UserData};

#[test]
fn token_request_body_encodes_the_three_fields() {
    let body = token_request_body("my-id", Some("SECRET-REDACTED"), Some("the code")).unwrap();
    assert_eq!(body, "client_id=my-id&client_secret=SECRET-REDACTED&code=the+code");
}

#[test]
fn token_request_body_requires_secret_then_code() {
    match token_request_body("my-id", None, Some("c")) {
        Err(Error::AuthError(m)) => assert_eq!(m, "no GitHub client secret has been set"),
        _ => panic!("expected an authentication error"),
    }
    match token_request_body("my-id", Some("s"), None) {
        Err(Error::AuthError(m)) => assert_eq!(m, "no OAuth code has been set"),
        _ => panic!("expected an authentication error"),
    }
}

#[test]
fn access_token_reads_the_first_relevant_key() {
    let t = access_token("access_token=abc123&scope=repo&token_type=bearer".to_string()).unwrap();
    assert_eq!(t, "abc123");
    // Percent-decoding is applied by the parser.
    let t = access_token("scope=repo&access_token=a%2Bb".to_string()).unwrap();
    assert_eq!(t, "a+b");
}

#[test]
fn access_token_surfaces_the_provider_error() {
    let r = access_token("error=bad_verification_code&error_description=The+code+is+wrong".to_string());
    match r {
        Err(Error::InvalidData(m)) => assert_eq!(m, "The code is wrong"),
        _ => panic!("expected invalid data"),
    }
    assert!(matches!(
        access_token("scope=repo".to_string()),
        Err(Error::InvalidData(_))
    ));
}

#[test]
fn access_token_of_pairs_scans_in_order() {
    let pairs = vec![
        ("scope".to_string(), "repo".to_string()),
        ("access_token".to_string(), "tok".to_string()),
        ("error_description".to_string(), "late".to_string()),
    ];
    assert_eq!(access_token_of_pairs(&pairs).unwrap(), "tok");
    let pairs = vec![("error_description".to_string(), "early".to_string())];
    assert!(matches!(access_token_of_pairs(&pairs), Err(Error::InvalidData(_))));
}

#[test]
fn user_data_exposes_the_login() {
    let u = UserData { login: "octocat".to_string(), avatar_url: None };
    assert_eq!(u.username(), "octocat");
}
