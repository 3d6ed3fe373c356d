use http::{HeaderMap, HeaderName, HeaderValue};
use pandora_web::basic::{
    basic_auth, credentials, credentials_parsed, encoded_credentials, finish_credentials,
    login_validated, rate_limit_checked, split_credentials, unauthorized_response,
    unauthorized_text, AuthStep, Credentials, Rejection,
};
use pandora_web::request::{Request, RequestFilterResult};
use pandora_web::response::{Error, Response};
use pandora_web::standard_response::response_text;
use pandora_web::status::StatusCode;

const REALM: &str = "Protected area";

fn make_request(authorization: Option<&[u8]>) -> Request {
    let mut headers = HeaderMap::new();
    if let Some(value) = authorization {
        headers.insert(
            HeaderName::from_static("authorization"),
            HeaderValue::from_bytes(value).unwrap(),
        );
    }
    Request {
        method: "GET".to_owned(),
        path: "/".to_owned(),
        query: None,
        headers,
    }
}

/// Stands in for the password database with the users `me` and `another`.
fn is_valid(credentials: &Credentials) -> bool {
    match credentials.user.as_str() {
        "me" => credentials.password == b"test",
        "another" => credentials.password == b"test2",
        _ => false,
    }
}

fn handle_request(request: &Request, limited: bool, suggestion: Option<String>) -> AuthStep {
    let mut step = basic_auth(request, REALM).unwrap();
    loop {
        step = match step {
            AuthStep::CheckRateLimit(credentials) => {
                rate_limit_checked(credentials, limited, &request.method).unwrap()
            }
            AuthStep::ValidateLogin(credentials) => {
                let valid = is_valid(&credentials);
                login_validated(
                    credentials,
                    valid,
                    suggestion.clone(),
                    &request.method,
                    REALM,
                )
                .unwrap()
            }
            step => return step,
        }
    }
}

fn response_to(authorization: Option<&[u8]>) -> Response {
    let step = handle_request(&make_request(authorization), false, None);
    assert_eq!(step.result(), Some(RequestFilterResult::ResponseSent));
    match step {
        AuthStep::Respond(response) => response,
        _ => panic!("no response"),
    }
}

fn check_unauthorized_response(response: &Response) {
    let unauthorized_response = response_text(StatusCode::unauthorized());
    assert_eq!(response.status.as_u16(), 401);
    assert_eq!(
        response.headers,
        vec![
            (
                "content-length".to_owned(),
                unauthorized_response.len().to_string()
            ),
            (
                "content-type".to_owned(),
                "text/html;charset=utf-8".to_owned()
            ),
            (
                "www-authenticate".to_owned(),
                "Basic realm=\"Protected area\"".to_owned()
            ),
        ]
    );
    assert_eq!(response.body, Some(unauthorized_response));
}

#[test]
fn no_auth_header() {
    check_unauthorized_response(&response_to(None));
    assert_eq!(
        credentials(&make_request(None)).unwrap_err(),
        Rejection::MissingHeader
    );
}

#[test]
fn unknown_auth_scheme() {
    check_unauthorized_response(&response_to(Some(b"Unknown bWU6dGVzdA==")));
    assert_eq!(
        credentials(&make_request(Some(b"Unknown bWU6dGVzdA=="))).unwrap_err(),
        Rejection::UnsupportedScheme
    );
}

#[test]
fn missing_credentials() {
    check_unauthorized_response(&response_to(Some(b"Basic")));
    assert_eq!(
        encoded_credentials(&make_request(Some(b"Basic"))).unwrap_err(),
        Rejection::UnsupportedScheme
    );
}

#[test]
fn credentials_no_colon() {
    // Credentials without colon
    check_unauthorized_response(&response_to(Some(b"Basic bWV0ZXN0")));
    let result = credentials(&make_request(Some(b"Basic bWV0ZXN0"))).unwrap();
    assert_eq!(result.user, "");
    assert_eq!(result.password, b"");
}

#[test]
fn wrong_credentials() {
    check_unauthorized_response(&response_to(Some(b"Basic bWU6dGVzdDI=")));
    let result = credentials(&make_request(Some(b"Basic bWU6dGVzdDI="))).unwrap();
    assert_eq!(result.user, "me");
    assert_eq!(result.password, b"test2");
}

#[test]
fn wrong_user_name() {
    check_unauthorized_response(&response_to(Some(b"Basic eW91OnRlc3Q=")));
    let result = credentials(&make_request(Some(b"Basic eW91OnRlc3Q="))).unwrap();
    assert_eq!(result.user, "you");
    assert_eq!(result.password, b"test");
}

#[test]
fn correct_credentials() {
    let step = handle_request(&make_request(Some(b"Basic bWU6dGVzdA==")), false, None);
    assert_eq!(step.result(), Some(RequestFilterResult::Unhandled));
    match step {
        AuthStep::Accept(user) => assert_eq!(user, "me"),
        _ => panic!("not accepted"),
    }
}

#[test]
fn display_hash() {
    let request = make_request(Some(b"Basic JzxtZT4nOnRlc3Q="));
    let step = handle_request(
        &request,
        false,
        Some("auth_credentials:\n    \"'<me>'\": $2b$12$abc".to_owned()),
    );
    match step {
        AuthStep::Respond(response) => {
            let body = response.body.unwrap();
            assert!(body.contains("&quot;'&lt;me&gt;'&quot;: $2b$"));
            assert_eq!(response.headers[0].1, body.len().to_string());
        }
        _ => panic!("no response"),
    }
    assert_eq!(credentials(&request).unwrap().user, "'<me>'");
}

#[test]
fn rate_limiting() {
    let request = make_request(Some(b"Basic bWU6dGVzdA=="));
    for _ in 0..4 {
        let step = handle_request(&request, false, None);
        assert_eq!(step.result(), Some(RequestFilterResult::Unhandled));
    }

    match handle_request(&request, true, None) {
        AuthStep::Respond(response) => {
            assert_eq!(response.status, StatusCode::too_many_requests());
            assert_eq!(response.status.as_u16(), 429);
            assert_eq!(
                response.body,
                Some(response_text(StatusCode::too_many_requests()))
            );
        }
        _ => panic!("no response"),
    }
}

#[test]
fn opaque_auth_header() {
    let request = make_request(Some(b"Basic \xff"));
    assert_eq!(credentials(&request).unwrap_err(), Rejection::NotText);
    check_unauthorized_response(&response_to(Some(b"Basic \xff")));
}

#[test]
fn invalid_base64() {
    for value in [
        "Basic !",
        "Basic bWU6dGVzdA",
        "Basic bWU6dGVzdA=",
        "Basic bWU6dGVzdB==",
        "Basic bWU6_-s=",
        "Basic bWU6====",
        "Basic  bWU6dGVzdA==",
        "Basic bWU6dGVzdA== ",
    ] {
        let request = make_request(Some(value.as_bytes()));
        assert_eq!(credentials(&request).unwrap_err(), Rejection::InvalidBase64);
        check_unauthorized_response(&response_to(Some(value.as_bytes())));
    }
    assert_eq!(finish_credentials(None).unwrap_err(), Rejection::InvalidBase64);
}

#[test]
fn authorization_header_is_understood() {
    let cases: [(&[u8], &str, &[u8]); 7] = [
        (b"Basic ", "", b""),
        (b"Basic bWU6", "me", b""),
        (b"Basic bWU6YQ==", "me", b"a"),
        (b"Basic bWU6YWI=", "me", b"ab"),
        (b"Basic bWU6//s=", "me", b"\xff\xfb"),
        (b"Basic bWU6+/A6", "me", b"\xfb\xf0:"),
        (b"Basic w7w6eA==", "\u{fc}", b"x"),
    ];
    for (value, user, password) in cases {
        let result = credentials(&make_request(Some(value))).unwrap();
        assert_eq!(result.user, user);
        assert_eq!(result.password, password);
    }
}

#[test]
fn scheme_is_case_sensitive() {
    let request = make_request(Some(b"basic bWU6dGVzdA=="));
    assert_eq!(
        encoded_credentials(&request).unwrap_err(),
        Rejection::UnsupportedScheme
    );
    let request = make_request(Some(b"Basic bWU6dGVzdA=="));
    assert_eq!(encoded_credentials(&request).unwrap(), b"bWU6dGVzdA==");
    let request = make_request(Some(b"Basic "));
    assert_eq!(encoded_credentials(&request).unwrap(), b"");
}

#[test]
fn credentials_splitting() {
    let result = split_credentials("mü:a:b".as_bytes());
    assert_eq!(result.user, "mü");
    assert_eq!(result.password, b"a:b");

    let result = split_credentials(b":");
    assert_eq!(result.user, "");
    assert_eq!(result.password, b"");

    // The password does not have to be text, the user name does.
    let result = split_credentials(b"\xff:\xff");
    assert_eq!(result.user, "");
    assert_eq!(result.password, b"\xff");

    let result = finish_credentials(Some(b"user:pass".to_vec())).unwrap();
    assert_eq!(result.user, "user");
    assert_eq!(result.password, b"pass");
}

#[test]
fn rejections_are_challenged() {
    for rejection in [
        Rejection::MissingHeader,
        Rejection::NotText,
        Rejection::UnsupportedScheme,
        Rejection::InvalidBase64,
    ] {
        match credentials_parsed(Err(rejection), "GET", REALM).unwrap() {
            AuthStep::Respond(response) => check_unauthorized_response(&response),
            _ => panic!("no response"),
        }
    }
    let parsed = Ok(Credentials {
        user: "me".to_owned(),
        password: vec![1],
    });
    let step = credentials_parsed(parsed, "GET", REALM).unwrap();
    assert_eq!(step.result(), None);
    match step {
        AuthStep::CheckRateLimit(result) => {
            assert_eq!(result.user, "me");
            assert_eq!(result.password, vec![1]);
        }
        _ => panic!("credentials are not checked"),
    }
}

#[test]
fn unauthorized_page() {
    assert_eq!(
        unauthorized_text(None),
        "<!DOCTYPE html><html><head><title>401 Unauthorized</title></head><body><center><h1>401 Unauthorized</h1></center></body></html>"
    );
    assert_eq!(
        unauthorized_text(Some("<&>\"'ü")),
        "<!DOCTYPE html><html><head><title>401 Unauthorized</title></head><body><center><h1>401 Unauthorized</h1></center><p>If you are the administrator of this server, you might want to add the following to your configuration:</p><pre>&lt;&amp;&gt;&quot;'ü</pre></body></html>"
    );
}

#[test]
fn unauthorized_head_response() {
    let get = unauthorized_response("GET", REALM, Some("ü")).unwrap();
    let head = unauthorized_response("HEAD", REALM, Some("ü")).unwrap();
    assert_eq!(head.headers, get.headers);
    assert_eq!(head.body, None);
    // The size is in bytes
    assert_eq!(get.headers[0].1, get.body.unwrap().len().to_string());
}

#[test]
fn invalid_realm() {
    assert_eq!(
        unauthorized_response("GET", "a\r\nb", None).unwrap_err(),
        Error::InvalidHeader
    );
    assert_eq!(
        basic_auth(&make_request(None), "\0").unwrap_err(),
        Error::InvalidHeader
    );
    assert!(basic_auth(&make_request(Some(b"Basic bWU6dGVzdA==")), "\0").is_ok());
}
