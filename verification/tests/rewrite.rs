use http::{HeaderMap, HeaderName, HeaderValue};
use pandora_web::configuration::{
    variable, ConfError, RegexMatch, RewriteConf, RewriteRule, RewriteType, VariableInterpolation,
};
use pandora_web::handler::{
    finish_internal, finish_redirect, Address, RewriteAction, RewriteHandler, TargetProblem,
};
use pandora_web::request::{Request, RequestFilterResult};
use pandora_web::response::{Error, Response};
use pandora_web::router::{Path, PathMatch};
use pandora_web::status::StatusCode;

fn rule(
    from: &str,
    from_regex: Option<&str>,
    query_regex: Option<&str>,
    to: &str,
    kind: RewriteType,
) -> RewriteRule {
    RewriteRule {
        from: PathMatch::new(from),
        from_regex: from_regex.map(|regex| RegexMatch::new(regex).unwrap()),
        query_regex: query_regex.map(|regex| RegexMatch::new(regex).unwrap()),
        to: VariableInterpolation::new(to),
        kind,
    }
}

fn internal(from: &str, to: &str) -> RewriteRule {
    rule(from, None, None, to, RewriteType::Internal)
}

fn make_handler(rewrite_rules: Vec<RewriteRule>) -> RewriteHandler {
    RewriteHandler::try_from(RewriteConf { rewrite_rules }).unwrap()
}

fn make_request(uri: &str) -> Request {
    let uri: http::Uri = uri.parse().unwrap();
    Request {
        method: "GET".to_owned(),
        path: uri.path().to_owned(),
        query: uri.query().map(|query| query.to_owned()),
        headers: HeaderMap::new(),
    }
}

fn insert_header(request: &mut Request, name: &str, value: &str) {
    request.headers.insert(
        HeaderName::from_bytes(name.as_bytes()).unwrap(),
        HeaderValue::from_str(value).unwrap(),
    );
}

/// Applies the handler to a request that should be processed further and returns its address
/// afterwards.
fn resulting_uri(handler: &RewriteHandler, uri: &str) -> String {
    request_uri(handler, &make_request(uri), uri)
}

fn request_uri(handler: &RewriteHandler, request: &Request, uri: &str) -> String {
    let action = handler.request_filter(request).unwrap();
    assert_eq!(action.result(), RequestFilterResult::Unhandled);
    match action {
        RewriteAction::Pass | RewriteAction::Unusable(..) => uri.to_owned(),
        RewriteAction::SetUri(address) => {
            assert_eq!(address.uri.to_string(), address.text);
            address.text
        }
        RewriteAction::Respond(_) => panic!("unexpected response"),
    }
}

/// Applies the handler to a request that should be answered and returns the response.
fn resulting_response(handler: &RewriteHandler, uri: &str) -> Response {
    let action = handler.request_filter(&make_request(uri)).unwrap();
    assert_eq!(action.result(), RequestFilterResult::ResponseSent);
    match action {
        RewriteAction::Respond(response) => response,
        _ => panic!("no response"),
    }
}

fn location(response: &Response) -> Option<&str> {
    response
        .headers
        .iter()
        .find(|(name, _)| name == "location")
        .map(|(_, value)| value.as_str())
}

#[test]
fn internal_redirect() {
    let handler = make_handler(vec![internal("/path/*", "/another${tail}")]);

    assert_eq!(resulting_uri(&handler, "/"), "/");
    assert_eq!(resulting_uri(&handler, "/path"), "/another/");
    assert_eq!(resulting_uri(&handler, "/path/"), "/another/");
    assert_eq!(
        resulting_uri(&handler, "/path/file.txt"),
        "/another/file.txt"
    );
}

#[test]
fn conditions() {
    let handler = make_handler(vec![
        rule(
            "/path/*",
            Some("\\.jpg$"),
            None,
            "/another${tail}",
            RewriteType::Internal,
        ),
        rule(
            "/path/image.jpg",
            None,
            Some("query"),
            "/nowhere",
            RewriteType::Internal,
        ),
        rule(
            "/path/*",
            None,
            Some("!^file="),
            "/different?${query}",
            RewriteType::Internal,
        ),
        rule(
            "/*",
            Some(r"^/file\.txt$"),
            Some("!no_redirect"),
            "/other.txt",
            RewriteType::Internal,
        ),
    ]);

    assert_eq!(
        resulting_uri(&handler, "/path/image.jpg"),
        "/another/image.jpg"
    );
    assert_eq!(resulting_uri(&handler, "/path/?a=b"), "/different?a=b");
    assert_eq!(
        resulting_uri(&handler, "/path/image.png?a=b&file=c"),
        "/different?a=b&file=c"
    );
    assert_eq!(
        resulting_uri(&handler, "/path/image.png?file=c"),
        "/path/image.png?file=c"
    );
    assert_eq!(resulting_uri(&handler, "/file.txt"), "/other.txt");
    assert_eq!(
        resulting_uri(&handler, "/file.txt?no_redirect"),
        "/file.txt?no_redirect"
    );
}

#[test]
fn interpolation() {
    let handler = make_handler(vec![internal(
        "/path/*",
        "/another${tail}?${query}&host=${http_host}&test=${http_test_header}",
    )]);

    assert_eq!(
        resulting_uri(&handler, "/path/file.txt"),
        "/another/file.txt?&host=&test="
    );
    assert_eq!(
        resulting_uri(&handler, "/path/file.txt?a=b"),
        "/another/file.txt?a=b&host=&test="
    );

    let mut request = make_request("/path/file.txt?a=b");
    insert_header(&mut request, "Host", "localhost");
    insert_header(&mut request, "Test-Header", "successful");
    assert_eq!(
        request_uri(&handler, &request, "/path/file.txt?a=b"),
        "/another/file.txt?a=b&host=localhost&test=successful"
    );
}

#[test]
fn external_redirect() {
    let handler = make_handler(vec![
        rule(
            "/path/*",
            None,
            None,
            "/another${tail}",
            RewriteType::Permanent,
        ),
        rule(
            "/file.txt",
            None,
            None,
            "https://example.com/?${query}",
            RewriteType::Redirect,
        ),
    ]);

    let response = resulting_response(&handler, "/path/file.txt");
    assert_eq!(response.status, StatusCode::permanent_redirect());
    assert_eq!(response.status.as_u16(), 308);
    assert_eq!(location(&response), Some("/another/file.txt"));

    let response = resulting_response(&handler, "/file.txt?a=b");
    assert_eq!(response.status, StatusCode::temporary_redirect());
    assert_eq!(response.status.as_u16(), 307);
    assert_eq!(location(&response), Some("https://example.com/?a=b"));
}

#[test]
fn rule_order() {
    let query_rule = |from: &str, number: &str| {
        rule(
            from,
            None,
            Some(number),
            &format!("/{number}"),
            RewriteType::Internal,
        )
    };
    let handler = make_handler(vec![
        query_rule("/*", "1"),
        query_rule("/path/*", "2"),
        query_rule("/path/*", "3"),
        query_rule("/path", "4"),
        query_rule("/path", "5"),
    ]);

    assert_eq!(resulting_uri(&handler, "/path?12345"), "/4");
    assert_eq!(resulting_uri(&handler, "/path?1235"), "/5");
    assert_eq!(resulting_uri(&handler, "/path?123"), "/2");
    assert_eq!(resulting_uri(&handler, "/path?13"), "/3");
    assert_eq!(resulting_uri(&handler, "/path?1"), "/1");
}

#[test]
fn rule_order_is_independent_of_specificity_in_configuration() {
    // The same rules, listed the other way round
    let handler = make_handler(vec![
        internal("/path", "/exact"),
        internal("/path/sub/*", "/longer"),
        internal("/*", "/all"),
        internal("/path/*", "/prefix"),
        internal("/path/*", "/late"),
    ]);
    assert_eq!(resulting_uri(&handler, "/path"), "/exact");
    assert_eq!(resulting_uri(&handler, "/path/other"), "/prefix");
    assert_eq!(resulting_uri(&handler, "/path/sub/file"), "/longer");
    assert_eq!(resulting_uri(&handler, "/pathology"), "/all");
}

#[test]
fn no_rules() {
    let handler = make_handler(vec![]);
    assert_eq!(resulting_uri(&handler, "/path?query"), "/path?query");
}

#[test]
fn invalid_uri_stops_processing() {
    // The more specific rule decides even though its result is not an address.
    let handler = make_handler(vec![
        internal("/path", "/with space"),
        internal("/*", "/other"),
    ]);
    assert_eq!(resulting_uri(&handler, "/path"), "/path");
    match handler.request_filter(&make_request("/path")).unwrap() {
        RewriteAction::Unusable(problem, target) => {
            assert_eq!(problem, TargetProblem::NotUri);
            assert_eq!(target, b"/with space");
        }
        _ => panic!("usable target"),
    }
    assert_eq!(resulting_uri(&handler, "/something"), "/other");
    assert!(matches!(
        make_handler(vec![internal("/path", "/other")])
            .request_filter(&make_request("/"))
            .unwrap(),
        RewriteAction::Pass
    ));
}

#[test]
fn fragment_is_removed() {
    let handler = make_handler(vec![internal("/*", "/target?a#fragment")]);
    assert_eq!(resulting_uri(&handler, "/"), "/target?a");
}

#[test]
fn uri_without_path_at_length_limit() {
    // Accepted as an address, even though its text is too long to be parsed as one.
    let target = format!("http://{}", "a".repeat(65534 - 7));
    let handler = make_handler(vec![internal("/*", &target)]);
    match handler.request_filter(&make_request("/")).unwrap() {
        RewriteAction::SetUri(address) => {
            assert_eq!(address.uri.path(), "/");
            assert_eq!(address.text, format!("{target}/"));
            assert!(address.text.parse::<http::Uri>().is_err());
        }
        _ => panic!("no address"),
    }
}

#[test]
fn absolute_uri() {
    let handler = make_handler(vec![internal("/*", "https://example.com")]);
    assert_eq!(resulting_uri(&handler, "/"), "https://example.com/");
}

#[test]
fn redirect_with_opaque_header() {
    let handler = make_handler(vec![rule(
        "/*",
        None,
        None,
        "/${http_x}",
        RewriteType::Redirect,
    )]);
    let mut request = make_request("/");
    request.headers.insert(
        HeaderName::from_static("x"),
        HeaderValue::from_bytes(b"\xff").unwrap(),
    );
    // Not valid UTF-8, no redirect
    assert_eq!(request_uri(&handler, &request, "/"), "/");
}

#[test]
fn redirect_with_invalid_location() {
    let handler = make_handler(vec![rule(
        "/*",
        None,
        None,
        "/a\nb",
        RewriteType::Permanent,
    )]);
    assert_eq!(
        handler.request_filter(&make_request("/")).unwrap_err(),
        Error::InvalidHeader
    );
}

#[test]
fn redirect_on_head_request() {
    let handler = make_handler(vec![rule(
        "/*",
        None,
        None,
        "/target",
        RewriteType::Redirect,
    )]);
    let mut request = make_request("/");
    request.method = "HEAD".to_owned();
    match handler.request_filter(&request).unwrap() {
        RewriteAction::Respond(response) => {
            assert_eq!(location(&response), Some("/target"));
            assert_eq!(response.body, None);
        }
        _ => panic!("no response"),
    }
}

#[test]
fn actions_from_results() {
    match finish_internal(b"/a b".to_vec(), None) {
        RewriteAction::Unusable(problem, target) => {
            assert_eq!(problem, TargetProblem::NotUri);
            assert_eq!(target, b"/a b");
        }
        _ => panic!("usable target"),
    }
    let address = Address {
        uri: "/uri".parse().unwrap(),
        text: "/uri".to_owned(),
    };
    match finish_internal(b"/uri#x".to_vec(), Some(address)) {
        RewriteAction::SetUri(address) => {
            assert_eq!(address.uri.path(), "/uri");
            assert_eq!(address.text, "/uri");
        }
        _ => panic!("no address"),
    }
    let status = StatusCode::temporary_redirect();
    match finish_redirect("GET", status, vec![0xc3]).unwrap() {
        RewriteAction::Unusable(problem, target) => {
            assert_eq!(problem, TargetProblem::NotText);
            assert_eq!(target, [0xc3]);
        }
        _ => panic!("usable target"),
    }
    match finish_redirect("GET", status, "/ü".as_bytes().to_vec()).unwrap() {
        RewriteAction::Respond(response) => assert_eq!(location(&response), Some("/ü")),
        _ => panic!("no response"),
    }
}

#[test]
fn regex_conditions() {
    let regex = RegexMatch::new("^file=").unwrap();
    assert!(regex.matches("file=c"));
    assert!(!regex.matches("a=b&file=c"));
    assert!(regex.finds("file=c"));
    assert!(regex.holds_if_found(true));

    let negated = RegexMatch::new("!^file=").unwrap();
    assert!(!negated.matches("file=c"));
    assert!(negated.matches("a=b&file=c"));
    assert!(negated.finds("file=c"));
    assert!(!negated.holds_if_found(true));
    assert!(negated.holds_if_found(false));

    assert_eq!(RegexMatch::new("(").unwrap_err(), ConfError::InvalidRegex);
    assert_eq!(RegexMatch::new("!(").unwrap_err(), ConfError::InvalidRegex);
    assert!(RegexMatch::new("").unwrap().matches("anything"));
    assert!(!RegexMatch::new("!").unwrap().matches("anything"));
}

#[test]
fn rule_conditions() {
    let path = Path::new(b"/path/file");
    let both = rule(
        "/path/*",
        Some("a"),
        Some("!b"),
        "/",
        RewriteType::Internal,
    );
    assert!(both.applies_if_found(&path, true, false));
    assert!(!both.applies_if_found(&path, false, false));
    assert!(!both.applies_if_found(&path, true, true));
    assert!(!both.applies_if_found(&Path::new(b"/other"), true, false));
    let none = internal("/path/file", "/");
    assert!(none.applies_if_found(&path, false, false));
    assert!(none.applies_if_found(&path, true, true));
}

#[test]
fn rule_target() {
    let request = make_request("/path//file?x");
    let prefix = internal("/path/*", "${tail}|${query}");
    assert_eq!(prefix.target(&request), b"//file|x");
    // A rule that does not select the path has all of it as tail.
    let other = internal("/other/*", "${tail}");
    assert_eq!(other.target(&request), b"/path//file");
}

#[test]
fn templates() {
    let mut request = make_request("/?q=1");
    insert_header(&mut request, "X-Some-Thing", "Value");
    let expand = |template: &str| {
        let result = VariableInterpolation::new(template).interpolate(&request, b"/tail");
        String::from_utf8(result).unwrap()
    };
    assert_eq!(expand(""), "");
    assert_eq!(expand("no variables"), "no variables");
    assert_eq!(expand("${tail}${query}"), "/tailq=1");
    assert_eq!(expand("${http_x_some_thing}"), "Value");
    assert_eq!(expand("${http_X_SOME_THING}"), "Value");
    assert_eq!(expand("${http_missing}."), ".");
    assert_eq!(expand("${http_}."), ".");
    assert_eq!(expand("${unknown} ${Tail} ${}"), "${unknown} ${Tail} ${}");
    assert_eq!(expand("$tail $ ${tail"), "$tail $ ${tail");
    assert_eq!(expand("$${tail}}"), "$/tail}");
    assert_eq!(expand("${${tail}"), "${${tail}");
    assert_eq!(expand("ü${tail}ü"), "ü/tailü");
}

#[test]
fn variables() {
    let mut request = make_request("/");
    insert_header(&mut request, "Host", "localhost");
    request.headers.append(
        HeaderName::from_static("host"),
        HeaderValue::from_static("second"),
    );
    assert_eq!(variable(&request, b"t", b"tail"), Some(b"t".to_vec()));
    assert_eq!(variable(&request, b"t", b"query"), Some(vec![]));
    assert_eq!(
        variable(&request, b"t", b"http_host"),
        Some(b"localhost".to_vec())
    );
    assert_eq!(variable(&request, b"t", b"http_invalid name"), Some(vec![]));
    assert_eq!(variable(&request, b"t", b"http"), None);
    assert_eq!(variable(&request, b"t", b"host"), None);
}

#[test]
fn handlers_can_be_compared() {
    let listed = || {
        vec![
            internal("/b/*", "/1"),
            internal("/a/*", "/2"),
            internal("/a", "/3"),
            rule("/a/*", Some("x"), Some("!y"), "/4", RewriteType::Redirect),
        ]
    };
    let handler = make_handler(listed());
    assert_eq!(handler, make_handler(listed()));
    assert_eq!(handler, handler.clone());
    assert_eq!(resulting_uri(&handler.clone(), "/a"), "/3");

    // The order of rules for different paths makes no difference.
    let mut rules = listed();
    rules.swap(0, 1);
    assert_eq!(handler, make_handler(rules));
    let mut rules = listed();
    rules.swap(1, 2);
    assert_eq!(handler, make_handler(rules));

    // The order of rules for the same paths does.
    let mut rules = listed();
    rules.swap(1, 3);
    assert_ne!(handler, make_handler(rules));

    // So does each part of a rule.
    let variants = [
        rule("/a", Some("x"), Some("!y"), "/4", RewriteType::Redirect),
        rule("/a/*", Some("z"), Some("!y"), "/4", RewriteType::Redirect),
        rule("/a/*", None, Some("!y"), "/4", RewriteType::Redirect),
        rule("/a/*", Some("x"), Some("y"), "/4", RewriteType::Redirect),
        rule("/a/*", Some("x"), Some("!y"), "/5", RewriteType::Redirect),
        rule("/a/*", Some("x"), Some("!y"), "/4", RewriteType::Permanent),
    ];
    for variant in variants {
        let mut rules = listed();
        assert_ne!(rules[3], variant);
        rules[3] = variant;
        assert_ne!(handler, make_handler(rules));
    }
    let mut rules = listed();
    rules.pop();
    assert_ne!(handler, make_handler(rules));
}

#[test]
fn regex_copies() {
    let regex = RegexMatch::new("!^file=").unwrap();
    let copy = regex.clone();
    assert_eq!(regex, copy);
    assert!(!copy.matches("file=c"));
    assert!(copy.matches("a=b"));
    assert_ne!(regex, RegexMatch::new("^file=").unwrap());
    assert_ne!(regex, RegexMatch::new("!file=").unwrap());
}
