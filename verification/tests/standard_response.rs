use pandora_web::response::{Error, Response};
use pandora_web::standard_response::{error_response, redirect_response, response, response_text, titled};
use pandora_web::status::StatusCode;

fn status(code: u16) -> StatusCode {
    StatusCode::from_u16(code).unwrap()
}

fn header<'a>(response: &'a Response, name: &str) -> Option<&'a str> {
    response
        .headers
        .iter()
        .find(|(n, _)| n == name)
        .map(|(_, value)| value.as_str())
}

#[test]
fn standard_page() {
    assert_eq!(
        response_text(status(404)),
        "<!DOCTYPE html><html><head><title>404 Not Found</title></head><body><center><h1>404 Not Found</h1></center></body></html>"
    );
    assert!(response_text(status(404)).starts_with(maud::DOCTYPE.0));
}

#[test]
fn standard_page_matches_http_crate() {
    for code in [100u16, 200, 307, 308, 401, 418, 429, 500, 511] {
        let reference = http::StatusCode::from_u16(code).unwrap();
        let line = format!(
            "{} {}",
            reference.as_str(),
            reference.canonical_reason().unwrap()
        );
        let text = response_text(status(code));
        assert!(text.contains(&format!("<title>{line}</title>")));
        assert!(text.contains(&format!("<h1>{line}</h1>")));
    }
}

#[test]
fn standard_page_without_reason() {
    assert_eq!(
        response_text(status(599)),
        "<!DOCTYPE html><html><head><title>599 </title></head><body><center><h1>599 </h1></center></body></html>"
    );
}

#[test]
fn status_range() {
    assert!(StatusCode::from_u16(99).is_none());
    assert_eq!(StatusCode::from_u16(100).unwrap().as_u16(), 100);
    assert_eq!(StatusCode::from_u16(999).unwrap().as_u16(), 999);
    assert!(StatusCode::from_u16(1000).is_none());
    assert_eq!(StatusCode::not_found(), status(404));
}

#[test]
fn error_response_headers() {
    let result = error_response("GET", status(404)).unwrap();
    let text = response_text(status(404));
    assert_eq!(result.status.as_u16(), 404);
    assert_eq!(
        result.headers,
        vec![
            ("content-length".to_owned(), text.len().to_string()),
            ("content-type".to_owned(), "text/html".to_owned()),
        ]
    );
    assert_eq!(result.headers[0].1, "121");
    assert_eq!(result.body, Some(text));
}

#[test]
fn head_response() {
    let get = redirect_response("GET", status(307), "/somewhere").unwrap();
    let head = redirect_response("HEAD", status(307), "/somewhere").unwrap();
    assert_eq!(head.status, get.status);
    assert_eq!(head.headers, get.headers);
    assert!(get.body.is_some());
    assert_eq!(head.body, None);

    // Methods are case-sensitive
    let other = redirect_response("head", status(307), "/somewhere").unwrap();
    assert_eq!(other.body, get.body);
}

#[test]
fn redirect_location() {
    let result = redirect_response("GET", status(308), "https://example.com/?a=b").unwrap();
    assert_eq!(header(&result, "location"), Some("https://example.com/?a=b"));
    assert_eq!(
        header(&result, "content-length"),
        Some(response_text(status(308)).len().to_string().as_str())
    );
    let result = error_response("GET", status(308)).unwrap();
    assert_eq!(header(&result, "location"), None);
}

#[test]
fn invalid_location() {
    assert_eq!(
        redirect_response("GET", status(307), "/some\nwhere").unwrap_err(),
        Error::InvalidHeader
    );
    assert_eq!(
        response("GET", status(307), Some("/some\x7fwhere")).unwrap_err(),
        Error::InvalidHeader
    );
    assert!(redirect_response("GET", status(307), "/some\twhere").is_ok());
    assert!(redirect_response("GET", status(307), "/sömewhere").is_ok());
}

#[test]
fn page_titles() {
    assert_eq!(titled("404", Some("Not Found")), "404 Not Found");
    assert_eq!(titled("599", None), "599 ");
    assert_eq!(titled("<1>", Some("\"a\" & 'b'")), "&lt;1&gt; &quot;a&quot; &amp; 'b'");
}

#[test]
fn known_pages() {
    for (code, line) in [
        (307, "307 Temporary Redirect"),
        (308, "308 Permanent Redirect"),
        (401, "401 Unauthorized"),
        (429, "429 Too Many Requests"),
    ] {
        assert_eq!(
            response_text(status(code)),
            format!("<!DOCTYPE html><html><head><title>{line}</title></head><body><center><h1>{line}</h1></center></body></html>")
        );
    }
}
