//! Standard responses for various conditions

use vstd::prelude::*;
use vstd::string::*;
use vstd::utf8::encode_utf8;
use crate::html::{escape, escaped, lemma_plain_text};
use crate::response::{
    append_header, has_body, header_list, is_header_text, optional_str, sends_body, Error,
    Response, ResponseModel,
};
use crate::status::{canonical_reason, reason_phrase, status_digits, StatusCode};
use crate::text::{decimal, decimal_string, lemma_decimal_digits};

verus! {

/// The title of a page: a number and, behind a space, the reason phrase if there is one. Both are
/// escaped.
pub open spec fn title(digits: Seq<char>, reason: Option<Seq<char>>) -> Seq<char> {
    escaped(digits) + " "@ + (match reason {
        Some(reason) => escaped(reason),
        None => Seq::empty(),
    })
}

/// Status code and reason phrase the way they are displayed on a page.
pub open spec fn status_line(code: u16) -> Seq<char> {
    title(decimal(code as nat), reason_phrase(code))
}

/// The status lines of the standard responses that the modules of this crate send.
pub open spec fn known_status_line(code: u16) -> Option<Seq<char>> {
    if code == 307 {
        Some("307 Temporary Redirect"@)
    } else if code == 308 {
        Some("308 Permanent Redirect"@)
    } else if code == 401 {
        Some("401 Unauthorized"@)
    } else if code == 429 {
        Some("429 Too Many Requests"@)
    } else {
        None
    }
}

/// A page with the given title, which is also its heading. The content goes below the heading.
pub open spec fn page(title: Seq<char>, content: Seq<char>) -> Seq<char> {
    "<!DOCTYPE html><html><head><title>"@ + title + "</title></head><body><center><h1>"@ + title
        + "</h1></center>"@ + content + "</body></html>"@
}

/// The standard page for a status code.
pub open spec fn response_page(code: u16) -> Seq<char> {
    page(status_line(code), Seq::empty())
}

/// The value of the `Content-Length` header for a page: its size in bytes.
pub open spec fn content_length(text: Seq<char>) -> Seq<char> {
    decimal(encode_utf8(text).len())
}

/// Produces the title of a page from a number and its reason phrase.
pub fn titled(digits: &str, reason: Option<&str>) -> (r: String)
    ensures
        r@ == title(digits@, optional_str(reason)),
        reason is None ==> r@ == escaped(digits@) + " "@,
        reason matches Some(reason) ==> r@ == escaped(digits@) + " "@ + escaped(reason@),
{
    let mut text = escape(digits);
    text.append(" ");
    if let Some(reason) = reason {
        text.append(escape(reason).as_str());
    }
    assert(text@ =~= title(digits@, optional_str(reason)));
    text
}

/// Known status lines contain nothing that needs to be escaped.
proof fn lemma_known_status_line(code: u16, reason: Seq<char>)
    requires
        code == 307 ==> reason == "Temporary Redirect"@,
        code == 308 ==> reason == "Permanent Redirect"@,
        code == 401 ==> reason == "Unauthorized"@,
        code == 429 ==> reason == "Too Many Requests"@,
    ensures
        known_status_line(code) matches Some(line) ==> title(decimal(code as nat), Some(reason))
            == line,
{
    if let Some(line) = known_status_line(code) {
        reveal_strlit("307 Temporary Redirect");
        reveal_strlit("308 Permanent Redirect");
        reveal_strlit("401 Unauthorized");
        reveal_strlit("429 Too Many Requests");
        reveal_strlit("Temporary Redirect");
        reveal_strlit("Permanent Redirect");
        reveal_strlit("Unauthorized");
        reveal_strlit("Too Many Requests");
        reveal_strlit(" ");
        reveal_with_fuel(decimal, 3);
        lemma_plain_text(decimal(code as nat));
        lemma_plain_text(reason);
        assert(decimal(code as nat) + " "@ + reason =~= line);
    }
}

/// Produces the status line of a page.
pub(crate) fn status_text(status: StatusCode) -> (r: String)
    ensures
        r@ == status_line(status@),
        known_status_line(status@) matches Some(line) ==> r@ == line,
{
    let code: u16 = status.as_u16();
    let digits = status_digits(code);
    let reason = canonical_reason(code);
    proof {
        if let Some(reason) = reason {
            lemma_known_status_line(code, reason@);
        }
    }
    titled(digits.as_str(), reason)
}

/// Assembles a page.
pub(crate) fn page_text(title: &str, content: &str) -> (r: String)
    ensures
        r@ == page(title@, content@),
        r@ == "<!DOCTYPE html><html><head><title>"@ + title@
            + "</title></head><body><center><h1>"@ + title@ + "</h1></center>"@ + content@
            + "</body></html>"@,
{
    let mut text = "<!DOCTYPE html><html><head><title>".to_owned();
    text.append(title);
    text.append("</title></head><body><center><h1>");
    text.append(title);
    text.append("</h1></center>");
    text.append(content);
    text.append("</body></html>");
    text
}

/// Produces the text of a standard response page for the given status code.
pub fn response_text(status: StatusCode) -> (r: String)
    ensures
        r@ == response_page(status@),
        ({
            let line = escaped(decimal(status@ as nat)) + " "@ + (match reason_phrase(status@) {
                Some(reason) => escaped(reason),
                None => Seq::empty(),
            });
            r@ == "<!DOCTYPE html><html><head><title>"@ + line
                + "</title></head><body><center><h1>"@ + line + "</h1></center>"@
                + "</body></html>"@
        }),
        status@ == 307 ==> r@ == page("307 Temporary Redirect"@, Seq::empty()),
        status@ == 308 ==> r@ == page("308 Permanent Redirect"@, Seq::empty()),
        status@ == 401 ==> r@ == page("401 Unauthorized"@, Seq::empty()),
        status@ == 429 ==> r@ == page("429 Too Many Requests"@, Seq::empty()),
{
    proof {
        reveal_strlit("");
        assert(""@ =~= Seq::<char>::empty());
    }
    let text = page_text(status_text(status).as_str(), "");
    proof {
        law_response_page(status@);
    }
    text
}

/// The header value for the size of a text.
pub(crate) fn content_length_text(text: &String) -> (r: String)
    ensures
        r@ == content_length(text@),
        r@ == decimal(encode_utf8(text@).len()),
        is_header_text(r@),
{
    let size: usize = text.as_str().as_bytes().len();
    proof {
        lemma_decimal_digits(size as nat);
    }
    decimal_string(size)
}

/// The headers of a standard response.
pub open spec fn standard_headers(code: u16, location: Option<Seq<char>>) -> Seq<
    (Seq<char>, Seq<char>),
> {
    let common = seq![
        ("content-length"@, content_length(response_page(code))),
        ("content-type"@, "text/html"@),
    ];
    match location {
        Some(location) => common.push(("location"@, location)),
        None => common,
    }
}

/// A standard response to a request with the given method.
pub open spec fn standard_response(
    method: Seq<char>,
    code: u16,
    location: Option<Seq<char>>,
) -> ResponseModel {
    ResponseModel {
        status: code,
        headers: standard_headers(code, location),
        body: if has_body(method) {
            Some(response_page(code))
        } else {
            None
        },
    }
}

/// Whether a response has the page with the given title as its body, as far as its body is sent,
/// and announces the size of this page.
pub open spec fn presents(response: ResponseModel, title: Seq<char>) -> bool {
    &&& response.body matches Some(body) ==> body == page(title, Seq::empty())
    &&& response.headers.len() > 0
    &&& response.headers[0] == ("content-length"@, content_length(page(title, Seq::empty())))
}

/// Builds a standard response, with a `Location` header if a location is given. This fails only
/// if the location cannot be a header value.
pub fn response(method: &str, status: StatusCode, location: Option<&str>) -> (r: Result<
    Response,
    Error,
>)
    ensures
        match r {
            Ok(response) => response@ == standard_response(
                method@,
                status@,
                optional_str(location),
            ),
            Err(error) => error == Error::InvalidHeader,
        },
        r is Ok <==> (location matches Some(location) ==> is_header_text(location@)),
        r matches Ok(response) ==> (known_status_line(status@) matches Some(line) ==> presents(
            response@,
            line,
        )),
        r matches Ok(response) ==> {
            &&& response.status == status
            &&& response.body is None <==> method@ == "HEAD"@
            &&& response.body matches Some(body) ==> body@ == response_page(status@)
            &&& response.headers@.len() == (if location is Some {
                3int
            } else {
                2
            })
            &&& response.headers@[0].0@ == "content-length"@
            &&& response.headers@[0].1@ == decimal(encode_utf8(response_page(status@)).len())
            &&& response.headers@[1].0@ == "content-type"@
            &&& response.headers@[1].1@ == "text/html"@
            &&& location matches Some(location) ==> response.headers@[2].0@ == "location"@
                && response.headers@[2].1@ == location@
        },
{
    let text = response_text(status);

    let mut headers: Vec<(String, String)> = Vec::new();
    append_header(&mut headers, "content-length", content_length_text(&text))?;
    proof {
        reveal_strlit("text/html");
    }
    append_header(&mut headers, "content-type", "text/html".to_owned())?;
    if let Some(location) = location {
        append_header(&mut headers, "location", location.to_owned())?;
    }
    assert(header_list(headers@) =~= standard_headers(status@, optional_str(location)));

    assert forall|i: int| 0 <= i < headers@.len() implies (
        #[trigger] headers@[i].0@,
        headers@[i].1@,
    ) == header_list(headers@)[i] by {}
    let body = if sends_body(method) {
        Some(text)
    } else {
        None
    };
    Ok(Response { status, headers, body })
}

/// Responds with a standard error page for the given status code.
pub fn error_response(method: &str, status: StatusCode) -> (r: Result<Response, Error>)
    ensures
        r matches Ok(response) && response@ == standard_response(method@, status@, None),
        r matches Ok(response) ==> (known_status_line(status@) matches Some(line) ==> presents(
            response@,
            line,
        )),
        r matches Ok(response) ==> {
            &&& response.status == status
            &&& response.body is None <==> method@ == "HEAD"@
            &&& response.body matches Some(body) ==> body@ == response_page(status@)
            &&& response.headers@.len() == 2
            &&& response.headers@[0].0@ == "content-length"@
            &&& response.headers@[0].1@ == decimal(encode_utf8(response_page(status@)).len())
            &&& response.headers@[1].0@ == "content-type"@
            &&& response.headers@[1].1@ == "text/html"@
        },
{
    response(method, status, None)
}

/// Responds with a redirect to the given location.
pub fn redirect_response(method: &str, status: StatusCode, location: &str) -> (r: Result<
    Response,
    Error,
>)
    ensures
        match r {
            Ok(response) => response@ == standard_response(method@, status@, Some(location@)),
            Err(error) => error == Error::InvalidHeader,
        },
        r is Ok <==> is_header_text(location@),
        r matches Ok(response) ==> (known_status_line(status@) matches Some(line) ==> presents(
            response@,
            line,
        )),
        r matches Ok(response) ==> {
            &&& response.status == status
            &&& response.body is None <==> method@ == "HEAD"@
            &&& response.body matches Some(body) ==> body@ == response_page(status@)
            &&& response.headers@.len() == 3
            &&& response.headers@[0].0@ == "content-length"@
            &&& response.headers@[0].1@ == decimal(encode_utf8(response_page(status@)).len())
            &&& response.headers@[1].0@ == "content-type"@
            &&& response.headers@[1].1@ == "text/html"@
            &&& response.headers@[2].0@ == "location"@
            &&& response.headers@[2].1@ == location@
        },
{
    response(method, status, Some(location))
}

/// The response to a HEAD request is the one that any other request would get, without its body.
pub proof fn law_head_response(method: Seq<char>, code: u16, location: Option<Seq<char>>)
    ensures
        standard_response("HEAD"@, code, location) == (ResponseModel {
            body: None,
            ..standard_response(method, code, location)
        }),
{
}

/// A standard response announces the exact size of its body. It has a `Location` header with the
/// given location if there is one, and none otherwise.
pub proof fn law_response_headers(method: Seq<char>, code: u16, location: Option<Seq<char>>)
    ensures
        ({
            let response = standard_response(method, code, location);
            &&& response.body matches Some(body) ==> response.headers.contains(
                ("content-length"@, decimal(encode_utf8(body).len())),
            )
            &&& forall|value: Seq<char>|
                #[trigger] response.headers.contains(("location"@, value)) <==> location == Some(
                    value,
                )
        }),
{
    let headers = standard_headers(code, location);
    assert(headers[0] == ("content-length"@, content_length(response_page(code))));
    reveal_strlit("content-length");
    reveal_strlit("content-type");
    reveal_strlit("location");
    assert(headers[0].0[0] == 'c' && headers[1].0[0] == 'c');
    if let Some(location) = location {
        assert(headers[2] == ("location"@, location));
    }
}

/// The standard page for a status code shows the number and its reason phrase, both escaped, as
/// title and as heading, and nothing else.
pub proof fn law_response_page(code: u16)
    ensures
        ({
            let line = escaped(decimal(code as nat)) + " "@ + (match reason_phrase(code) {
                Some(reason) => escaped(reason),
                None => Seq::empty(),
            });
            response_page(code) == "<!DOCTYPE html><html><head><title>"@ + line
                + "</title></head><body><center><h1>"@ + line + "</h1></center>"@
                + "</body></html>"@
        }),
{
    let head = "<!DOCTYPE html><html><head><title>"@ + status_line(code)
        + "</title></head><body><center><h1>"@ + status_line(code) + "</h1></center>"@;
    assert(head + Seq::empty() =~= head);
}

/// A standard response has the given status code and three headers at most: the size of the
/// standard page in bytes, its type, and the given location. The page is its body unless it
/// responds to a HEAD request.
pub proof fn law_standard_response(method: Seq<char>, code: u16, location: Option<Seq<char>>)
    ensures
        ({
            let response = standard_response(method, code, location);
            &&& response.status == code
            &&& response.headers.take(2) == seq![
                ("content-length"@, decimal(encode_utf8(response_page(code)).len())),
                ("content-type"@, "text/html"@),
            ]
            &&& location is None ==> response.headers.len() == 2
            &&& location matches Some(location) ==> response.headers.len() == 3
                && response.headers[2] == ("location"@, location)
            &&& method == "HEAD"@ ==> response.body is None
            &&& method != "HEAD"@ ==> response.body == Some(response_page(code))
        }),
{
    let headers = standard_response(method, code, location).headers;
    assert(headers.take(2) =~= seq![
        ("content-length"@, decimal(encode_utf8(response_page(code)).len())),
        ("content-type"@, "text/html"@),
    ]);
}

} // verus!
