//! Responses as the request handling modules build them.

use vstd::prelude::*;
use crate::status::StatusCode;
use crate::text::same_text;

verus! {

/// Reasons why a response could not be built.
#[derive(Clone, Copy, Debug, PartialEq, Eq, Structural)]
pub enum Error {
    /// A header value contains characters that are not allowed there.
    InvalidHeader,
}

/// A complete response: status code, headers in the order in which they are written, and the
/// body where one is sent.
#[derive(Debug)]
pub struct Response {
    pub status: StatusCode,
    pub headers: Vec<(String, String)>,
    pub body: Option<String>,
}

/// What a response says.
#[verifier::ext_equal]
pub struct ResponseModel {
    pub status: u16,
    pub headers: Seq<(Seq<char>, Seq<char>)>,
    pub body: Option<Seq<char>>,
}

/// The text of an optional string.
pub open spec fn optional_text(text: Option<String>) -> Option<Seq<char>> {
    match text {
        Some(text) => Some(text@),
        None => None,
    }
}

/// The text of an optional string slice.
pub open spec fn optional_str(text: Option<&str>) -> Option<Seq<char>> {
    match text {
        Some(text) => Some(text@),
        None => None,
    }
}

/// The names and values of a list of headers.
pub open spec fn header_list(headers: Seq<(String, String)>) -> Seq<(Seq<char>, Seq<char>)> {
    Seq::new(headers.len(), |i: int| (headers[i].0@, headers[i].1@))
}

impl View for Response {
    type V = ResponseModel;

    open spec fn view(&self) -> ResponseModel {
        ResponseModel {
            status: self.status@,
            headers: header_list(self.headers@),
            body: optional_text(self.body),
        }
    }
}

/// The characters allowed in a header value: tabulator, and all but the control characters.
pub open spec fn is_header_char(c: char) -> bool {
    c == '\t' || (c >= ' ' && c != '\x7f')
}

/// The texts that can be header values.
pub open spec fn is_header_text(text: Seq<char>) -> bool {
    forall|i: int| 0 <= i < text.len() ==> is_header_char(#[trigger] text[i])
}

/// Calls `http::HeaderValue::from_str`, which accepts a text if none of its bytes is a control
/// character other than the tabulator. The bytes of characters outside ASCII are no control
/// characters.
#[verifier::external_body]
fn header_value_accepts(text: &str) -> (r: bool)
    ensures
        r == is_header_text(text@),
{
    http::HeaderValue::from_str(text).is_ok()
}

/// Adds a header to the end of a list, unless its value is not a valid header value.
pub fn append_header(headers: &mut Vec<(String, String)>, name: &str, value: String) -> (r: Result<
    (),
    Error,
>)
    ensures
        r is Ok <==> is_header_text(value@),
        r is Ok ==> header_list(final(headers)@) == header_list(old(headers)@).push(
            (name@, value@),
        ),
        r is Err ==> *final(headers) == *old(headers),
        r is Err ==> r == Err::<(), _>(Error::InvalidHeader),
        r is Ok ==> final(headers)@.len() == old(headers)@.len() + 1 && final(headers)@.drop_last()
            == old(headers)@ && final(headers)@.last().0@ == name@ && final(headers)@.last().1@
            == value@,
{
    if !header_value_accepts(value.as_str()) {
        return Err(Error::InvalidHeader);
    }
    headers.push((name.to_owned(), value));
    assert(headers@.drop_last() =~= old(headers)@);
    assert(header_list(headers@) =~= header_list(old(headers)@).push((name@, value@)));
    Ok(())
}

/// Whether a response to a request with the given method has its body sent: a response to a
/// HEAD request has not.
pub open spec fn has_body(method: Seq<char>) -> bool {
    method != "HEAD"@
}

/// Determines whether the body of a response should be sent.
pub fn sends_body(method: &str) -> (r: bool)
    ensures
        r == has_body(method@),
        r <==> method@ != "HEAD"@,
{
    !same_text(method, "HEAD")
}

/// What a response says is what it consists of.
pub proof fn law_response_model(response: Response)
    ensures
        response@.status == response.status@,
        response@.headers.len() == response.headers@.len(),
        forall|i: int|
            0 <= i < response.headers@.len() ==> #[trigger] response@.headers[i] == (
                response.headers@[i].0@,
                response.headers@[i].1@,
            ),
        response@.body is Some <==> response.body is Some,
        response.body matches Some(body) ==> response@.body == Some(body@),
{
}

/// A text can be a header value if and only if it has no control characters other than the
/// tabulator.
pub proof fn law_header_text(text: Seq<char>)
    ensures
        is_header_text(text) <==> forall|i: int|
            0 <= i < text.len() ==> #[trigger] text[i] == '\t' || ' ' <= text[i] <= '~' || text[i]
                >= '\u{80}',
{
    if is_header_text(text) {
        assert forall|i: int| 0 <= i < text.len() implies #[trigger] text[i] == '\t' || ' '
            <= text[i] <= '~' || text[i] >= '\u{80}' by {
            assert(is_header_char(text[i]));
        }
    }
}

/// An optional text is there if and only if the string is, and it is the text of this string.
pub proof fn law_optional_texts(string: String, slice: &str)
    ensures
        optional_text(Some(string)) == Some(string@),
        optional_text(None) is None,
        optional_str(Some(slice)) == Some(slice@),
        optional_str(None) is None,
{
}

} // verus!
