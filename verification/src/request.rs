//! Requests and their headers.

use http::{HeaderMap, HeaderName, HeaderValue};
use vstd::prelude::*;

verus! {

/// The header collection of the `http` crate.
#[verifier::external_type_specification]
#[verifier::external_body]
#[verifier::reject_recursive_types(T)]
pub struct ExHeaderMap<T>(http::HeaderMap<T>);

/// The header values of the `http` crate.
#[verifier::external_type_specification]
#[verifier::external_body]
pub struct ExHeaderValue(http::HeaderValue);

/// The contents of a header collection: for each name that `http::HeaderName::from_bytes` accepts,
/// in lower case, the values stored for it in their order.
pub uninterp spec fn header_contents(headers: HeaderMap<HeaderValue>) -> Map<
    Seq<u8>,
    Seq<Seq<u8>>,
>;

/// A byte with ASCII letters in lower case.
pub open spec fn lower_byte(b: u8) -> u8 {
    if 0x41 <= b <= 0x5a {
        (b + 0x20) as u8
    } else {
        b
    }
}

/// Bytes with ASCII letters in lower case.
pub open spec fn lower(bytes: Seq<u8>) -> Seq<u8> {
    bytes.map_values(|b: u8| lower_byte(b))
}

/// The first value of the header with the given name. Case makes no difference for the name.
pub open spec fn first_header(headers: HeaderMap<HeaderValue>, name: Seq<u8>) -> Option<Seq<u8>> {
    let contents = header_contents(headers);
    if contents.contains_key(lower(name)) {
        Some(contents[lower(name)].first())
    } else {
        None
    }
}

/// Calls `http::HeaderMap::get`, which returns the first value of the header with the given name,
/// or `None` if the collection has no such header. Something that cannot be a header name is not
/// the name of any header.
#[verifier::external_body]
pub(crate) fn header_value(headers: &HeaderMap<HeaderValue>, name: &[u8]) -> (r: Option<Vec<u8>>)
    ensures
        match r {
            Some(value) => header_contents(*headers).contains_key(lower(name@))
                && value@ == header_contents(*headers)[lower(name@)].first(),
            None => !header_contents(*headers).contains_key(lower(name@)),
        },
{
    let name = HeaderName::from_bytes(name).ok()?;
    headers.get(name).map(|value| value.as_bytes().to_vec())
}

/// What request handlers get to know about a request.
#[derive(Debug)]
pub struct Request {
    pub method: String,
    pub path: String,
    pub query: Option<String>,
    pub headers: HeaderMap<HeaderValue>,
}

impl Request {
    /// The query string, empty if there is none.
    pub open spec fn query_text(self) -> Seq<char> {
        match self.query {
            Some(query) => query@,
            None => Seq::empty(),
        }
    }

    /// Returns the query string, the empty string if there is none.
    pub fn query_or_empty(&self) -> (r: &str)
        ensures
            r@ == self.query_text(),
            self.query matches Some(query) ==> r@ == query@,
            self.query is None ==> r@.len() == 0,
    {
        match &self.query {
            Some(query) => query.as_str(),
            None => {
                proof {
                    reveal_strlit("");
                    assert(""@ =~= Seq::<char>::empty());
                }
                ""
            },
        }
    }
}

/// What became of a request.
#[derive(Clone, Copy, Debug, PartialEq, Eq, Structural)]
pub enum RequestFilterResult {
    /// A response has been sent, no further processing should happen.
    ResponseSent,
    /// The request has not been handled and needs further processing.
    Unhandled,
}

/// The header with a given name is found whatever the case of the letters in this name, and its
/// first value is taken.
pub proof fn law_first_header(headers: HeaderMap<HeaderValue>, name: Seq<u8>, key: Seq<u8>)
    requires
        key.len() == name.len(),
        forall|i: int|
            0 <= i < name.len() ==> #[trigger] key[i] == (if 0x41 <= name[i] <= 0x5a {
                name[i] + 0x20
            } else {
                name[i] as int
            }),
    ensures
        first_header(headers, name) is Some <==> header_contents(headers).contains_key(key),
        first_header(headers, name) matches Some(value) ==> value == header_contents(
            headers,
        )[key][0],
{
    assert(lower(name) =~= key);
}

} // verus!
