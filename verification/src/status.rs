//! HTTP status codes.

use vstd::prelude::*;
use crate::text::decimal;

verus! {

/// An HTTP status code, a three digit number.
#[derive(Clone, Copy, Debug, PartialEq, Eq, Structural)]
pub struct StatusCode {
    code: u16,
}

impl View for StatusCode {
    type V = u16;

    closed spec fn view(&self) -> u16 {
        self.code
    }
}

/// The numbers that are status codes.
pub open spec fn is_status(code: u16) -> bool {
    100 <= code <= 999
}

impl StatusCode {
    #[verifier::type_invariant]
    spec fn well_formed(self) -> bool {
        is_status(self.code)
    }

    /// Converts a number to a status code.
    pub fn from_u16(code: u16) -> (r: Option<StatusCode>)
        ensures
            r is Some <==> is_status(code),
            r is Some <==> 100 <= code < 1000,
            r matches Some(status) ==> status@ == code,
    {
        if code >= 100 && code <= 999 {
            Some(StatusCode { code })
        } else {
            None
        }
    }

    /// The number of this status code.
    pub fn as_u16(&self) -> (r: u16)
        ensures
            r == self@,
            is_status(r),
    {
        proof {
            use_type_invariant(self);
        }
        self.code
    }

    /// 307 Temporary Redirect
    pub fn temporary_redirect() -> (r: StatusCode)
        ensures
            r@ == 307,
    {
        StatusCode { code: 307 }
    }

    /// 308 Permanent Redirect
    pub fn permanent_redirect() -> (r: StatusCode)
        ensures
            r@ == 308,
    {
        StatusCode { code: 308 }
    }

    /// 401 Unauthorized
    pub fn unauthorized() -> (r: StatusCode)
        ensures
            r@ == 401,
    {
        StatusCode { code: 401 }
    }

    /// 404 Not Found
    pub fn not_found() -> (r: StatusCode)
        ensures
            r@ == 404,
    {
        StatusCode { code: 404 }
    }

    /// 429 Too Many Requests
    pub fn too_many_requests() -> (r: StatusCode)
        ensures
            r@ == 429,
    {
        StatusCode { code: 429 }
    }
}

/// The reason phrase that goes with a status code, as `http::StatusCode::canonical_reason` gives
/// it.
pub uninterp spec fn reason_phrase(code: u16) -> Option<Seq<char>>;

/// Calls `http::StatusCode::canonical_reason`.
///
/// The reason phrase, or its absence, depends on the number alone. For the status codes of the
/// responses that this crate builds itself the phrase is the one that the table of the `http` crate lists.
#[verifier::external_body]
pub(crate) fn canonical_reason(code: u16) -> (r: Option<&'static str>)
    requires
        is_status(code),
    ensures
        match r {
            Some(reason) => reason_phrase(code) == Some(reason@),
            None => reason_phrase(code) is None,
        },
        code == 307 ==> r is Some && r->0@ == "Temporary Redirect"@,
        code == 308 ==> r is Some && r->0@ == "Permanent Redirect"@,
        code == 401 ==> r is Some && r->0@ == "Unauthorized"@,
        code == 429 ==> r is Some && r->0@ == "Too Many Requests"@,
{
    http::StatusCode::from_u16(code).unwrap().canonical_reason()
}

/// Calls `http::StatusCode::as_str`, which gives the number in decimal notation.
#[verifier::external_body]
pub(crate) fn status_digits(code: u16) -> (r: String)
    requires
        is_status(code),
    ensures
        r@ == decimal(code as nat),
{
    http::StatusCode::from_u16(code).unwrap().as_str().to_owned()
}

} // verus!
