//! HTTP Basic authentication.
//!
//! Checking a request takes up to three steps, because counting requests and checking passwords
//! happens elsewhere: [`basic_auth`] determines the credentials, [`rate_limit_checked`] goes on
//! when it is known whether the request exceeds the rate limits, and [`login_validated`] when it
//! is known whether the credentials are valid.

use http::{HeaderMap, HeaderValue};
use vstd::prelude::*;
use vstd::slice::*;
use vstd::string::*;
use vstd::utf8::{
    char_u32_cast, decode_utf8, decode_utf8_encode_utf8, encode_utf8, encode_utf8_decode_utf8,
    encode_utf8_valid_utf8, is_ascii_chars_encode_utf8, valid_utf8,
};
use crate::encoding::{
    base64_decode, base64_decoded, base64_text, law_base64_is_decoded, lemma_base64_text_bytes,
};
use crate::html::{escape, escaped};
use crate::request::{
    first_header, header_contents, header_value, law_first_header, Request, RequestFilterResult,
};
use crate::response::{
    append_header, has_body, header_list, is_header_char, is_header_text, optional_str,
    optional_text, sends_body, Error, Response, ResponseModel,
};
use crate::standard_response::{
    content_length, content_length_text, error_response, law_standard_response, page, page_text, presents,
    response_page, standard_response, status_text,
};
use crate::status::StatusCode;
use crate::text::{
    decimal, find_byte, lemma_no_ascii_byte, lemma_position, lemma_position_is_first, position,
    same_bytes, utf8_text,
};

verus! {

/// The part of the page that suggests a change of the configuration.
pub open spec fn suggestion_content(suggestion: Option<Seq<char>>) -> Seq<char> {
    match suggestion {
        Some(suggestion) => "<p>If you are the administrator of this server, you might want to add the following to your configuration:</p><pre>"@
            + escaped(suggestion) + "</pre>"@,
        None => Seq::empty(),
    }
}

/// The page displayed if a request is not authorized.
pub open spec fn unauthorized_page(suggestion: Option<Seq<char>>) -> Seq<char> {
    page("401 Unauthorized"@, suggestion_content(suggestion))
}

/// Produces the page displayed if a request is not authorized. Without a suggestion this is the
/// standard page.
pub fn unauthorized_text(suggestion: Option<&str>) -> (r: String)
    ensures
        r@ == unauthorized_page(optional_str(suggestion)),
        suggestion is None ==> r@ == response_page(401),
        ({
            let title = "401 Unauthorized"@;
            let start = "<!DOCTYPE html><html><head><title>"@ + title
                + "</title></head><body><center><h1>"@ + title + "</h1></center>"@;
            &&& suggestion is None ==> r@ == start + "</body></html>"@
            &&& suggestion matches Some(suggestion) ==> r@ == start
                + ("<p>If you are the administrator of this server, you might want to add the following to your configuration:</p><pre>"@
                + escaped(suggestion@) + "</pre>"@) + "</body></html>"@
        }),
{
    let title = status_text(StatusCode::unauthorized());
    let mut content = String::new();
    if let Some(suggestion) = suggestion {
        content.append("<p>If you are the administrator of this server, you might want to add the following to your configuration:</p><pre>");
        content.append(escape(suggestion).as_str());
        content.append("</pre>");
    }
    assert(content@ =~= suggestion_content(optional_str(suggestion)));
    proof {
        law_unauthorized_page(optional_str(suggestion));
    }
    page_text(title.as_str(), content.as_str())
}

/// The page for a request that is not authorized has status code and reason phrase as title and as
/// heading. Below these it shows the suggestion if there is one, escaped and preformatted.
pub proof fn law_unauthorized_page(suggestion: Option<Seq<char>>)
    ensures
        ({
            let title = "401 Unauthorized"@;
            let start = "<!DOCTYPE html><html><head><title>"@ + title
                + "</title></head><body><center><h1>"@ + title + "</h1></center>"@;
            &&& suggestion is None ==> unauthorized_page(suggestion) == start + "</body></html>"@
            &&& suggestion matches Some(suggestion) ==> unauthorized_page(Some(suggestion)) == start
                + ("<p>If you are the administrator of this server, you might want to add the following to your configuration:</p><pre>"@
                + escaped(suggestion) + "</pre>"@) + "</body></html>"@
        }),
{
    let title = "401 Unauthorized"@;
    let start = "<!DOCTYPE html><html><head><title>"@ + title
        + "</title></head><body><center><h1>"@ + title + "</h1></center>"@;
    assert(start + Seq::empty() =~= start);
}

/// The challenge for the given realm.
pub open spec fn challenge(realm: Seq<char>) -> Seq<char> {
    "Basic realm=\""@ + realm + "\""@
}

/// The response to a request that is not authorized.
pub open spec fn unauthorized_model(
    method: Seq<char>,
    realm: Seq<char>,
    suggestion: Option<Seq<char>>,
) -> ResponseModel {
    ResponseModel {
        status: 401,
        headers: seq![
            ("content-length"@, content_length(unauthorized_page(suggestion))),
            ("content-type"@, "text/html;charset=utf-8"@),
            ("www-authenticate"@, challenge(realm)),
        ],
        body: if has_body(method) {
            Some(unauthorized_page(suggestion))
        } else {
            None
        },
    }
}

/// Builds the response to a request that is not authorized. This fails only if the name of the
/// realm cannot be part of a header value.
pub fn unauthorized_response(method: &str, realm: &str, suggestion: Option<&str>) -> (r: Result<
    Response,
    Error,
>)
    ensures
        match r {
            Ok(response) => response@ == unauthorized_model(
                method@,
                realm@,
                optional_str(suggestion),
            ),
            Err(error) => error == Error::InvalidHeader,
        },
        r is Ok <==> is_header_text(realm@),
        r matches Ok(response) ==> (suggestion is None ==> {
            &&& response@.body == standard_response(method@, 401, None).body
            &&& response@.headers[0] == standard_response(method@, 401, None).headers[0]
        }),
        r matches Ok(response) ==> {
            let page = unauthorized_page(optional_str(suggestion));
            &&& response.status@ == 401
            &&& response.headers@.len() == 3
            &&& response.headers@[0].0@ == "content-length"@
            &&& response.headers@[0].1@ == decimal(encode_utf8(page).len())
            &&& response.headers@[1].0@ == "content-type"@
            &&& response.headers@[1].1@ == "text/html;charset=utf-8"@
            &&& response.headers@[2].0@ == "www-authenticate"@
            &&& response.headers@[2].1@ == "Basic realm=\""@ + realm@ + "\""@
            &&& response.body is None <==> method@ == "HEAD"@
            &&& response.body matches Some(body) ==> body@ == page
        },
{
    let text = unauthorized_text(suggestion);

    let mut headers: Vec<(String, String)> = Vec::new();
    append_header(&mut headers, "content-length", content_length_text(&text))?;
    proof {
        reveal_strlit("text/html;charset=utf-8");
    }
    append_header(&mut headers, "content-type", "text/html;charset=utf-8".to_owned())?;
    let mut value = "Basic realm=\"".to_owned();
    value.append(realm);
    value.append("\"");
    proof {
        reveal_strlit("Basic realm=\"");
        reveal_strlit("\"");
        let start = "Basic realm=\""@;
        if is_header_text(realm@) {
            assert forall|i: int| 0 <= i < value@.len() implies is_header_char(
                #[trigger] value@[i],
            ) by {
                if i < start.len() {
                    assert(value@[i] == start[i]);
                } else if i < start.len() + realm@.len() {
                    assert(value@[i] == realm@[i - start.len()]);
                } else {
                    assert(value@[i] == "\""@[i - start.len() - realm@.len()]);
                }
            }
        }
        if is_header_text(value@) {
            assert forall|i: int| 0 <= i < realm@.len() implies is_header_char(
                #[trigger] realm@[i],
            ) by {
                assert(value@[i + start.len()] == realm@[i]);
            }
        }
    }
    append_header(&mut headers, "www-authenticate", value)?;
    assert(header_list(headers@) =~= unauthorized_model(
        method@,
        realm@,
        optional_str(suggestion),
    ).headers);

    assert forall|i: int| 0 <= i < headers@.len() implies (
        #[trigger] headers@[i].0@,
        headers@[i].1@,
    ) == header_list(headers@)[i] by {}

    let body = if sends_body(method) {
        Some(text)
    } else {
        None
    };
    Ok(Response { status: StatusCode::unauthorized(), headers, body })
}

/// The response to a HEAD request that is not authorized is the one that any other request would
/// get, without its body.
pub proof fn law_unauthorized_head_response(
    method: Seq<char>,
    realm: Seq<char>,
    suggestion: Option<Seq<char>>,
)
    ensures
        unauthorized_model("HEAD"@, realm, suggestion) == (ResponseModel {
            body: None,
            ..unauthorized_model(method, realm, suggestion)
        }),
{
}

/// Whether a header value consists of visible ASCII characters, spaces and tabulators only.
pub open spec fn is_visible(value: Seq<u8>) -> bool {
    forall|i: int|
        0 <= i < value.len() ==> 0x20 <= #[trigger] value[i] < 0x7f || value[i] == 0x09
}

/// Calls `http::HeaderValue::to_str`, which succeeds if all bytes of the header value are visible
/// ASCII characters, spaces or tabulators. Bytes that cannot be a header value are not.
#[verifier::external_body]
fn converts_to_str(value: &[u8]) -> (r: bool)
    ensures
        r == is_visible(value@),
{
    HeaderValue::from_bytes(value).is_ok_and(|value| value.to_str().is_ok())
}

/// The byte separating authorization scheme and credentials.
pub const SPACE: u8 = 0x20;

/// The byte separating user name and password.
pub const COLON: u8 = 0x3a;

/// Reasons to refuse a request without looking at its credentials.
#[derive(Clone, Copy, Debug, PartialEq, Eq, Structural)]
pub enum Rejection {
    /// There is no `Authorization` header.
    MissingHeader,
    /// The `Authorization` header cannot be converted to text.
    NotText,
    /// The authorization scheme is not `Basic`.
    UnsupportedScheme,
    /// The credentials are not valid Base64.
    InvalidBase64,
}

/// User name and password.
#[derive(Debug)]
pub struct Credentials {
    pub user: String,
    pub password: Vec<u8>,
}

/// What user name and password are.
#[verifier::ext_equal]
pub struct CredentialsModel {
    pub user: Seq<char>,
    pub password: Seq<u8>,
}

impl View for Credentials {
    type V = CredentialsModel;

    open spec fn view(&self) -> CredentialsModel {
        CredentialsModel { user: self.user@, password: self.password@ }
    }
}

/// The credentials in the value of an `Authorization` header, still encoded: what follows the
/// first space, provided that `Basic` stands in front of it.
pub open spec fn basic_credentials(value: Seq<u8>) -> Option<Seq<u8>> {
    let scheme_len = position(value, SPACE) as int;
    if scheme_len < value.len() && value.take(scheme_len) == encode_utf8("Basic"@) {
        Some(value.skip(scheme_len + 1))
    } else {
        None
    }
}

/// The credentials of a request, still encoded.
pub open spec fn encoded_in(headers: HeaderMap<HeaderValue>) -> Result<Seq<u8>, Rejection> {
    match first_header(headers, encode_utf8("authorization"@)) {
        Some(value) => if !is_visible(value) {
            Err(Rejection::NotText)
        } else {
            match basic_credentials(value) {
                Some(encoded) => Ok(encoded),
                None => Err(Rejection::UnsupportedScheme),
            }
        },
        None => Err(Rejection::MissingHeader),
    }
}

/// The text that bytes encode, empty if they do not encode any.
pub open spec fn text_or_empty(bytes: Seq<u8>) -> Seq<char> {
    if valid_utf8(bytes) {
        decode_utf8(bytes)
    } else {
        Seq::empty()
    }
}

/// The meaning of decoded credentials: the user name stands before the first colon, the password
/// behind it. Without a colon both are empty.
pub open spec fn split_at_colon(decoded: Seq<u8>) -> CredentialsModel {
    let colon = position(decoded, COLON) as int;
    if colon < decoded.len() {
        CredentialsModel {
            user: text_or_empty(decoded.take(colon)),
            password: decoded.skip(colon + 1),
        }
    } else {
        CredentialsModel { user: Seq::empty(), password: Seq::empty() }
    }
}

/// The credentials, depending on the result of decoding them.
pub open spec fn decoded_credentials(decoded: Option<Seq<u8>>) -> Result<
    CredentialsModel,
    Rejection,
> {
    match decoded {
        Some(decoded) => Ok(split_at_colon(decoded)),
        None => Err(Rejection::InvalidBase64),
    }
}

/// The credentials of a request.
pub open spec fn credentials_in(headers: HeaderMap<HeaderValue>) -> Result<
    CredentialsModel,
    Rejection,
> {
    match encoded_in(headers) {
        Ok(encoded) => decoded_credentials(base64_decoded(encoded)),
        Err(rejection) => Err(rejection),
    }
}

/// What is known about the credentials of a request.
pub open spec fn credentials_model(r: Result<Credentials, Rejection>) -> Result<
    CredentialsModel,
    Rejection,
> {
    match r {
        Ok(credentials) => Ok(credentials@),
        Err(rejection) => Err(rejection),
    }
}

/// Extracts the credentials from the `Authorization` header of a request, without decoding them.
pub fn encoded_credentials(request: &Request) -> (r: Result<Vec<u8>, Rejection>)
    ensures
        match r {
            Ok(encoded) => encoded_in(request.headers) == Ok::<_, Rejection>(encoded@),
            Err(rejection) => encoded_in(request.headers) == Err::<Seq<u8>, _>(rejection),
        },
        ({
            let contents = header_contents(request.headers);
            let key = encode_utf8("authorization"@);
            match r {
                Ok(encoded) => contents.contains_key(key) && contents[key][0] == encode_utf8(
                    "Basic "@,
                ) + encoded@,
                Err(Rejection::MissingHeader) => !contents.contains_key(key),
                Err(Rejection::NotText) => contents.contains_key(key) && exists|i: int|
                    0 <= i < contents[key][0].len() && !(0x20 <= #[trigger] contents[key][0][i]
                        <= 0x7e) && contents[key][0][i] != 0x09,
                Err(Rejection::UnsupportedScheme) => contents.contains_key(key) && !encode_utf8(
                    "Basic "@,
                ).is_prefix_of(contents[key][0]),
                Err(Rejection::InvalidBase64) => false,
            }
        }),
{
    proof {
        law_encoded_credentials(request.headers);
    }
    let auth = match header_value(&request.headers, "authorization".as_bytes()) {
        Some(auth) => auth,
        None => {
            return Err(Rejection::MissingHeader);
        },
    };
    if !converts_to_str(auth.as_slice()) {
        return Err(Rejection::NotText);
    }
    let auth = auth.as_slice();
    let end = find_byte(auth, 0, SPACE);
    assert(auth@.skip(0) =~= auth@);
    assert(auth@.subrange(0, end as int) =~= auth@.take(end as int));
    if end == auth.len() || !same_bytes(slice_subrange(auth, 0, end), "Basic".as_bytes()) {
        return Err(Rejection::UnsupportedScheme);
    }
    assert(auth@.subrange(end + 1, auth@.len() as int) =~= auth@.skip(end + 1));
    Ok(slice_to_vec(slice_subrange(auth, end + 1, auth.len())))
}

/// Splits decoded credentials into user name and password.
pub fn split_credentials(decoded: &[u8]) -> (r: Credentials)
    ensures
        r@ == split_at_colon(decoded@),
        !decoded@.contains(0x3a) ==> r.user@.len() == 0 && r.password@.len() == 0,
        decoded@.contains(0x3a) ==> exists|name: Seq<u8>|
            {
                &&& decoded@ == #[trigger] (name + seq![0x3au8] + r.password@)
                &&& !name.contains(0x3a)
                &&& valid_utf8(name) ==> encode_utf8(r.user@) == name
                &&& !valid_utf8(name) ==> r.user@.len() == 0
            },
{
    proof {
        law_split_credentials(decoded@);
    }
    let colon = find_byte(decoded, 0, COLON);
    assert(decoded@.skip(0) =~= decoded@);
    if colon < decoded.len() {
        assert(decoded@.subrange(0, colon as int) =~= decoded@.take(colon as int));
        assert(decoded@.subrange(colon + 1, decoded@.len() as int) =~= decoded@.skip(colon + 1));
        let user = match utf8_text(slice_to_vec(slice_subrange(decoded, 0, colon))) {
            Some(user) => user,
            None => String::new(),
        };
        let r = Credentials {
            user,
            password: slice_to_vec(slice_subrange(decoded, colon + 1, decoded.len())),
        };
        proof {
            let model = split_at_colon(decoded@);
            assert(r@ == model);
            assert(decoded@.contains(decoded@[colon as int]));
            let name = choose|name: Seq<u8>|
                {
                    &&& decoded@ == #[trigger] (name + seq![0x3au8] + model.password)
                    &&& !name.contains(0x3a)
                    &&& valid_utf8(name) ==> encode_utf8(model.user) == name
                    &&& !valid_utf8(name) ==> model.user.len() == 0
                };
            assert(r.password@ == model.password);
            assert(decoded@ == name + seq![0x3au8] + r.password@);
        }
        r
    } else {
        let r = Credentials { user: String::new(), password: Vec::new() };
        assert(r@ =~= split_at_colon(decoded@));
        assert(!decoded@.contains(0x3a)) by {
            if decoded@.contains(0x3a) {
                let i = choose|i: int| 0 <= i < decoded@.len() && decoded@[i] == 0x3a;
                assert(decoded@[i] != COLON);
            }
        }
        r
    }
}

/// Determines the credentials from the result of decoding them.
pub fn finish_credentials(decoded: Option<Vec<u8>>) -> (r: Result<Credentials, Rejection>)
    ensures
        credentials_model(r) == decoded_credentials(
            match decoded {
                Some(decoded) => Some(decoded@),
                None => None,
            },
        ),
        decoded matches Some(decoded) ==> (r matches Ok(credentials) && credentials@
            == split_at_colon(decoded@)),
        decoded is None ==> r == Err::<Credentials, _>(Rejection::InvalidBase64),
{
    match decoded {
        Some(decoded) => Ok(split_credentials(decoded.as_slice())),
        None => Err(Rejection::InvalidBase64),
    }
}

/// Determines the credentials of a request.
pub fn credentials(request: &Request) -> (r: Result<Credentials, Rejection>)
    ensures
        credentials_model(r) == credentials_in(request.headers),
        r matches Ok(credentials) ==> exists|decoded: Seq<u8>|
            {
                &&& header_contents(request.headers).contains_key(encode_utf8("authorization"@))
                &&& header_contents(request.headers)[encode_utf8("authorization"@)][0]
                    == encode_utf8("Basic "@) + #[trigger] base64_text(decoded)
                &&& credentials@ == split_at_colon(decoded)
                &&& credentials.user@ == split_at_colon(decoded).user
                &&& credentials.password@ == split_at_colon(decoded).password
            },
        r matches Err(Rejection::InvalidBase64) ==> {
            &&& header_contents(request.headers).contains_key(encode_utf8("authorization"@))
            &&& forall|decoded: Seq<u8>|
                header_contents(request.headers)[encode_utf8("authorization"@)][0] != encode_utf8(
                    "Basic "@,
                ) + #[trigger] base64_text(decoded)
        },
{
    proof {
        law_encoded_credentials(request.headers);
    }
    let encoded = match encoded_credentials(request) {
        Ok(encoded) => encoded,
        Err(rejection) => {
            return Err(rejection);
        },
    };
    match base64_decode(encoded.as_slice()) {
        Ok(decoded) => {
            proof {
                law_base64_is_decoded(decoded@);
            }
            finish_credentials(Some(decoded))
        },
        Err(_) => {
            proof {
                let scheme = encode_utf8("Basic "@);
                assert forall|decoded: Seq<u8>| scheme + encoded@ != scheme + #[trigger]
                    base64_text(decoded) by {
                    assert((scheme + encoded@).skip(scheme.len() as int) =~= encoded@);
                    assert((scheme + base64_text(decoded)).skip(scheme.len() as int)
                        =~= base64_text(decoded));
                }
            }
            finish_credentials(None)
        },
    }
}

/// Joining a user name without colons and a password with a colon loses nothing: both are
/// recovered, whatever the password.
pub proof fn law_credentials_are_recovered(user: Seq<char>, password: Seq<u8>)
    requires
        !user.contains(':'),
    ensures
        split_at_colon(encode_utf8(user).push(COLON) + password) == (CredentialsModel {
            user,
            password,
        }),
{
    let name = encode_utf8(user);
    let joined = name.push(COLON) + password;
    assert forall|i: int| 0 <= i < user.len() implies #[trigger] user[i] as u32 != COLON by {
        assert(user.contains(user[i]));
        char_u32_cast(user[i], user[i] as u32);
    }
    lemma_no_ascii_byte(user, COLON);
    lemma_position(joined, COLON);
    let colon = position(joined, COLON) as int;
    if colon < name.len() {
        assert(joined[colon] == name[colon]);
    }
    if colon > name.len() {
        assert(joined[name.len() as int] == COLON);
    }
    assert(joined.take(colon) =~= name);
    assert(joined.skip(colon + 1) =~= password);
    encode_utf8_valid_utf8(user);
    encode_utf8_decode_utf8(user);
}

/// The value of an `Authorization` header for a user name and a password, the way clients write
/// it.
pub open spec fn authorization(user: Seq<char>, password: Seq<u8>) -> Seq<u8> {
    encode_utf8("Basic"@).push(SPACE) + base64_text(encode_utf8(user).push(COLON) + password)
}

/// A user name without colons and a password that a client puts into the `Authorization` header
/// are the credentials of its request, whatever the password.
pub proof fn law_authorization_is_understood(
    headers: HeaderMap<HeaderValue>,
    user: Seq<char>,
    password: Seq<u8>,
)
    requires
        first_header(headers, encode_utf8("authorization"@)) == Some(authorization(user, password)),
        !user.contains(':'),
    ensures
        credentials_in(headers) == Ok::<_, Rejection>(CredentialsModel { user, password }),
{
    let scheme = encode_utf8("Basic"@);
    let joined = encode_utf8(user).push(COLON) + password;
    let value = authorization(user, password);
    reveal_strlit("Basic");
    is_ascii_chars_encode_utf8("Basic"@);
    lemma_base64_text_bytes(joined);
    assert forall|i: int| 0 <= i < value.len() implies 0x20 <= #[trigger] value[i] < 0x7f by {
        if i < scheme.len() {
            assert(value[i] == scheme[i]);
        } else if i > scheme.len() {
            assert(value[i] == base64_text(joined)[i - scheme.len() - 1]);
        }
    }
    lemma_position(value, SPACE);
    let end = position(value, SPACE) as int;
    assert(value[scheme.len() as int] == SPACE);
    if end < scheme.len() {
        assert(value[end] == scheme[end]);
    }
    assert(value.take(end) =~= scheme);
    assert(value.skip(end + 1) =~= base64_text(joined));
    law_base64_is_decoded(joined);
    law_credentials_are_recovered(user, password);
}

/// A step of checking a request.
#[derive(Debug)]
pub enum AuthStep {
    /// The request should be answered with this response.
    Respond(Response),
    /// It needs to be checked whether this login attempt exceeds the rate limits.
    CheckRateLimit(Credentials),
    /// It needs to be checked whether these credentials are valid.
    ValidateLogin(Credentials),
    /// The request is authorized, it should be processed further as a request by this user.
    Accept(String),
}

/// What a step says.
pub enum StepModel {
    Respond(ResponseModel),
    CheckRateLimit(CredentialsModel),
    ValidateLogin(CredentialsModel),
    Accept(Seq<char>),
}

impl View for AuthStep {
    type V = StepModel;

    open spec fn view(&self) -> StepModel {
        match *self {
            AuthStep::Respond(response) => StepModel::Respond(response@),
            AuthStep::CheckRateLimit(credentials) => StepModel::CheckRateLimit(credentials@),
            AuthStep::ValidateLogin(credentials) => StepModel::ValidateLogin(credentials@),
            AuthStep::Accept(user) => StepModel::Accept(user@),
        }
    }
}

impl AuthStep {
    /// What became of the request once this step has been performed, `None` if the check is not
    /// finished.
    pub fn result(&self) -> (r: Option<RequestFilterResult>)
        ensures
            r == (match self@ {
                StepModel::Respond(_) => Some(RequestFilterResult::ResponseSent),
                StepModel::Accept(_) => Some(RequestFilterResult::Unhandled),
                _ => None,
            }),
            *self is Respond <==> r == Some(RequestFilterResult::ResponseSent),
            *self is Accept <==> r == Some(RequestFilterResult::Unhandled),
    {
        match self {
            AuthStep::Respond(_) => Some(RequestFilterResult::ResponseSent),
            AuthStep::Accept(_) => Some(RequestFilterResult::Unhandled),
            _ => None,
        }
    }
}

/// The step that a function returned.
pub open spec fn step_model(r: Result<AuthStep, Error>) -> Result<StepModel, Error> {
    match r {
        Ok(step) => Ok(step@),
        Err(error) => Err(error),
    }
}

/// The step that refuses a request.
pub open spec fn refused(
    method: Seq<char>,
    realm: Seq<char>,
    suggestion: Option<Seq<char>>,
) -> Result<StepModel, Error> {
    if is_header_text(realm) {
        Ok(StepModel::Respond(unauthorized_model(method, realm, suggestion)))
    } else {
        Err(Error::InvalidHeader)
    }
}

/// The step after determining the credentials: requests without usable credentials are refused,
/// for all others the rate limits have to be checked.
pub open spec fn after_parsing(
    parsed: Result<CredentialsModel, Rejection>,
    method: Seq<char>,
    realm: Seq<char>,
) -> Result<StepModel, Error> {
    match parsed {
        Ok(credentials) => Ok(StepModel::CheckRateLimit(credentials)),
        Err(_) => refused(method, realm, None),
    }
}

/// The step after checking the rate limits: if they are exceeded the credentials do not matter.
pub open spec fn after_rate_limit(
    credentials: CredentialsModel,
    limited: bool,
    method: Seq<char>,
) -> StepModel {
    if limited {
        StepModel::Respond(standard_response(method, 429, None))
    } else {
        StepModel::ValidateLogin(credentials)
    }
}

/// The step after validating the credentials.
pub open spec fn after_validation(
    credentials: CredentialsModel,
    valid: bool,
    suggestion: Option<Seq<char>>,
    method: Seq<char>,
    realm: Seq<char>,
) -> Result<StepModel, Error> {
    if valid {
        Ok(StepModel::Accept(credentials.user))
    } else {
        refused(method, realm, suggestion)
    }
}

/// Builds the step that refuses a request.
fn refuse(method: &str, realm: &str, suggestion: Option<&str>) -> (r: Result<AuthStep, Error>)
    ensures
        step_model(r) == refused(method@, realm@, optional_str(suggestion)),
        is_header_text(realm@) ==> (r matches Ok(AuthStep::Respond(response)) && response@
            == unauthorized_model(method@, realm@, optional_str(suggestion))),
        !is_header_text(realm@) ==> r == Err::<AuthStep, _>(Error::InvalidHeader),
{
    match unauthorized_response(method, realm, suggestion) {
        Ok(response) => Ok(AuthStep::Respond(response)),
        Err(error) => Err(error),
    }
}

/// Continues the check of a request when its credentials have been determined.
pub fn credentials_parsed(
    parsed: Result<Credentials, Rejection>,
    method: &str,
    realm: &str,
) -> (r: Result<AuthStep, Error>)
    ensures
        step_model(r) == after_parsing(credentials_model(parsed), method@, realm@),
        parsed matches Ok(credentials) ==> r == Ok::<_, Error>(
            AuthStep::CheckRateLimit(credentials),
        ),
        parsed is Err && is_header_text(realm@) ==> (r matches Ok(AuthStep::Respond(response))
            && response@ == unauthorized_model(method@, realm@, None)),
        parsed is Err && !is_header_text(realm@) ==> r == Err::<AuthStep, _>(Error::InvalidHeader),
{
    match parsed {
        Ok(credentials) => Ok(AuthStep::CheckRateLimit(credentials)),
        Err(_) => refuse(method, realm, None),
    }
}

/// Starts the check of a request.
pub fn basic_auth(request: &Request, realm: &str) -> (r: Result<AuthStep, Error>)
    ensures
        step_model(r) == after_parsing(
            credentials_in(request.headers),
            request.method@,
            realm@,
        ),
        match r {
            Ok(AuthStep::CheckRateLimit(credentials)) => credentials_in(request.headers) == Ok::<
                _,
                Rejection,
            >(credentials@),
            Ok(AuthStep::Respond(response)) => credentials_in(request.headers) is Err && response@
                == unauthorized_model(request.method@, realm@, None),
            Ok(_) => false,
            Err(_) => credentials_in(request.headers) is Err && !is_header_text(realm@),
        },
{
    credentials_parsed(credentials(request), request.method.as_str(), realm)
}

/// Continues the check of a request when it is known whether it exceeds the rate limits.
pub fn rate_limit_checked(credentials: Credentials, limited: bool, method: &str) -> (r: Result<
    AuthStep,
    Error,
>)
    ensures
        step_model(r) == Ok::<_, Error>(after_rate_limit(credentials@, limited, method@)),
        r matches Ok(AuthStep::Respond(response)) ==> presents(
            response@,
            "429 Too Many Requests"@,
        ),
        !limited ==> r == Ok::<_, Error>(AuthStep::ValidateLogin(credentials)),
        limited ==> (r matches Ok(AuthStep::Respond(response)) && response.status@ == 429
            && response@ == standard_response(method@, 429, None)),
{
    if limited {
        match error_response(method, StatusCode::too_many_requests()) {
            Ok(response) => Ok(AuthStep::Respond(response)),
            Err(error) => Err(error),
        }
    } else {
        Ok(AuthStep::ValidateLogin(credentials))
    }
}

/// Concludes the check of a request when it is known whether its credentials are valid. The
/// suggestion is displayed if they are not.
pub fn login_validated(
    credentials: Credentials,
    valid: bool,
    suggestion: Option<String>,
    method: &str,
    realm: &str,
) -> (r: Result<AuthStep, Error>)
    ensures
        step_model(r) == after_validation(
            credentials@,
            valid,
            optional_text(suggestion),
            method@,
            realm@,
        ),
        valid ==> r == Ok::<_, Error>(AuthStep::Accept(credentials.user)),
        !valid && is_header_text(realm@) ==> (r matches Ok(AuthStep::Respond(response))
            && response@ == unauthorized_model(
            method@,
            realm@,
            if suggestion is Some {
                Some(suggestion->0@)
            } else {
                None
            },
        )),
        !valid && !is_header_text(realm@) ==> r == Err::<AuthStep, _>(Error::InvalidHeader),
{
    if valid {
        return Ok(AuthStep::Accept(credentials.user));
    }
    match suggestion {
        Some(suggestion) => refuse(method, realm, Some(suggestion.as_str())),
        None => refuse(method, realm, None),
    }
}

/// The final outcome of checking a request, given what is known about its credentials.
pub open spec fn check_outcome(
    parsed: Result<CredentialsModel, Rejection>,
    limited: bool,
    valid: bool,
    suggestion: Option<Seq<char>>,
    method: Seq<char>,
    realm: Seq<char>,
) -> Result<StepModel, Error> {
    match after_parsing(parsed, method, realm) {
        Ok(StepModel::CheckRateLimit(credentials)) => match after_rate_limit(
            credentials,
            limited,
            method,
        ) {
            StepModel::ValidateLogin(credentials) => after_validation(
                credentials,
                valid,
                suggestion,
                method,
                realm,
            ),
            step => Ok(step),
        },
        first => first,
    }
}

/// A request is processed further if and only if it has usable and valid credentials and does
/// not exceed the rate limits, and then as a request by the user that the credentials name.
pub proof fn law_only_valid_logins_are_accepted(
    parsed: Result<CredentialsModel, Rejection>,
    limited: bool,
    valid: bool,
    suggestion: Option<Seq<char>>,
    method: Seq<char>,
    realm: Seq<char>,
    user: Seq<char>,
)
    ensures
        check_outcome(parsed, limited, valid, suggestion, method, realm) == Ok::<_, Error>(
            StepModel::Accept(user),
        ) <==> parsed is Ok && parsed->Ok_0.user == user && !limited && valid,
{
}

/// Every request that is not accepted gets a response. If it exceeds the rate limits this is the
/// standard response for status code 429, otherwise a response with status code 401 that
/// challenges the client to authenticate for the realm.
pub proof fn law_refused_requests_are_challenged(
    parsed: Result<CredentialsModel, Rejection>,
    limited: bool,
    valid: bool,
    suggestion: Option<Seq<char>>,
    method: Seq<char>,
    realm: Seq<char>,
)
    requires
        is_header_text(realm),
        parsed is Err || limited || !valid,
    ensures
        check_outcome(parsed, limited, valid, suggestion, method, realm) matches Ok(
            StepModel::Respond(response),
        ) && if parsed is Ok && limited {
            response == standard_response(method, 429, None)
        } else {
            &&& response.status == 401
            &&& response.headers.contains(("www-authenticate"@, challenge(realm)))
        },
{
    let with_suggestion = unauthorized_model(method, realm, suggestion);
    let without = unauthorized_model(method, realm, None);
    assert(with_suggestion.headers[2] == ("www-authenticate"@, challenge(realm)));
    assert(without.headers[2] == ("www-authenticate"@, challenge(realm)));
}

/// The response to a request that is not authorized has status code 401, announces the size of its
/// page in bytes and names the realm in quotes, exactly as configured. The page is its body unless
/// it responds to a HEAD request.
pub proof fn law_unauthorized_response(
    method: Seq<char>,
    realm: Seq<char>,
    suggestion: Option<Seq<char>>,
)
    ensures
        ({
            let response = unauthorized_model(method, realm, suggestion);
            let page = unauthorized_page(suggestion);
            &&& response.status == 401
            &&& response.headers == seq![
                ("content-length"@, decimal(encode_utf8(page).len())),
                ("content-type"@, "text/html;charset=utf-8"@),
                ("www-authenticate"@, "Basic realm=\""@ + realm + "\""@),
            ]
            &&& method == "HEAD"@ ==> response.body is None
            &&& method != "HEAD"@ ==> response.body == Some(page)
        }),
{
    assert(unauthorized_model(method, realm, suggestion).headers =~= seq![
        ("content-length"@, decimal(encode_utf8(unauthorized_page(suggestion)).len())),
        ("content-type"@, "text/html;charset=utf-8"@),
        ("www-authenticate"@, "Basic realm=\""@ + realm + "\""@),
    ]);
}

/// Clients can tell realms apart: removing the same text in front of it and behind it from the
/// challenge leaves the name of the realm, and different realms have different challenges.
pub proof fn law_challenge_names_realm(
    method: Seq<char>,
    a: Seq<char>,
    b: Seq<char>,
    suggestion: Option<Seq<char>>,
)
    ensures
        ({
            let x = unauthorized_model(method, a, suggestion).headers[2];
            let y = unauthorized_model(method, b, suggestion).headers[2];
            let start = "Basic realm=\""@;
            &&& x.0 == "www-authenticate"@
            &&& x.1.len() == start.len() + a.len() + 1
            &&& x.1.take(start.len() as int) == start
            &&& x.1.subrange(start.len() as int, x.1.len() - 1) == a
            &&& x.1.last() == '"'
            &&& x == y ==> a == b
        }),
{
    reveal_strlit("\"");
    law_unauthorized_response(method, a, suggestion);
    law_unauthorized_response(method, b, suggestion);
    let start = "Basic realm=\""@;
    let x = unauthorized_model(method, a, suggestion).headers[2].1;
    let y = unauthorized_model(method, b, suggestion).headers[2].1;
    assert(x.take(start.len() as int) =~= start);
    assert(x.subrange(start.len() as int, x.len() - 1) =~= a);
    assert(y.subrange(start.len() as int, y.len() - 1) =~= b);
}

/// The encoded credentials of a request are what follows the authorization scheme and a space in
/// the first `Authorization` header. A request is rejected if it has no such header, if the header
/// has bytes that are not visible, or if it does not start with the scheme, in this order.
pub proof fn law_encoded_credentials(headers: HeaderMap<HeaderValue>)
    ensures
        ({
            let contents = header_contents(headers);
            let key = encode_utf8("authorization"@);
            let scheme = encode_utf8("Basic "@);
            let visible = forall|i: int|
                0 <= i < contents[key][0].len() ==> 0x20 <= #[trigger] contents[key][0][i] <= 0x7e
                    || contents[key][0][i] == 0x09;
            encoded_in(headers) == (if !contents.contains_key(key) {
                Err(Rejection::MissingHeader)
            } else if !visible {
                Err(Rejection::NotText)
            } else if scheme.is_prefix_of(contents[key][0]) {
                Ok(contents[key][0].skip(scheme.len() as int))
            } else {
                Err(Rejection::UnsupportedScheme)
            })
        }),
        encoded_in(headers) matches Ok(encoded) ==> header_contents(
            headers,
        )[encode_utf8("authorization"@)][0] == encode_utf8("Basic "@) + encoded,
{
    reveal_strlit("authorization");
    reveal_strlit("Basic");
    reveal_strlit("Basic ");
    is_ascii_chars_encode_utf8("authorization"@);
    is_ascii_chars_encode_utf8("Basic"@);
    is_ascii_chars_encode_utf8("Basic "@);
    let contents = header_contents(headers);
    let key = encode_utf8("authorization"@);
    let scheme = encode_utf8("Basic "@);
    let short = encode_utf8("Basic"@);
    assert(scheme =~= short.push(0x20));
    assert(short =~= seq![0x42u8, 0x61u8, 0x73u8, 0x69u8, 0x63u8]);
    law_first_header(headers, key, key);
    if contents.contains_key(key) {
        let value = contents[key][0];
        lemma_position(value, SPACE);
        if scheme.is_prefix_of(value) {
            assert(value.take(6) =~= scheme);
            assert forall|i: int| 0 <= i < 5 implies #[trigger] value[i] != SPACE by {
                assert(value[i] == value.take(6)[i]);
            }
            assert(value[5] == value.take(6)[5]);
            lemma_position_is_first(value, SPACE, 5);
            assert(value.take(5) =~= short);
            assert(value =~= scheme + value.skip(6));
        }
        if basic_credentials(value) is Some {
            let end = position(value, SPACE) as int;
            assert(value.take(end).len() == 5);
            assert forall|i: int| 0 <= i < 5 implies #[trigger] value[i] == short[i] by {
                assert(value[i] == value.take(end)[i]);
            }
            assert(scheme =~= value.subrange(0, 6));
        }
    }
}

/// Credentials consist of the user name, a colon and the password. The first colon counts, so that
/// the password can contain more of them. A user name that is not text, and all of credentials
/// without a colon, are considered empty.
pub proof fn law_split_credentials(decoded: Seq<u8>)
    ensures
        ({
            let credentials = split_at_colon(decoded);
            &&& !decoded.contains(0x3a) ==> credentials.user.len() == 0
                && credentials.password.len() == 0
            &&& decoded.contains(0x3a) ==> exists|name: Seq<u8>|
                {
                    &&& decoded == #[trigger] (name + seq![0x3au8] + credentials.password)
                    &&& !name.contains(0x3a)
                    &&& valid_utf8(name) ==> encode_utf8(credentials.user) == name
                    &&& !valid_utf8(name) ==> credentials.user.len() == 0
                }
        }),
{
    lemma_position(decoded, COLON);
    let colon = position(decoded, COLON) as int;
    if decoded.contains(0x3a) {
        let i = choose|i: int| 0 <= i < decoded.len() && decoded[i] == 0x3a;
        if colon == decoded.len() {
            assert(decoded[i] != COLON);
        }
        let name = decoded.take(colon);
        let password = split_at_colon(decoded).password;
        assert(decoded =~= name + seq![0x3au8] + password);
        assert forall|k: int| 0 <= k < name.len() implies name[k] != 0x3a by {
            assert(name[k] == decoded[k]);
        }
        if valid_utf8(name) {
            decode_utf8_encode_utf8(name);
        }
        assert(decoded == name + seq![0x3au8] + password);
    } else if colon < decoded.len() {
        assert(decoded.contains(decoded[colon]));
    }
}

/// The user name and the password in the `Authorization` header of a request, in full, are those
/// for which the rate limits are checked and then the login is validated. A valid login is
/// accepted for this very user.
pub proof fn law_login_is_checked_with_credentials(
    headers: HeaderMap<HeaderValue>,
    user: Seq<char>,
    password: Seq<u8>,
    method: Seq<char>,
    realm: Seq<char>,
    suggestion: Option<Seq<char>>,
)
    requires
        header_contents(headers).contains_key(encode_utf8("authorization"@)),
        header_contents(headers)[encode_utf8("authorization"@)][0] == encode_utf8("Basic "@)
            + base64_text(encode_utf8(user) + seq![0x3au8] + password),
        !user.contains(':'),
    ensures
        ({
            let credentials = CredentialsModel { user, password };
            &&& credentials_in(headers) == Ok::<_, Rejection>(credentials)
            &&& after_parsing(credentials_in(headers), method, realm) == Ok::<_, Error>(
                StepModel::CheckRateLimit(credentials),
            )
            &&& after_rate_limit(credentials, false, method) == StepModel::ValidateLogin(
                credentials,
            )
            &&& after_validation(credentials, true, suggestion, method, realm) == Ok::<_, Error>(
                StepModel::Accept(user),
            )
        }),
{
    reveal_strlit("authorization");
    reveal_strlit("Basic");
    reveal_strlit("Basic ");
    is_ascii_chars_encode_utf8("authorization"@);
    is_ascii_chars_encode_utf8("Basic"@);
    is_ascii_chars_encode_utf8("Basic "@);
    let key = encode_utf8("authorization"@);
    law_first_header(headers, key, key);
    assert(encode_utf8("Basic "@) =~= encode_utf8("Basic"@).push(SPACE));
    assert(encode_utf8(user) + seq![0x3au8] =~= encode_utf8(user).push(COLON));
    law_authorization_is_understood(headers, user, password);
}

/// Passing on credentials changes nothing about them: the login is validated with exactly the
/// credentials for which the rate limits were checked, unless these are exceeded. Then the
/// response has status code 429. A login that is not valid is refused with the suggestion given.
pub proof fn law_credentials_are_passed_on(
    credentials: CredentialsModel,
    limited: bool,
    valid: bool,
    suggestion: Option<Seq<char>>,
    method: Seq<char>,
    realm: Seq<char>,
)
    ensures
        after_rate_limit(credentials, limited, method) is ValidateLogin <==> !limited,
        after_rate_limit(credentials, limited, method) matches StepModel::ValidateLogin(passed)
            ==> passed.user == credentials.user && passed.password == credentials.password,
        after_rate_limit(credentials, limited, method) matches StepModel::Respond(response)
            ==> response.status == 429 && response == standard_response(method, 429, None),
        after_validation(credentials, valid, suggestion, method, realm) == Ok::<_, Error>(
            StepModel::Accept(credentials.user),
        ) <==> valid,
        !valid && is_header_text(realm) ==> after_validation(
            credentials,
            valid,
            suggestion,
            method,
            realm,
        ) == Ok::<_, Error>(StepModel::Respond(unauthorized_model(method, realm, suggestion))),
        !valid && !is_header_text(realm) ==> after_validation(
            credentials,
            valid,
            suggestion,
            method,
            realm,
        ) == Err::<StepModel, _>(Error::InvalidHeader),
{
    law_standard_response(method, 429, None);
}

/// If the encoded credentials of a request are the Base64 encoding of some bytes, these bytes are
/// its credentials. Otherwise the request is rejected, and for the same reason as before if there
/// are no encoded credentials.
pub proof fn law_credentials_of_request(headers: HeaderMap<HeaderValue>, decoded: Seq<u8>)
    ensures
        encoded_in(headers) == Ok::<_, Rejection>(base64_text(decoded)) ==> credentials_in(headers)
            == Ok::<_, Rejection>(split_at_colon(decoded)),
        encoded_in(headers) matches Ok(encoded) ==> (credentials_in(headers) is Ok
            <==> exists|bytes: Seq<u8>| encoded == #[trigger] base64_text(bytes)),
        encoded_in(headers) is Ok && credentials_in(headers) is Err ==> credentials_in(headers)
            == Err::<CredentialsModel, _>(Rejection::InvalidBase64),
        encoded_in(headers) matches Err(rejection) ==> credentials_in(headers) == Err::<
            CredentialsModel,
            _,
        >(rejection),
{
    law_base64_is_decoded(decoded);
}

/// A request with usable credentials has the rate limits checked for these, whatever they are. Any
/// other request is refused without a suggestion.
pub proof fn law_usable_credentials_are_checked(
    parsed: Result<CredentialsModel, Rejection>,
    method: Seq<char>,
    realm: Seq<char>,
)
    ensures
        parsed matches Ok(credentials) ==> after_parsing(parsed, method, realm) == Ok::<_, Error>(
            StepModel::CheckRateLimit(credentials),
        ),
        parsed is Err && is_header_text(realm) ==> after_parsing(parsed, method, realm) == Ok::<
            _,
            Error,
        >(StepModel::Respond(unauthorized_model(method, realm, None))),
        parsed is Err && !is_header_text(realm) ==> after_parsing(parsed, method, realm) == Err::<
            StepModel,
            _,
        >(Error::InvalidHeader),
{
}

/// What a step says is what it consists of.
pub proof fn law_step_model(step: AuthStep, credentials: Credentials)
    ensures
        credentials@.user == credentials.user@,
        credentials@.password == credentials.password@,
        step matches AuthStep::Respond(response) ==> step@ == StepModel::Respond(response@),
        step matches AuthStep::CheckRateLimit(checked) ==> step@ == StepModel::CheckRateLimit(
            checked@,
        ),
        step matches AuthStep::ValidateLogin(checked) ==> step@ == StepModel::ValidateLogin(
            checked@,
        ),
        step matches AuthStep::Accept(user) ==> step@ == StepModel::Accept(user@),
        step_model(Ok(step)) == Ok::<_, Error>(step@),
        step_model(Err(Error::InvalidHeader)) == Err::<StepModel, _>(Error::InvalidHeader),
        credentials_model(Ok(credentials)) == Ok::<_, Rejection>(credentials@),
        forall|rejection: Rejection|
            #[trigger] credentials_model(Err(rejection)) == Err::<CredentialsModel, _>(rejection),
{
}

} // verus!
