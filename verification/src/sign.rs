//! The request-signing and dispatch runtime that every generated method
//! delegates to: building the path and query, signing it with a keyed hash,
//! and classifying and rendering request failures.

use vstd::prelude::*;

use hmac::Mac;

use crate::text::{dec_text_of, string_push, u16_to_text};
use crate::ty::ApiError;

verus! {

/// The fixed base host every request is sent to.
pub const API_URL: &'static str = "https://timetableapi.ptv.vic.gov.au";

/// The keyed hash the signature scheme uses, as `hmac` computes it over
/// `sha1`: a function of the secret key and the exact message bytes alone.
pub uninterp spec fn hmac_sha1_of(key: Seq<u8>, msg: Seq<u8>) -> Seq<u8>;

/// Relies on `hmac::Hmac<sha1::Sha1>`: a 20-byte tag depending on key and
/// message alone; keys of any length are accepted (long keys are hashed
/// first), so construction cannot fail.
#[verifier::external_body]
fn hmac_sha1(key: &[u8], msg: &[u8]) -> (r: Vec<u8>)
    ensures
        r@ == hmac_sha1_of(key@, msg@),
        r@.len() == 20,
{
    let mut mac: hmac::Hmac<sha1::Sha1> = hmac::Hmac::new_from_slice(key).unwrap();
    mac.update(msg);
    mac.finalize().into_bytes().to_vec()
}

/// The sixteen lower-case hex digits.
pub const HEX_DIGITS_LOWER: [char; 16] = ['0', '1', '2', '3', '4', '5', '6', '7', '8', '9', 'a', 'b', 'c', 'd', 'e', 'f'];

/// The lower-case hex encoding of a byte string, high nibble first.
pub open spec fn hex_lower_of(data: Seq<u8>) -> Seq<char>
    decreases data.len(),
{
    if data.len() == 0 {
        Seq::empty()
    } else {
        seq![
            HEX_DIGITS_LOWER@[(data.first() >> 4u8) as int],
            HEX_DIGITS_LOWER@[(data.first() & 0x0fu8) as int],
        ] + hex_lower_of(data.drop_first())
    }
}

/// Relies on hex::encode: two lower-case hex digits per byte, high nibble
/// first.
#[verifier::external_body]
fn hex_encode(data: &[u8]) -> (r: String)
    ensures
        r@ == hex_lower_of(data@),
{
    hex::encode(data)
}

/// A character with the six lower-case hex letters raised to upper case and
/// everything else untouched.
pub open spec fn upcase_hex_char(c: char) -> char {
    if c == 'a' {
        'A'
    } else if c == 'b' {
        'B'
    } else if c == 'c' {
        'C'
    } else if c == 'd' {
        'D'
    } else if c == 'e' {
        'E'
    } else if c == 'f' {
        'F'
    } else {
        c
    }
}

/// A string with each character raised by `upcase_hex_char`.
pub open spec fn upcase_hex_of(s: Seq<char>) -> Seq<char> {
    Seq::new(s.len(), |i: int| upcase_hex_char(s[i]))
}

/// The upper-case hex encoding of a byte string: the only encoding the
/// remote server's signature verification accepts.
pub open spec fn hex_upper_of(data: Seq<u8>) -> Seq<char> {
    upcase_hex_of(hex_lower_of(data))
}

/// Raises the hex letters of a string to upper case.
fn upcase_hex(s: &str) -> (r: String)
    ensures
        r@ == upcase_hex_of(s@),
{
    let n = s.unicode_len();
    let mut out = String::new();
    for i in 0..n
        invariant
            n == s@.len(),
            out@.len() == i,
            forall|j: int| 0 <= j < i ==> out@[j] == upcase_hex_char(s@[j]),
    {
        let c = s.get_char(i);
        let u = if c == 'a' {
            'A'
        } else if c == 'b' {
            'B'
        } else if c == 'c' {
            'C'
        } else if c == 'd' {
            'D'
        } else if c == 'e' {
            'E'
        } else if c == 'f' {
            'F'
        } else {
            c
        };
        string_push(&mut out, u);
    }
    proof {
        assert(out@ =~= upcase_hex_of(s@));
    }
    out
}

/// The path with the client identifier appended as a query parameter: a `?`
/// is opened when none exists, nothing is added after a trailing `?`, and
/// `&` separates it from existing parameters.
pub open spec fn devid_path_of(path: Seq<char>, devid: Seq<char>) -> Seq<char> {
    let sep: Seq<char> = if !path.contains('?') {
        seq!['?']
    } else if path.len() > 0 && path.last() == '?' {
        Seq::empty()
    } else {
        seq!['&']
    };
    path + sep + "devid="@ + devid
}

/// Appends the client identifier to the path's query string.
pub fn append_devid(path: &str, devid: &str) -> (r: String)
    ensures
        r@ == devid_path_of(path@, devid@),
{
    let mut out = path.to_owned();
    if !crate::text::contains_char(path, '?') {
        proof {
            reveal_strlit("?");
            assert("?"@ =~= seq!['?']);
        }
        out.append("?");
    } else if crate::text::ends_with_char(path, '?') {
        proof {
            assert(path@ + Seq::<char>::empty() =~= path@);
        }
    } else {
        proof {
            reveal_strlit("&");
            assert("&"@ =~= seq!['&']);
        }
        out.append("&");
    }
    out.append("devid=");
    out.append(devid);
    out
}

/// The signed path: the path with the client identifier appended, then the
/// upper-case hex HMAC-SHA1 signature of exactly those bytes under the
/// secret token, appended as the final `signature` query parameter.
pub open spec fn signed_path_of(path: Seq<char>, devid: Seq<char>, token: Seq<char>) -> Seq<
    char,
> {
    let p1 = devid_path_of(path, devid);
    p1 + "&signature="@ + hex_upper_of(
        hmac_sha1_of(
            vstd::utf8::encode_utf8(token),
            vstd::utf8::encode_utf8(p1),
        ),
    )
}

/// Builds the signed path+query for a request.
pub fn build_signed_path(path: &str, devid: &str, token: &str) -> (r: String)
    ensures
        r@ == signed_path_of(path@, devid@, token@),
{
    let p1 = append_devid(path, devid);
    let tag = hmac_sha1(token.as_bytes(), p1.as_str().as_bytes());
    let hex_lower = hex_encode(tag.as_slice());
    let sig = upcase_hex(hex_lower.as_str());
    let mut out = p1;
    out.append("&signature=");
    out.append(sig.as_str());
    out
}

/// The full request URL: the fixed base host followed by the signed path.
pub open spec fn signed_url_of(path: Seq<char>, devid: Seq<char>, token: Seq<char>) -> Seq<
    char,
> {
    API_URL@ + signed_path_of(path, devid, token)
}

/// Whether an HTTP status is a success.
pub open spec fn is_success_status(status: u16) -> bool {
    200 <= status <= 299
}

/// Tests an HTTP status for success.
pub fn status_is_success(status: u16) -> (r: bool)
    ensures
        r == is_success_status(status),
{
    status >= 200 && status <= 299
}

/// A request failure surfaced to the caller; nothing is retried or
/// swallowed.
#[derive(Debug)]
pub enum RequestError {
    /// A non-success HTTP status, with the structured error body's message
    /// when one could be decoded.
    Failed { status: u16, message: Option<String> },
    /// A success-status body that failed to decode into the expected type:
    /// the exact path of the mismatch, the decoder's detail, and the raw
    /// body for diagnosis.
    Decode { path: String, detail: String, body: String },
}

/// Classifies a non-success response: with a decodable structured error
/// body the failure carries its message, without one only the status.
pub fn classify_response(status: u16, body: Option<ApiError>) -> (r: RequestError)
    requires
        !is_success_status(status),
    ensures
        match body {
            Option::Some(e) => r matches RequestError::Failed { status: s, message }
                && s == status && (message matches Option::Some(m) && m@ == e.message@),
            Option::None => r matches RequestError::Failed { status: s, message } && s
                == status && message is None,
        },
{
    match body {
        Option::Some(e) => RequestError::Failed {
            status,
            message: Option::Some(e.message),
        },
        Option::None => RequestError::Failed { status, message: Option::None },
    }
}

/// The message a failure renders to: the status and, when present, the
/// structured body's message; a decode failure names the exact path at
/// which the document diverged, plus the raw body.
pub open spec fn render_of(e: RequestError) -> Seq<char> {
    match e {
        RequestError::Failed { status, message } => match message {
            Option::Some(m) => "Request failed: "@ + dec_text_of(status as int) + " - "@
                + m@,
            Option::None => "Request failed: "@ + dec_text_of(status as int),
        },
        RequestError::Decode { path, detail, body } => "Error at path: "@ + path@ + " "@
            + detail@ + " - response: "@ + body@,
    }
}

impl RequestError {
    /// Renders the failure for display.
    pub fn render(&self) -> (r: String)
        ensures
            r@ == render_of(*self),
    {
        match self {
            RequestError::Failed { status, message } => {
                let mut s = "Request failed: ".to_owned();
                let num = u16_to_text(*status);
                s.append(num.as_str());
                match message {
                    Option::Some(m) => {
                        s.append(" - ");
                        s.append(m.as_str());
                        s
                    },
                    Option::None => s,
                }
            },
            RequestError::Decode { path, detail, body } => {
                let mut s = "Error at path: ".to_owned();
                s.append(path.as_str());
                s.append(" ");
                s.append(detail.as_str());
                s.append(" - response: ");
                s.append(body.as_str());
                s
            },
        }
    }
}

/// The query form of a disruption-modes filter: the wrapped mode serializes
/// as its wire number.
#[derive(Clone, Copy, PartialEq, Eq, Structural, Debug)]
pub struct Modes(pub crate::ty::DisruptionMode);

impl Modes {
    /// The numeric value this filter serializes to.
    pub fn query_value(&self) -> (r: i8)
        ensures
            r == crate::ty::mode_number_of(self.0),
    {
        self.0.as_number()
    }
}

/// The API client: its static identifier and secret token, shared read-only
/// by every call.
#[derive(Debug)]
pub struct Client {
    devid: String,
    token: String,
}

impl Client {
    /// The client's static identifier.
    pub closed spec fn spec_devid(&self) -> Seq<char> {
        self.devid@
    }

    /// The client's secret token.
    pub closed spec fn spec_token(&self) -> Seq<char> {
        self.token@
    }

    /// A client with the given identifier and secret token.
    pub fn new(devid: String, token: String) -> (r: Self)
        ensures
            r.spec_devid() == devid@,
            r.spec_token() == token@,
    {
        Client { devid, token }
    }

    /// The full URL a request for the given path is dispatched to: base
    /// host, path with the identifier appended, and the signature over
    /// exactly those path+query bytes.
    pub fn request_url(&self, path: &str) -> (r: String)
        ensures
            r@ == signed_url_of(path@, self.spec_devid(), self.spec_token()),
    {
        let signed = build_signed_path(path, self.devid.as_str(), self.token.as_str());
        let mut out = API_URL.to_owned();
        out.append(signed.as_str());
        out
    }
}

} // verus!
