//! Per-request configuration of the transfer engine: method mapping with
//! its special cases, version pass-through, accepted encodings, serialized
//! header lines and upload size hints. The engine's owner applies this plan,
//! performs the exchange, and feeds the assembler's callbacks.

use vstd::prelude::*;

use crate::ascii_to_int::{all_digits, ascii_to_int, digits_value};
use crate::assembler::{spec_content_length_key, spec_identity_value, spec_transfer_encoding_key};
use crate::headers::{eq_ignore_ascii_case, spec_lower};
use crate::parser::Version;

verus! {

/// An HTTP request method. Anything beyond the named ones travels as a
/// custom verb.
#[derive(Clone, Debug, PartialEq, Eq)]
pub enum Method {
    Get,
    Head,
    Post,
    Put,
    Connect,
    Custom(String),
}

impl Method {
    /// Whether the exchange's final status must be read through the
    /// CONNECT-specific engine query instead of the general one.
    pub fn uses_connect_query(&self) -> (r: bool)
        ensures
            r == (*self matches Method::Connect),
    {
        match self {
            Method::Connect => true,
            _ => false,
        }
    }
}

/// An HTTP request: immutable once constructed, consumed by one `send`.
/// Headers keep their wire order; lookups take the first match.
pub struct Request {
    pub method: Method,
    pub uri: String,
    pub version: Version,
    pub headers: Vec<(Vec<u8>, Vec<u8>)>,
    pub body: Vec<u8>,
}

/// How the engine's method-related switches are set for one request.
pub enum MethodSetup {
    /// A plain GET request.
    Get,
    /// HEAD never waits for a response payload, whatever the body says.
    Head { upload: bool },
    /// POST, with its special redirect behavior.
    Post,
    /// A plain PUT upload.
    Put,
    /// Any other shape: raw upload when a body exists, verb passed through.
    Custom { upload: bool, verb: String },
}

/// The transfer-size hint handed to the engine alongside a non-empty body.
pub enum SizeHint {
    /// POST bodies are announced through the form-field size switch.
    PostFieldSize(u64),
    /// Every other upload announces a plain input file size.
    InFileSize(u64),
}

/// Options applied to the engine before any request-specific ones.
pub struct EngineDefaults {
    pub follow_redirects: bool,
    pub user_agent: String,
}

/// The full request-specific plan for one exchange.
pub struct EngineConfig {
    pub method: MethodSetup,
    pub url: String,
    pub version: Version,
    /// Empty asks the engine for every encoding it supports.
    pub accept_encoding: Vec<u8>,
    /// One `"Name: Value"` line per request header, in wire order.
    pub header_lines: Vec<Vec<u8>>,
    pub size_hint: Option<SizeHint>,
}

/// The fixed identifying client string sent with every request.
pub open spec fn spec_user_agent() -> Seq<char> {
    "ccloader-installer/0.1.0 (by @dmitmel)"@
}

/// The byte string `"accept-encoding"`.
pub open spec fn spec_accept_encoding_key() -> Seq<u8> {
    seq![97u8, 99u8, 99u8, 101u8, 112u8, 116u8, 45u8, 101u8, 110u8, 99u8, 111u8, 100u8, 105u8, 110u8, 103u8]
}

/// Index of the first header whose name equals `name` up to ASCII case.
pub open spec fn spec_find_header(headers: Seq<(Vec<u8>, Vec<u8>)>, name: Seq<u8>) -> Option<int>
    decreases headers.len(),
{
    if headers.len() == 0 {
        None
    } else if spec_lower(headers[0].0@) == spec_lower(name) {
        Some(0)
    } else {
        match spec_find_header(headers.drop_first(), name) {
            Some(i) => Some(i + 1),
            None => None,
        }
    }
}

/// A scan that found no match before `j`, and a match at `j` (or ran off the
/// end), pins down `spec_find_header`.
pub proof fn lemma_find_header_at(headers: Seq<(Vec<u8>, Vec<u8>)>, name: Seq<u8>, j: int)
    requires
        0 <= j <= headers.len(),
        forall|k: int| 0 <= k < j ==> spec_lower(#[trigger] headers[k].0@) != spec_lower(name),
        j < headers.len() ==> spec_lower(headers[j].0@) == spec_lower(name),
    ensures
        spec_find_header(headers, name) == (if j == headers.len() {
            None
        } else {
            Some(j)
        }),
    decreases headers.len(),
{
    if headers.len() == 0 {
    } else if spec_lower(headers[0].0@) == spec_lower(name) {
        assert(j == 0);
    } else {
        let tail = headers.drop_first();
        assert forall|k: int| 0 <= k < j - 1 implies spec_lower(#[trigger] tail[k].0@)
            != spec_lower(name) by {
            assert(tail[k] == headers[k + 1]);
        }
        assert(j >= 1);
        if j - 1 < tail.len() {
            assert(tail[j - 1] == headers[j]);
        }
        lemma_find_header_at(tail, name, j - 1);
    }
}

/// First value held under `name` in wire order, compared without regard to
/// ASCII case.
pub fn find_header<'a>(headers: &'a Vec<(Vec<u8>, Vec<u8>)>, name: &[u8]) -> (r: Option<
    &'a Vec<u8>,
>)
    ensures
        match r {
            Some(v) => spec_find_header(headers@, name@) matches Some(i) && v@ == headers@[i].1@,
            None => spec_find_header(headers@, name@) is None,
        },
{
    let n = headers.len();
    let mut i: usize = 0;
    while i < n
        invariant
            n == headers@.len(),
            0 <= i <= n,
            forall|k: int| 0 <= k < i ==> spec_lower(#[trigger] headers@[k].0@) != spec_lower(
                name@,
            ),
        decreases n - i,
    {
        if eq_ignore_ascii_case(headers[i].0.as_slice(), name) {
            proof {
                lemma_find_header_at(headers@, name@, i as int);
            }
            return Some(&headers[i].1);
        }
        i = i + 1;
    }
    proof {
        lemma_find_header_at(headers@, name@, n as int);
    }
    None
}

/// The usable `Content-Length` declared by a request's own header sequence:
/// first match in wire order, trusted only when `Transfer-Encoding` is
/// absent or `identity`, and only when it is a non-empty digit string whose
/// value fits `usize`.
pub open spec fn spec_request_content_length(headers: Seq<(Vec<u8>, Vec<u8>)>) -> Option<int> {
    let te = spec_find_header(headers, spec_transfer_encoding_key());
    if te matches Some(i) && spec_lower(headers[i].1@) != spec_identity_value() {
        None
    } else {
        match spec_find_header(headers, spec_content_length_key()) {
            Some(i) => if headers[i].1@.len() > 0 && all_digits(headers[i].1@) && digits_value(
                headers[i].1@,
            ) <= usize::MAX {
                Some(digits_value(headers[i].1@))
            } else {
                None
            },
            None => None,
        }
    }
}

/// Reads the request's declared `Content-Length`, when usable.
pub fn request_content_length(headers: &Vec<(Vec<u8>, Vec<u8>)>) -> (r: Option<usize>)
    ensures
        (r is Some) == (spec_request_content_length(headers@) is Some),
        r matches Some(v) ==> spec_request_content_length(headers@) == Some(v as int),
{
    let te: [u8; 17] = [116, 114, 97, 110, 115, 102, 101, 114, 45, 101, 110, 99, 111, 100, 105,
        110, 103];
    proof {
        assert(te@ =~= spec_transfer_encoding_key());
    }
    if let Some(value) = find_header(headers, te.as_slice()) {
        let identity: [u8; 8] = [105, 100, 101, 110, 116, 105, 116, 121];
        proof {
            assert(identity@ =~= spec_identity_value());
            assert(spec_lower(identity@) =~= identity@);
        }
        if !eq_ignore_ascii_case(value.as_slice(), identity.as_slice()) {
            return None;
        }
    }
    let cl: [u8; 14] = [99, 111, 110, 116, 101, 110, 116, 45, 108, 101, 110, 103, 116, 104];
    proof {
        assert(cl@ =~= spec_content_length_key());
    }
    match find_header(headers, cl.as_slice()) {
        Some(value) => ascii_to_int::<usize>(value.as_slice()),
        None => None,
    }
}

/// How the engine's method switches must be set for `m` with or without a
/// body, mirroring the method-mapping special cases.
pub open spec fn spec_method_setup_ok(m: Method, has_body: bool, setup: MethodSetup) -> bool {
    match m {
        Method::Get => if !has_body {
            setup == MethodSetup::Get
        } else {
            setup matches MethodSetup::Custom { upload, verb } && upload == true && verb@ == "GET"@
        },
        Method::Head => setup matches MethodSetup::Head { upload } && upload == has_body,
        Method::Post => setup == MethodSetup::Post,
        Method::Put => setup == MethodSetup::Put,
        Method::Connect => setup matches MethodSetup::Custom { upload, verb } && upload == has_body
            && verb@ == "CONNECT"@,
        Method::Custom(s) => setup matches MethodSetup::Custom { upload, verb } && upload
            == has_body && verb@ == s@,
    }
}

/// The options applied to the engine before each request, so that no state
/// bleeds over between calls: follow redirects, identify the client.
pub fn configure_engine_default() -> (r: EngineDefaults)
    ensures
        r.follow_redirects == true,
        r.user_agent@ == spec_user_agent(),
{
    EngineDefaults {
        follow_redirects: true,
        user_agent: "ccloader-installer/0.1.0 (by @dmitmel)".to_owned(),
    }
}

/// Computes the engine plan for one request: method mapping (GET with an
/// empty body is a plain GET, HEAD suppresses the payload, POST and PUT use
/// their own switches, anything else uploads under a custom verb), the URI
/// and version passed through, the explicit `Accept-Encoding` value or an
/// empty one standing for "everything supported", every header serialized
/// as a `"Name: Value"` line, and, for a non-empty body, a size hint that
/// prefers the declared `Content-Length` over the body's own length.
pub fn configure_engine_for_request(request: &Request) -> (cfg: EngineConfig)
    ensures
        spec_method_setup_ok(request.method, request.body@.len() > 0, cfg.method),
        cfg.url@ == request.uri@,
        cfg.version == request.version,
        ({
            match spec_find_header(request.headers@, spec_accept_encoding_key()) {
                Some(i) => cfg.accept_encoding@ == request.headers@[i].1@,
                None => cfg.accept_encoding@ == Seq::<u8>::empty(),
            }
        }),
        cfg.header_lines@.len() == request.headers@.len(),
        forall|i: int|
            0 <= i < request.headers@.len() ==> #[trigger] cfg.header_lines@[i]@
                == request.headers@[i].0@ + seq![58u8, 32u8] + request.headers@[i].1@,
        ({
            if request.body@.len() == 0 {
                cfg.size_hint is None
            } else {
                let l = match spec_request_content_length(request.headers@) {
                    Some(v) => v,
                    None => request.body@.len() as int,
                };
                cfg.size_hint == Some(
                    match request.method {
                        Method::Post => SizeHint::PostFieldSize(l as u64),
                        _ => SizeHint::InFileSize(l as u64),
                    },
                )
            }
        }),
{
    let has_body = request.body.len() > 0;

    let method = match &request.method {
        Method::Get => {
            if !has_body {
                MethodSetup::Get
            } else {
                MethodSetup::Custom { upload: true, verb: "GET".to_owned() }
            }
        },
        Method::Head => MethodSetup::Head { upload: has_body },
        Method::Post => MethodSetup::Post,
        Method::Put => MethodSetup::Put,
        Method::Connect => MethodSetup::Custom { upload: has_body, verb: "CONNECT".to_owned() },
        Method::Custom(s) => MethodSetup::Custom { upload: has_body, verb: s.clone() },
    };

    let ae: [u8; 15] = [97, 99, 99, 101, 112, 116, 45, 101, 110, 99, 111, 100, 105, 110, 103];
    proof {
        assert(ae@ =~= spec_accept_encoding_key());
    }
    let accept_encoding: Vec<u8> = match find_header(&request.headers, ae.as_slice()) {
        Some(v) => v.clone(),
        None => Vec::new(),
    };

    let n = request.headers.len();
    let mut header_lines: Vec<Vec<u8>> = Vec::new();
    let mut i: usize = 0;
    while i < n
        invariant
            n == request.headers@.len(),
            0 <= i <= n,
            header_lines@.len() == i,
            forall|k: int|
                0 <= k < i ==> #[trigger] header_lines@[k]@ == request.headers@[k].0@ + seq![
                    58u8,
                    32u8,
                ] + request.headers@[k].1@,
        decreases n - i,
    {
        let mut line: Vec<u8> = Vec::new();
        line.extend_from_slice(request.headers[i].0.as_slice());
        line.push(58);
        line.push(32);
        line.extend_from_slice(request.headers[i].1.as_slice());
        proof {
            assert(line@ =~= request.headers@[i as int].0@ + seq![58u8, 32u8]
                + request.headers@[i as int].1@);
        }
        header_lines.push(line);
        i = i + 1;
    }

    let size_hint: Option<SizeHint> = if has_body {
        let l = match request_content_length(&request.headers) {
            Some(v) => v,
            None => request.body.len(),
        };
        Some(
            match &request.method {
                Method::Post => SizeHint::PostFieldSize(l as u64),
                _ => SizeHint::InFileSize(l as u64),
            },
        )
    } else {
        None
    };

    EngineConfig {
        method,
        url: request.uri.clone(),
        version: request.version,
        accept_encoding,
        header_lines,
        size_hint,
    }
}

} // verus!
