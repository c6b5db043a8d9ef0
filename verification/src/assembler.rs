//! Stateful accumulator driven by the transfer engine's callbacks: one call
//! per raw header/status/blank line, one call per body chunk. Reconstructs a
//! structured response with redirect-safe header accumulation.

use vstd::prelude::*;

use crate::ascii_to_int::{all_digits, ascii_to_int, digits_value};
use crate::headers::{eq_ignore_ascii_case, spec_lower, HeaderMap};
use crate::parser::{
    parse_header, parse_status_line, spec_parse_header, spec_parse_status_line, Version,
};

verus! {

/// The byte string `"transfer-encoding"`.
pub open spec fn spec_transfer_encoding_key() -> Seq<u8> {
    seq![116u8, 114u8, 97u8, 110u8, 115u8, 102u8, 101u8, 114u8, 45u8, 101u8, 110u8, 99u8, 111u8, 100u8, 105u8, 110u8, 103u8]
}

/// The byte string `"content-length"`.
pub open spec fn spec_content_length_key() -> Seq<u8> {
    seq![99u8, 111u8, 110u8, 116u8, 101u8, 110u8, 116u8, 45u8, 108u8, 101u8, 110u8, 103u8, 116u8, 104u8]
}

/// The byte string `"identity"`.
pub open spec fn spec_identity_value() -> Seq<u8> {
    seq![105u8, 100u8, 101u8, 110u8, 116u8, 105u8, 116u8, 121u8]
}

/// The usable `Content-Length` of a header map: present, a non-empty digit
/// string whose value fits `usize`, and trusted only when
/// `Transfer-Encoding` is absent or `identity`.
pub open spec fn spec_content_length_of(m: Map<Seq<u8>, Seq<u8>>) -> Option<int> {
    if m.contains_key(spec_transfer_encoding_key()) && spec_lower(
        m[spec_transfer_encoding_key()],
    ) != spec_identity_value() {
        None
    } else if m.contains_key(spec_content_length_key()) && m[spec_content_length_key()].len() > 0
        && all_digits(m[spec_content_length_key()]) && digits_value(m[spec_content_length_key()])
        <= usize::MAX {
        Some(digits_value(m[spec_content_length_key()]))
    } else {
        None
    }
}

/// Reads a usable `Content-Length` out of a header map, for presizing the
/// body buffer and for upload size hints. A malformed or overflowing value
/// is not an error; it simply yields nothing.
pub fn try_get_content_length_from_headers(headers: &HeaderMap) -> (r: Option<usize>)
    ensures
        (r is Some) == (spec_content_length_of(headers@) is Some),
        r matches Some(v) ==> spec_content_length_of(headers@) == Some(v as int),
{
    let te: [u8; 17] = [116, 114, 97, 110, 115, 102, 101, 114, 45, 101, 110, 99, 111, 100, 105,
        110, 103];
    proof {
        assert(te@ =~= spec_transfer_encoding_key());
        assert(spec_lower(te@) =~= te@);
    }
    if let Some(value) = headers.get(te.as_slice()) {
        let identity: [u8; 8] = [105, 100, 101, 110, 116, 105, 116, 121];
        proof {
            assert(identity@ =~= spec_identity_value());
            assert(spec_lower(identity@) =~= identity@);
        }
        if !eq_ignore_ascii_case(value.as_slice(), identity.as_slice()) {
            return None;
        }
    }
    let cl: [u8; 14] = [99, 111, 110, 116, 101, 110, 116, 45, 108, 101, 110, 103, 116, 104];
    proof {
        assert(cl@ =~= spec_content_length_key());
        assert(spec_lower(cl@) =~= cl@);
    }
    match headers.get(cl.as_slice()) {
        Some(value) => ascii_to_int::<usize>(value.as_slice()),
        None => None,
    }
}

/// Transient per-exchange state, mutated exclusively by the line and chunk
/// callbacks and consumed once to build the response.
pub struct AssemblerState {
    pub pending_version: Option<Version>,
    pub pending_status: Option<u16>,
    pub headers: Option<HeaderMap>,
    pub body: Option<Vec<u8>>,
}

/// A reconstructed HTTP response.
pub struct Response {
    pub version: Version,
    pub status: u16,
    pub headers: HeaderMap,
    pub body: Vec<u8>,
}

/// A line that is exactly a blank header/body separator: bare CR, bare LF,
/// or CRLF.
pub open spec fn spec_is_blank_line(line: Seq<u8>) -> bool {
    line == seq![13u8, 10u8] || line == seq![10u8] || line == seq![13u8]
}

/// What one delivered line does to the assembler: a status line records
/// version and status and discards accumulated headers (redirect safety), a
/// header line inserts into the map (created on first use), a blank line is
/// the header/body separator, and anything else is a fatal parse error
/// (result component `false`).
pub open spec fn spec_line_step(
    version: Option<Version>,
    status: Option<u16>,
    headers: Option<Map<Seq<u8>, Seq<u8>>>,
    line: Seq<u8>,
) -> (Option<Version>, Option<u16>, Option<Map<Seq<u8>, Seq<u8>>>, bool) {
    match spec_parse_status_line(line) {
        Some((v, c)) => (
            Some(v),
            Some(c),
            match headers {
                Some(_) => Some(Map::<Seq<u8>, Seq<u8>>::empty()),
                None => None,
            },
            true,
        ),
        None => match spec_parse_header(line) {
            Some((name, value)) => (
                version,
                status,
                Some(
                    (match headers {
                        Some(m) => m,
                        None => Map::<Seq<u8>, Seq<u8>>::empty(),
                    }).insert(spec_lower(name), value),
                ),
                true,
            ),
            None => (version, status, headers, spec_is_blank_line(line)),
        },
    }
}

impl AssemblerState {
    /// The header map's contents, when one exists.
    pub open spec fn headers_view(&self) -> Option<Map<Seq<u8>, Seq<u8>>> {
        match self.headers {
            Some(h) => Some(h@),
            None => None,
        }
    }

    /// The body buffer's contents, when one exists.
    pub open spec fn body_view(&self) -> Option<Seq<u8>> {
        match self.body {
            Some(b) => Some(b@),
            None => None,
        }
    }

    /// Fresh state for one exchange: nothing seen yet.
    pub fn new() -> (r: Self)
        ensures
            r.pending_version is None,
            r.pending_status is None,
            r.headers is None,
            r.body is None,
    {
        AssemblerState { pending_version: None, pending_status: None, headers: None, body: None }
    }

    /// The line callback: tries the status-line grammar, then the header
    /// grammar, then the blank separator; returns `false` on a line that is
    /// none of these, which must abort the exchange.
    pub fn handle_line(&mut self, line: &[u8]) -> (r: bool)
        ensures
            ({
                let out = spec_line_step(
                    old(self).pending_version,
                    old(self).pending_status,
                    old(self).headers_view(),
                    line@,
                );
                &&& final(self).pending_version == out.0
                &&& final(self).pending_status == out.1
                &&& final(self).headers_view() == out.2
                &&& r == out.3
                &&& final(self).body_view() == old(self).body_view()
            }),
    {
        match parse_status_line(line) {
            Some((version, status)) => {
                self.pending_version = Some(version);
                self.pending_status = Some(status);
                let mut headers_opt: Option<HeaderMap> = None;
                core::mem::swap(&mut headers_opt, &mut self.headers);
                match headers_opt {
                    Some(mut h) => {
                        h.clear();
                        self.headers = Some(h);
                    },
                    None => {},
                }
                true
            },
            None => match parse_header(line) {
                Some((name, value)) => {
                    let name_vec = vstd::slice::slice_to_vec(name);
                    let value_vec = vstd::slice::slice_to_vec(value);
                    let mut headers_opt: Option<HeaderMap> = None;
                    core::mem::swap(&mut headers_opt, &mut self.headers);
                    let mut h = match headers_opt {
                        Some(h) => h,
                        None => HeaderMap::new(),
                    };
                    h.insert(name_vec, value_vec);
                    self.headers = Some(h);
                    true
                },
                None => {
                    if line.len() == 2 && line[0] == 13u8 && line[1] == 10u8 {
                        proof {
                            assert(line@ =~= seq![13u8, 10u8]);
                        }
                        true
                    } else if line.len() == 1 && line[0] == 10u8 {
                        proof {
                            assert(line@ =~= seq![10u8]);
                        }
                        true
                    } else if line.len() == 1 && line[0] == 13u8 {
                        proof {
                            assert(line@ =~= seq![13u8]);
                        }
                        true
                    } else {
                        proof {
                            assert(!spec_is_blank_line(line@)) by {
                                if line@ == seq![13u8, 10u8] {
                                    assert(line@.len() == 2 && line@[0] == 13u8 && line@[1]
                                        == 10u8);
                                }
                                if line@ == seq![10u8] {
                                    assert(line@.len() == 1 && line@[0] == 10u8);
                                }
                                if line@ == seq![13u8] {
                                    assert(line@.len() == 1 && line@[0] == 13u8);
                                }
                            }
                        }
                        false
                    }
                },
            },
        }
    }

    /// The chunk callback: allocates the body buffer on first use, presized
    /// by the sniffed `Content-Length` when one is usable (else by this
    /// chunk's length), then appends the chunk bytes.
    pub fn handle_chunk(&mut self, chunk: &[u8])
        ensures
            final(self).pending_version == old(self).pending_version,
            final(self).pending_status == old(self).pending_status,
            final(self).headers_view() == old(self).headers_view(),
            final(self).body_view() == Some(
                (match old(self).body_view() {
                    Some(b) => b,
                    None => Seq::<u8>::empty(),
                }) + chunk@,
            ),
    {
        let mut body_opt: Option<Vec<u8>> = None;
        core::mem::swap(&mut body_opt, &mut self.body);
        let mut body = match body_opt {
            Some(b) => b,
            None => {
                let capacity = match &self.headers {
                    Some(h) => match try_get_content_length_from_headers(h) {
                        Some(n) => n,
                        None => chunk.len(),
                    },
                    None => chunk.len(),
                };
                Vec::with_capacity(capacity)
            },
        };
        body.extend_from_slice(chunk);
        self.body = Some(body);
    }

    /// Consumes the accumulated state into a response. `final_status` is the
    /// authoritative numeric status queried from the transfer engine after
    /// the exchange ended; absent pieces fall back to HTTP/1.1, an empty
    /// header map and an empty body.
    pub fn into_response(self, final_status: u16) -> (r: Response)
        requires
            100 <= final_status <= 999,
        ensures
            r.version == (match self.pending_version {
                Some(v) => v,
                None => Version::Http11,
            }),
            r.status == final_status,
            r.headers@ == (match self.headers_view() {
                Some(m) => m,
                None => Map::<Seq<u8>, Seq<u8>>::empty(),
            }),
            r.body@ == (match self.body_view() {
                Some(b) => b,
                None => Seq::<u8>::empty(),
            }),
    {
        let version = match self.pending_version {
            Some(v) => v,
            None => Version::Http11,
        };
        let headers = match self.headers {
            Some(h) => h,
            None => HeaderMap::new(),
        };
        let body = match self.body {
            Some(b) => b,
            None => Vec::new(),
        };
        Response { version, status: final_status, headers, body }
    }
}

/// Redirect safety across a hop: when a new status line arrives mid-stream
/// and a header follows it, the state's header map holds exactly that one
/// header — nothing accumulated before the status line survives.
pub proof fn lemma_redirect_hop(
    version: Option<Version>,
    status: Option<u16>,
    headers: Option<Map<Seq<u8>, Seq<u8>>>,
    status_line: Seq<u8>,
    header_line: Seq<u8>,
)
    requires
        spec_parse_status_line(status_line) is Some,
        spec_parse_status_line(header_line) is None,
        spec_parse_header(header_line) is Some,
        headers is Some,
    ensures
        ({
            let hop = spec_line_step(version, status, headers, status_line);
            let after = spec_line_step(hop.0, hop.1, hop.2, header_line);
            let parsed = spec_parse_header(header_line)->Some_0;
            after.2 == Some(
                Map::<Seq<u8>, Seq<u8>>::empty().insert(spec_lower(parsed.0), parsed.1),
            )
        }),
{
}

/// The moment a line parses as a status line, the accumulated header map is
/// emptied and the recorded version and status become those of that line.
pub proof fn lemma_status_line_resets_headers(
    version: Option<Version>,
    status: Option<u16>,
    headers: Option<Map<Seq<u8>, Seq<u8>>>,
    line: Seq<u8>,
)
    requires
        spec_parse_status_line(line) is Some,
        headers is Some,
    ensures
        spec_line_step(version, status, headers, line).2 == Some(
            Map::<Seq<u8>, Seq<u8>>::empty(),
        ),
        spec_line_step(version, status, headers, line).1 == Some(
            spec_parse_status_line(line)->Some_0.1,
        ),
        spec_line_step(version, status, headers, line).0 == Some(
            spec_parse_status_line(line)->Some_0.0,
        ),
{
}

} // verus!
