//! The request-to-response decisions of the HTTP front end: assembling
//! the pipeline text from the request path, the method gate, and how
//! results and errors map to statuses and bodies.

use vstd::prelude::*;
use crate::error::{FilterError, ErrorView, spec_message, spec_lit};

verus! {

/// The response as far as the library decides it; the shell adds the
/// transport framing.
#[derive(Debug, Clone, PartialEq, Eq)]
pub struct HttpResponse {
    pub status: u16,
    pub content_type: Vec<u8>,
    pub body: Vec<u8>,
    pub extra_headers: Vec<(Vec<u8>, Vec<u8>)>,
}

/// Only GET reaches the pipeline.
pub fn method_allowed(method: &[u8]) -> (r: bool)
    ensures
        r == (method@ == spec_lit("GET")),
{
    let mut w: Vec<u8> = Vec::new();
    crate::error::push_lit(&mut w, "GET");
    crate::text::bytes_eq(method, w.as_slice())
}

/// The pipeline text of a request: the path without its leading slash,
/// with the query appended after a question mark.
pub open spec fn spec_request_url(path: Seq<u8>, query: Option<Seq<u8>>) -> Seq<u8> {
    let stripped = if path.len() > 0 && path[0] == ('/' as u8) {
        path.drop_first()
    } else {
        path
    };
    match query {
        Some(q) => stripped + seq!['?' as u8] + q,
        None => stripped,
    }
}

/// Builds the pipeline text a request asks for.
pub fn request_url(path: &[u8], query: Option<&Vec<u8>>) -> (r: Vec<u8>)
    ensures
        r@ == spec_request_url(
            path@,
            match query {
                Some(q) => Some(q@),
                None => None,
            },
        ),
{
    let mut out: Vec<u8>;
    if path.len() > 0 && path[0] == '/' as u8 {
        out = crate::text::copy_range(path, 1, path.len());
        proof {
            assert(out@ =~= path@.drop_first());
        }
    } else {
        out = crate::text::copy_bytes(path);
    }
    match query {
        Some(q) => {
            out.push('?' as u8);
            crate::text::push_bytes(&mut out, q.as_slice());
        }
        None => {}
    }
    out
}

/// The status an error is served with: URL-level rejections are the
/// client's fault, a failed upstream fetch keeps its own status, and
/// everything else is the server's fault.
pub open spec fn spec_error_status(e: ErrorView) -> u16 {
    match e {
        ErrorView::Url(_) => 400,
        ErrorView::DownloadFailed(status, _) => status,
        _ => 500,
    }
}

/// Maps a failed evaluation to its response: the error's status, a
/// plain-text body carrying its message, and no extra headers.
pub fn error_response(e: &FilterError) -> (r: HttpResponse)
    ensures
        r.status == spec_error_status(e@),
        r.body@ == spec_message(e@),
        r.content_type@ == spec_lit("text/plain; charset=utf-8"),
        r.extra_headers@.len() == 0,
{
    let status: u16 = match e {
        FilterError::Url(_) => 400,
        FilterError::DownloadFailed(st, _) => *st,
        _ => 500,
    };
    let mut ct: Vec<u8> = Vec::new();
    crate::error::push_lit(&mut ct, "text/plain; charset=utf-8");
    HttpResponse { status, content_type: ct, body: e.message(), extra_headers: Vec::new() }
}

/// Wraps a successful result: status and body pass through, and the
/// collected response headers ride along verbatim.
pub fn success_response(
    status: u16,
    content_type: Vec<u8>,
    body: Vec<u8>,
    headers: Vec<(Vec<u8>, Vec<u8>)>,
) -> (r: HttpResponse)
    ensures
        r.status == status,
        r.content_type == content_type,
        r.body == body,
        r.extra_headers == headers,
{
    HttpResponse { status, content_type, body, extra_headers: headers }
}

} // verus!
