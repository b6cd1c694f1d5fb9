//! The download filter's data handling: domain-alias rewriting and the
//! two results a fetch can produce.  The network transfer itself lives
//! in the application shell.

use vstd::prelude::*;
use crate::alias::spec_lookup;
use crate::error::{FilterError, spec_message};
use crate::filter::Decimal;

verus! {

/// Position of the first `:` in `s`, if any.
pub open spec fn spec_find_colon(s: Seq<u8>, pos: int) -> Option<int>
    decreases s.len() - pos,
{
    if !(0 <= pos < s.len()) {
        None
    } else if s[pos] == (':' as u8) {
        Some(pos)
    } else {
        spec_find_colon(s, pos + 1)
    }
}

/// The URL prefix before the first `:`; the whole URL when there is
/// none.  The trace header records this as the download's domain.
pub open spec fn spec_domain_of(s: Seq<u8>) -> Seq<u8> {
    match spec_find_colon(s, 0) {
        Some(c) => s.subrange(0, c),
        None => s,
    }
}

/// The URL actually fetched: a configured domain prefix is replaced by
/// its URL prefix, anything else passes verbatim.
pub open spec fn spec_decode_url(s: Seq<u8>, domains: Seq<(Seq<u8>, Seq<u8>)>) -> Seq<u8> {
    match spec_find_colon(s, 0) {
        Some(c) => match spec_lookup(domains, s.subrange(0, c)) {
            Some(repl) => repl + s.subrange(c + 1, s.len() as int),
            None => s,
        },
        None => s,
    }
}

fn find_colon(s: &[u8]) -> (r: Option<usize>)
    ensures
        match r {
            Some(c) => spec_find_colon(s@, 0) == Some(c as int) && c < s@.len(),
            None => spec_find_colon(s@, 0) is None,
        },
{
    let mut i: usize = 0;
    while i < s.len()
        invariant
            i <= s@.len(),
            spec_find_colon(s@, 0) == spec_find_colon(s@, i as int),
        decreases s@.len() - i,
    {
        if s[i] == ':' as u8 {
            return Some(i);
        }
        i += 1;
    }
    None
}

/// The domain part of a download URL, for the trace header.
pub fn domain_of(url: &[u8]) -> (r: Vec<u8>)
    ensures
        r@ == spec_domain_of(url@),
{
    match find_colon(url) {
        Some(c) => crate::text::copy_range(url, 0, c),
        None => crate::text::copy_bytes(url),
    }
}

/// Rewrites a `prefix:rest` URL through the configured domain table.
pub fn decode_url(url: &[u8], domains: &Vec<(Vec<u8>, Vec<u8>)>) -> (r: Vec<u8>)
    ensures
        r@ == spec_decode_url(
            url@,
            domains@.map_values(|p: (Vec<u8>, Vec<u8>)| (p.0@, p.1@)),
        ),
{
    let n = url.len();
    match find_colon(url) {
        Some(c) => {
            let prefix = crate::text::copy_range(url, 0, c);
            match crate::alias::lookup_alias(domains, prefix.as_slice()) {
                Some(repl) => {
                    let mut out = repl;
                    let rest = crate::text::copy_range(url, c + 1, n);
                    crate::text::push_bytes(&mut out, rest.as_slice());
                    out
                }
                None => crate::text::copy_bytes(url),
            }
        }
        None => crate::text::copy_bytes(url),
    }
}

/// A fetch that came back with a non-OK status; served to the client
/// with that status and a plain-text body naming the URL.
#[derive(Debug, Clone, PartialEq, Eq)]
pub struct DownloadError {
    pub url: Vec<u8>,
    pub status_code: u16,
}

impl DownloadError {
    pub fn content_type(&self) -> (r: &'static str)
        ensures
            r@ == "text/plain; charset=utf-8"@,
    {
        "text/plain; charset=utf-8"
    }

    pub fn status_code(&self) -> (r: u16)
        ensures
            r == self.status_code,
    {
        self.status_code
    }

    /// The body: the same line the download-failed error renders.
    pub fn content(&self) -> (r: Vec<u8>)
        ensures
            r@ == spec_message(
                crate::error::ErrorView::DownloadFailed(self.status_code, self.url@),
            ),
    {
        let e = FilterError::DownloadFailed(
            self.status_code,
            crate::text::copy_bytes(self.url.as_slice()),
        );
        e.message()
    }
}

/// The bytes of a successful fetch, with the resolution override the
/// caller asked for; decoding them into an image is the backend's job.
#[derive(Debug, Clone, PartialEq, Eq)]
pub struct DownloadResult {
    pub dpi: Option<Decimal>,
    pub buffer: Vec<u8>,
}

impl DownloadResult {
    /// The response body: the fetched bytes verbatim.
    pub fn content(&self) -> (r: Vec<u8>)
        ensures
            r@ == self.buffer@,
    {
        crate::text::copy_bytes(self.buffer.as_slice())
    }
}

} // verus!
