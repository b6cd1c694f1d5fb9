//! Full request-URL parsing: percent-decoding, the optional signature
//! prefix, and the pipeline grammar behind it.

use vstd::prelude::*;
use crate::filter::{Filter, FilterView};
use crate::hashes::{b64url_decode_of, hmac_sha1_of, b64url_decode, hmac_sha1, mac_equal, sign};
use crate::pipeline::spec_parse_pipeline;

verus! {

/// Why a request URL was rejected before any filter ran.
#[derive(Debug, Clone, PartialEq, Eq)]
pub enum UrlParseError {
    /// The 28-character prefix did not authenticate the rest.
    InvalidSignature,
    /// The pipeline ended before the input did; carries the leftover.
    RemainingData(Vec<u8>),
    /// The input ended before the pipeline was complete.
    IncompleteUrl,
    /// The input does not follow the grammar; carries a short reason.
    ParseError(Vec<u8>),
    /// A percent escape was not two hexadecimal digits.
    UrlDecodingError,
}

/// Mathematical model of a URL error.
#[verifier::ext_equal]
pub enum UrlErrorView {
    InvalidSignature,
    RemainingData(Seq<u8>),
    IncompleteUrl,
    ParseError(Seq<u8>),
    UrlDecodingError,
}

impl View for UrlParseError {
    type V = UrlErrorView;

    open spec fn view(&self) -> UrlErrorView {
        match *self {
            UrlParseError::InvalidSignature => UrlErrorView::InvalidSignature,
            UrlParseError::RemainingData(t) => UrlErrorView::RemainingData(t@),
            UrlParseError::IncompleteUrl => UrlErrorView::IncompleteUrl,
            UrlParseError::ParseError(t) => UrlErrorView::ParseError(t@),
            UrlParseError::UrlDecodingError => UrlErrorView::UrlDecodingError,
        }
    }
}

impl UrlParseError {
    /// The message each URL error renders to.
    pub fn message(&self) -> (r: Vec<u8>)
        ensures
            r@ == spec_url_error_message(self@),
    {
        let mut out: Vec<u8> = Vec::new();
        match self {
            UrlParseError::InvalidSignature => {
                crate::error::push_lit(&mut out, "Invalid signature.");
            }
            UrlParseError::RemainingData(t) => {
                crate::error::push_lit(&mut out, "Url parse error. Unparsed data: ");
                crate::text::push_bytes(&mut out, t.as_slice());
            }
            UrlParseError::IncompleteUrl => {
                crate::error::push_lit(&mut out, "Incomplete url.");
            }
            UrlParseError::ParseError(t) => {
                crate::error::push_lit(&mut out, "Url parse error: ");
                crate::text::push_bytes(&mut out, t.as_slice());
            }
            UrlParseError::UrlDecodingError => {
                crate::error::push_lit(&mut out, "Url decoding error.");
            }
        }
        out
    }
}

/// The message text of each URL error.
pub open spec fn spec_url_error_message(e: UrlErrorView) -> Seq<u8> {
    match e {
        UrlErrorView::InvalidSignature => crate::error::spec_lit("Invalid signature."),
        UrlErrorView::RemainingData(t) => crate::error::spec_lit("Url parse error. Unparsed data: ")
            + t,
        UrlErrorView::IncompleteUrl => crate::error::spec_lit("Incomplete url."),
        UrlErrorView::ParseError(t) => crate::error::spec_lit("Url parse error: ") + t,
        UrlErrorView::UrlDecodingError => crate::error::spec_lit("Url decoding error."),
    }
}

pub open spec fn is_hex_digit(c: u8) -> bool {
    ||| ('0' as u8) <= c <= ('9' as u8)
    ||| ('a' as u8) <= c <= ('f' as u8)
    ||| ('A' as u8) <= c <= ('F' as u8)
}

pub open spec fn hex_val(c: u8) -> u8 {
    if ('0' as u8) <= c <= ('9' as u8) {
        (c - ('0' as u8)) as u8
    } else if ('a' as u8) <= c <= ('f' as u8) {
        (c - ('a' as u8) + 10) as u8
    } else if ('A' as u8) <= c <= ('F' as u8) {
        (c - ('A' as u8) + 10) as u8
    } else {
        0
    }
}

/// Percent-decoding over bytes: `%` must head two hexadecimal digits,
/// which become one byte; every other byte passes through unchanged.
pub open spec fn spec_percent_decode(s: Seq<u8>) -> Option<Seq<u8>>
    decreases s.len(),
{
    if s.len() == 0 {
        Some(Seq::empty())
    } else if s[0] == ('%' as u8) {
        if s.len() >= 3 && is_hex_digit(s[1]) && is_hex_digit(s[2]) {
            match spec_percent_decode(s.skip(3)) {
                Some(t) => Some(seq![(hex_val(s[1]) * 16 + hex_val(s[2])) as u8] + t),
                None => None,
            }
        } else {
            None
        }
    } else {
        match spec_percent_decode(s.skip(1)) {
            Some(t) => Some(seq![s[0]] + t),
            None => None,
        }
    }
}

/// Decodes percent escapes once, before any parsing.
pub fn percent_decode(s: &[u8]) -> (r: Result<Vec<u8>, UrlParseError>)
    ensures
        match (r, spec_percent_decode(s@)) {
            (Ok(v), Some(sv)) => v@ == sv,
            (Err(e), None) => e@ == UrlErrorView::UrlDecodingError,
            _ => false,
        },
    decreases s@.len(),
{
    let mut out: Vec<u8> = Vec::new();
    let mut i: usize = 0;
    let n = s.len();
    proof {
        assert(s@.skip(0) =~= s@);
    }
    while i < n
        invariant
            i <= n,
            n == s@.len(),
            match spec_percent_decode(s@) {
                Some(full) => match spec_percent_decode(s@.skip(i as int)) {
                    Some(t) => full == out@ + t,
                    None => false,
                },
                None => spec_percent_decode(s@.skip(i as int)) is None,
            },
        decreases n - i,
    {
        let c = s[i];
        if c == '%' as u8 {
            if n - i > 2 {
                let h1 = s[i + 1];
                let h2 = s[i + 2];
                let v1: u8 = if h1 >= '0' as u8 && h1 <= '9' as u8 {
                    h1 - '0' as u8
                } else if h1 >= 'a' as u8 && h1 <= 'f' as u8 {
                    h1 - 'a' as u8 + 10
                } else if h1 >= 'A' as u8 && h1 <= 'F' as u8 {
                    h1 - 'A' as u8 + 10
                } else {
                    return Err(UrlParseError::UrlDecodingError);
                };
                let v2: u8 = if h2 >= '0' as u8 && h2 <= '9' as u8 {
                    h2 - '0' as u8
                } else if h2 >= 'a' as u8 && h2 <= 'f' as u8 {
                    h2 - 'a' as u8 + 10
                } else if h2 >= 'A' as u8 && h2 <= 'F' as u8 {
                    h2 - 'A' as u8 + 10
                } else {
                    return Err(UrlParseError::UrlDecodingError);
                };
                out.push(v1 * 16 + v2);
                proof {
                    assert(s@.skip(i as int).skip(3) =~= s@.skip(i + 3));
                }
                i += 3;
            } else {
                return Err(UrlParseError::UrlDecodingError);
            }
        } else {
            out.push(c);
            proof {
                assert(s@.skip(i as int).skip(1) =~= s@.skip(i + 1));
            }
            i += 1;
        }
    }
    proof {
        assert(s@.skip(n as int) =~= Seq::<u8>::empty());
    }
    Ok(out)
}

/// Whether a decoded signature prefix authenticates the rest of the URL
/// under the configured secret: with no secret anything well-formed
/// passes; with a secret the decoded code must equal the HMAC-SHA1 of
/// the rest.
pub open spec fn spec_signature_ok(sig: Seq<u8>, rest: Seq<u8>, secret: Option<Seq<u8>>) -> bool {
    match b64url_decode_of(sig) {
        None => false,
        Some(code) => match secret {
            None => true,
            Some(key) => code == hmac_sha1_of(key, rest),
        },
    }
}

/// The view of an optional secret.
pub open spec fn spec_secret(secret: Option<&Vec<u8>>) -> Option<Seq<u8>> {
    match secret {
        Some(k) => Some(k@),
        None => None,
    }
}

/// Checks a signature prefix against the rest of the URL.
pub fn check_signature(sig: &[u8], rest: &[u8], secret: Option<&Vec<u8>>) -> (r: bool)
    ensures
        r == spec_signature_ok(sig@, rest@, spec_secret(secret)),
{
    match b64url_decode(sig) {
        None => false,
        Some(code) => match secret {
            None => true,
            Some(key) => {
                let mac = hmac_sha1(key.as_slice(), rest);
                mac_equal(code.as_slice(), mac.as_slice())
            }
        },
    }
}

/// Signing with the secret always authenticates: checking the signature
/// this library computes over `rest` never rejects.
pub fn sign_then_check(secret: &Vec<u8>, rest: &[u8]) -> (ok: bool)
    ensures
        ok,
{
    let sig = sign(secret.as_slice(), rest);
    check_signature(sig.as_slice(), rest, Some(secret))
}

/// Whether the decoded URL starts with a well-formed signature prefix:
/// twenty-eight base64 characters, a slash, and a non-empty rest.
pub open spec fn spec_has_signature(u: Seq<u8>) -> bool {
    &&& u.len() >= 30
    &&& b64url_decode_of(u.take(28)) is Some
    &&& u[28] == ('/' as u8)
}

/// The full request parse: percent-decode, strip and check an optional
/// signature prefix, then parse the pipeline.  A bad signature is only
/// reported for a URL whose pipeline part parses completely.
pub open spec fn spec_full_parse(s: Seq<u8>, secret: Option<Seq<u8>>) -> Result<
    FilterView,
    UrlErrorView,
> {
    match spec_percent_decode(s) {
        None => Err(UrlErrorView::UrlDecodingError),
        Some(u) => {
            if spec_has_signature(u) {
                match spec_parse_pipeline(u.skip(29)) {
                    Ok(f) => {
                        if spec_signature_ok(u.take(28), u.skip(29), secret) {
                            Ok(f)
                        } else {
                            Err(UrlErrorView::InvalidSignature)
                        }
                    }
                    Err(e) => Err(e),
                }
            } else {
                spec_parse_pipeline(u)
            }
        }
    }
}

/// Parses a request URL under the configured secret.
pub fn parse(input: &[u8], secret: Option<&Vec<u8>>) -> (r: Result<Filter, UrlParseError>)
    ensures
        match (r, spec_full_parse(input@, spec_secret(secret))) {
            (Ok(f), Ok(fv)) => f@ == fv,
            (Err(e), Err(ev)) => e@ == ev,
            _ => false,
        },
{
    let u = match percent_decode(input) {
        Ok(u) => u,
        Err(e) => {
            return Err(e);
        }
    };
    let has_sig = if u.len() >= 30 && u[28] == '/' as u8 {
        let prefix = crate::text::copy_range(u.as_slice(), 0, 28);
        proof {
            assert(prefix@ =~= u@.take(28));
        }
        match b64url_decode(prefix.as_slice()) {
            Some(_) => true,
            None => false,
        }
    } else {
        false
    };
    if has_sig {
        let rest = crate::text::copy_range(u.as_slice(), 29, u.len());
        proof {
            assert(rest@ =~= u@.skip(29));
        }
        match crate::pipeline::parse(rest.as_slice()) {
            Ok(f) => {
                let prefix = crate::text::copy_range(u.as_slice(), 0, 28);
                proof {
                    assert(prefix@ =~= u@.take(28));
                }
                if check_signature(prefix.as_slice(), rest.as_slice(), secret) {
                    Ok(f)
                } else {
                    Err(UrlParseError::InvalidSignature)
                }
            }
            Err(e) => Err(e),
        }
    } else {
        crate::pipeline::parse(u.as_slice())
    }
}

} // verus!
