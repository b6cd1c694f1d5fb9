//! The error kinds that pipeline evaluation can produce, and the exact
//! message text each one renders to.

use vstd::prelude::*;
use crate::text::{push_bytes, u128_to_bytes, u64_to_bytes, spec_digits};

verus! {

/// Everything that can go wrong while a pipeline is evaluated.
#[derive(Debug, Clone, PartialEq, Eq)]
pub enum FilterError {
    /// A URL did not parse; also raised while re-parsing an alias
    /// template or a partial URL.
    Url(crate::url::UrlParseError),
    /// The requested operation is not in the registry (or not an alias).
    UnknownFilter(Vec<u8>),
    /// Argument at the position (0-based) is missing or of the wrong
    /// shape; the second field names the filter, the third what was
    /// expected.
    BadArgument(usize, Vec<u8>, Vec<u8>),
    /// A fractional value was given for a plain pixel count.
    FractionalPixels,
    /// A vocabulary argument (colorspace, gravity, ...) had an unknown
    /// spelling: the vocabulary's name, then the raw argument.
    UnknownEnumValue(Vec<u8>, Vec<u8>),
    /// The decoded bytes are in a format outside the configured allow-list.
    UnsupportedFormat(Vec<u8>),
    /// An upstream fetch answered with a non-OK status: status, then URL.
    DownloadFailed(u16, Vec<u8>),
    /// The key is not in the cache.
    NotInCache,
    /// An insertion larger than the whole cache: size, then capacity.
    DataTooBig(usize, usize),
    /// No cache of that name is configured.
    NoSuchCache(Vec<u8>),
    /// Reading or writing a cache file failed.
    IoFailure,
    /// The image backend reported a failure.
    BackendFailure(Vec<u8>),
    /// The trace header could not be appended for this filter name.
    CannotLogFilter(Vec<u8>),
    /// An alias template asked for `{N}` past the caller's arguments.
    MissingAliasArgument(usize),
    /// A unit resolution left the pixel range of the machine.
    ValueOutOfRange,
}

/// Mathematical model of an error: byte strings become sequences.
#[verifier::ext_equal]
pub enum ErrorView {
    Url(crate::url::UrlErrorView),
    UnknownFilter(Seq<u8>),
    BadArgument(usize, Seq<u8>, Seq<u8>),
    FractionalPixels,
    UnknownEnumValue(Seq<u8>, Seq<u8>),
    UnsupportedFormat(Seq<u8>),
    DownloadFailed(u16, Seq<u8>),
    NotInCache,
    DataTooBig(usize, usize),
    NoSuchCache(Seq<u8>),
    IoFailure,
    BackendFailure(Seq<u8>),
    CannotLogFilter(Seq<u8>),
    MissingAliasArgument(usize),
    ValueOutOfRange,
}

impl View for FilterError {
    type V = ErrorView;

    open spec fn view(&self) -> ErrorView {
        match *self {
            FilterError::Url(e) => ErrorView::Url(e@),
            FilterError::UnknownFilter(name) => ErrorView::UnknownFilter(name@),
            FilterError::BadArgument(i, name, expected) => ErrorView::BadArgument(
                i,
                name@,
                expected@,
            ),
            FilterError::FractionalPixels => ErrorView::FractionalPixels,
            FilterError::UnknownEnumValue(what, raw) => ErrorView::UnknownEnumValue(what@, raw@),
            FilterError::UnsupportedFormat(f) => ErrorView::UnsupportedFormat(f@),
            FilterError::DownloadFailed(status, url) => ErrorView::DownloadFailed(status, url@),
            FilterError::NotInCache => ErrorView::NotInCache,
            FilterError::DataTooBig(size, capacity) => ErrorView::DataTooBig(size, capacity),
            FilterError::NoSuchCache(name) => ErrorView::NoSuchCache(name@),
            FilterError::IoFailure => ErrorView::IoFailure,
            FilterError::BackendFailure(msg) => ErrorView::BackendFailure(msg@),
            FilterError::CannotLogFilter(name) => ErrorView::CannotLogFilter(name@),
            FilterError::MissingAliasArgument(i) => ErrorView::MissingAliasArgument(i),
            FilterError::ValueOutOfRange => ErrorView::ValueOutOfRange,
        }
    }
}

/// The message each error renders to, one line, no trailing newline.
pub open spec fn spec_message(e: ErrorView) -> Seq<u8> {
    match e {
        ErrorView::Url(u) => crate::url::spec_url_error_message(u),
        ErrorView::UnknownFilter(name) => spec_lit("no such filter: ") + name,
        ErrorView::BadArgument(i, name, expected) => spec_lit("Argument ")
            + spec_digits((i + 1) as nat) + spec_lit(" to `") + name + spec_lit("` must be ")
            + expected,
        ErrorView::FractionalPixels => spec_lit("Unit px does not support fractional values."),
        ErrorView::UnknownEnumValue(what, raw) => spec_lit("Unknown ") + what + spec_lit(": ")
            + raw,
        ErrorView::UnsupportedFormat(f) => spec_lit("Unsupported image format: ") + f,
        ErrorView::DownloadFailed(status, url) => spec_lit("Url ") + url + spec_lit(
            " returned ",
        ) + spec_digits(status as nat) + spec_lit("."),
        ErrorView::NotInCache => spec_lit("The file is not in cache"),
        ErrorView::DataTooBig(size, capacity) => spec_lit(
            "Data is too big to insert into the cache. ",
        ) + spec_digits(size as nat) + spec_lit(" bytes > ") + spec_digits(capacity as nat)
            + spec_lit(" bytes of capacity"),
        ErrorView::NoSuchCache(name) => spec_lit("No such cache: ") + name,
        ErrorView::IoFailure => spec_lit("Input or output failed"),
        ErrorView::BackendFailure(msg) => msg,
        ErrorView::CannotLogFilter(name) => spec_lit("Can't log usage of filter ") + name,
        ErrorView::MissingAliasArgument(i) => spec_lit("Missing alias argument ") + spec_digits(
            i as nat,
        ),
        ErrorView::ValueOutOfRange => spec_lit("Size value out of range"),
    }
}

/// The bytes of an ASCII string literal.
pub open spec fn spec_lit(s: &str) -> Seq<u8> {
    s@.map(|_i: int, c: char| c as u8)
}

/// Pushes an ASCII literal onto a byte vector.
pub fn push_lit(out: &mut Vec<u8>, s: &str)
    ensures
        final(out)@ == old(out)@ + spec_lit(s),
{
    let mut i: usize = 0;
    let n = s.unicode_len();
    while i < n
        invariant
            i <= n,
            n == s@.len(),
            out@ == old(out)@ + spec_lit(s).take(i as int),
        decreases n - i,
    {
        let c = s.get_char(i);
        out.push(c as u8);
        proof {
            assert(out@ =~= old(out)@ + spec_lit(s).take(i + 1 as int));
        }
        i += 1;
    }
    proof {
        assert(old(out)@ + spec_lit(s).take(n as int) =~= old(out)@ + spec_lit(s));
    }
}

impl FilterError {
    /// Renders the error's message.
    pub fn message(&self) -> (r: Vec<u8>)
        ensures
            r@ == spec_message(self@),
    {
        let mut out: Vec<u8> = Vec::new();
        match self {
            FilterError::Url(u) => {
                let m = u.message();
                push_bytes(&mut out, m.as_slice());
            }
            FilterError::UnknownFilter(name) => {
                push_lit(&mut out, "no such filter: ");
                push_bytes(&mut out, name.as_slice());
            }
            FilterError::BadArgument(i, name, expected) => {
                push_lit(&mut out, "Argument ");
                let pos = u128_to_bytes((*i as u128) + 1);
                push_bytes(&mut out, pos.as_slice());
                push_lit(&mut out, " to `");
                push_bytes(&mut out, name.as_slice());
                push_lit(&mut out, "` must be ");
                push_bytes(&mut out, expected.as_slice());
            }
            FilterError::FractionalPixels => {
                push_lit(&mut out, "Unit px does not support fractional values.");
            }
            FilterError::UnknownEnumValue(what, raw) => {
                push_lit(&mut out, "Unknown ");
                push_bytes(&mut out, what.as_slice());
                push_lit(&mut out, ": ");
                push_bytes(&mut out, raw.as_slice());
            }
            FilterError::UnsupportedFormat(f) => {
                push_lit(&mut out, "Unsupported image format: ");
                push_bytes(&mut out, f.as_slice());
            }
            FilterError::DownloadFailed(status, url) => {
                push_lit(&mut out, "Url ");
                push_bytes(&mut out, url.as_slice());
                push_lit(&mut out, " returned ");
                let st = u64_to_bytes(*status as u64);
                push_bytes(&mut out, st.as_slice());
                push_lit(&mut out, ".");
            }
            FilterError::NotInCache => {
                push_lit(&mut out, "The file is not in cache");
            }
            FilterError::DataTooBig(size, capacity) => {
                push_lit(&mut out, "Data is too big to insert into the cache. ");
                let sz = u64_to_bytes(*size as u64);
                push_bytes(&mut out, sz.as_slice());
                push_lit(&mut out, " bytes > ");
                let cap = u64_to_bytes(*capacity as u64);
                push_bytes(&mut out, cap.as_slice());
                push_lit(&mut out, " bytes of capacity");
            }
            FilterError::NoSuchCache(name) => {
                push_lit(&mut out, "No such cache: ");
                push_bytes(&mut out, name.as_slice());
            }
            FilterError::IoFailure => {
                push_lit(&mut out, "Input or output failed");
            }
            FilterError::BackendFailure(msg) => {
                push_bytes(&mut out, msg.as_slice());
            }
            FilterError::CannotLogFilter(name) => {
                push_lit(&mut out, "Can't log usage of filter ");
                push_bytes(&mut out, name.as_slice());
            }
            FilterError::MissingAliasArgument(i) => {
                push_lit(&mut out, "Missing alias argument ");
                let pos = u64_to_bytes(*i as u64);
                push_bytes(&mut out, pos.as_slice());
            }
            FilterError::ValueOutOfRange => {
                push_lit(&mut out, "Size value out of range");
            }
        }
        out
    }
}

} // verus!
