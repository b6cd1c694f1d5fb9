//! The typed configuration the daemon runs under.  Loading it from disk
//! is the application shell's job; the library only consumes the plain
//! values.

use vstd::prelude::*;
use crate::img::ImageFormat;

verus! {

/// One named cache: its directory and its byte capacity.
#[derive(Debug, Clone, PartialEq, Eq)]
pub struct Cache {
    pub dir: Vec<u8>,
    pub size: usize,
}

/// Bounds and the format allow-list for image work.
#[derive(Debug, Clone, PartialEq, Eq)]
pub struct ImageConfig {
    pub max_width: Option<i64>,
    pub max_height: Option<i64>,
    pub supported_formats: Option<Vec<ImageFormat>>,
}

impl Default for ImageConfig {
    /// No bounds, no allow-list.
    fn default() -> (r: Self)
        ensures
            r.max_width is None,
            r.max_height is None,
            r.supported_formats is None,
    {
        ImageConfig { max_width: None, max_height: None, supported_formats: None }
    }
}

/// Whether a format may be served: everything when no allow-list is
/// configured, else exactly the listed formats.
pub open spec fn spec_format_supported(cfg: ImageConfig, f: ImageFormat) -> bool {
    match cfg.supported_formats {
        None => true,
        Some(list) => exists|j: int| 0 <= j < list@.len() && list@[j] == f,
    }
}

impl ImageConfig {
    pub fn format_supported(&self, f: &ImageFormat) -> (r: bool)
        ensures
            r == spec_format_supported(*self, *f),
    {
        match &self.supported_formats {
            None => true,
            Some(list) => {
                let mut i: usize = 0;
                while i < list.len()
                    invariant
                        i <= list@.len(),
                        forall|j: int| 0 <= j < i ==> list@[j] != *f,
                        self.supported_formats == Some(*list),
                    decreases list@.len() - i,
                {
                    if list[i] == *f {
                        proof {
                            assert(exists|j: int|
                                0 <= j < list@.len() && list@[j] == *f) by {
                                assert(0 <= (i as int) && (i as int) < list@.len() && list@[i as int] == *f);
                            }
                            assert(self.supported_formats matches Some(l2) && l2 == *list);
                            assert(spec_format_supported(*self, *f));
                        }
                        return true;
                    }
                    i += 1;
                }
                false
            }
        }
    }
}

/// Everything the daemon is configured with.
#[derive(Debug, Clone, PartialEq, Eq)]
pub struct Config {
    /// The HMAC key for URL signing; absent means every URL passes.
    pub secret: Option<Vec<u8>>,
    /// Name to template-URL bindings, expanded before execution.
    pub aliases: Vec<(Vec<u8>, Vec<u8>)>,
    /// Whether names outside the alias table reach the registry.
    pub allow_builtin_filters: bool,
    /// The response header that records executed filter names.
    pub log_filters_header: Option<Vec<u8>>,
    pub image: ImageConfig,
    /// Domain prefix to URL prefix rewrites for downloads.
    pub domains: Vec<(Vec<u8>, Vec<u8>)>,
    pub caches: Vec<(Vec<u8>, Cache)>,
}

} // verus!
