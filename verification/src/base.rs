//! Arithmetic the bundled image filters decide with: clamping requested
//! dimensions under the configured bounds with aspect-ratio fill, and
//! the re-entry text of the pattern filter.

use vstd::prelude::*;
use crate::text::{spec_int_bytes, u64_to_bytes, i64_to_bytes, push_bytes};
use crate::error::{push_lit, spec_lit};

verus! {

/// Truncated `a * w / h`, saturated into the mantissa range, as the
/// aspect-ratio fill computes it.
pub open spec fn spec_ratio_fill(a: int, w: int, h: int) -> int {
    let exact = if a * w >= 0 {
        (a * w) / h
    } else {
        -((-(a * w)) / h)
    };
    if exact > i64::MAX {
        i64::MAX as int
    } else if exact < i64::MIN {
        i64::MIN as int
    } else {
        exact
    }
}

/// The dimensions a resize actually runs with: each requested side is
/// clamped to its configured bound, then a zero side is filled from
/// the other by the image's aspect ratio.
pub open spec fn spec_clamp_dimensions(
    w: int,
    h: int,
    max_w: Option<i64>,
    max_h: Option<i64>,
    img_w: int,
    img_h: int,
) -> (int, int) {
    let w1 = match max_w {
        Some(m) => if w > m {
            m as int
        } else {
            w
        },
        None => w,
    };
    let h1 = match max_h {
        Some(m) => if h > m {
            m as int
        } else {
            h
        },
        None => h,
    };
    let w2 = if w1 == 0 {
        spec_ratio_fill(h1, img_w, img_h)
    } else {
        w1
    };
    let h2 = if h1 == 0 {
        spec_ratio_fill(w2, img_h, img_w)
    } else {
        h1
    };
    (w2, h2)
}

/// Truncated, saturated `a * w / h` over machine integers.
fn ratio_fill(a: i64, w: u64, h: u64) -> (r: i64)
    requires
        1 <= h,
        w < 0x1_0000_0000,
        h < 0x1_0000_0000,
    ensures
        r as int == spec_ratio_fill(a as int, w as int, h as int),
{
    proof {
        assert((a as int) * (w as int) <= 0x8000_0000_0000_0000 * 0x1_0000_0000 && (a as int) * (
        w as int) >= -0x8000_0000_0000_0000 * 0x1_0000_0000) by (nonlinear_arith)
            requires
                -0x8000_0000_0000_0000 <= (a as int) && (a as int) <= 0x8000_0000_0000_0000,
                0 <= (w as int) && (w as int) < 0x1_0000_0000,
        ;
    }
    let prod: i128 = (a as i128) * (w as i128);
    let exact: i128 = if prod >= 0 {
        let q = (prod as u128) / (h as u128);
        proof {
            vstd::arithmetic::div_mod::lemma_div_nonincreasing(prod as int, h as int);
        }
        q as i128
    } else {
        let q = ((-prod) as u128) / (h as u128);
        proof {
            vstd::arithmetic::div_mod::lemma_div_nonincreasing(-prod as int, h as int);
        }
        -(q as i128)
    };
    if exact > i64::MAX as i128 {
        i64::MAX
    } else if exact < i64::MIN as i128 {
        i64::MIN
    } else {
        exact as i64
    }
}

/// Clamps requested dimensions under the configured bounds and fills a
/// zero side from the image's aspect ratio.
pub fn clamp_dimensions(
    w: i64,
    h: i64,
    max_w: Option<i64>,
    max_h: Option<i64>,
    img_w: u64,
    img_h: u64,
) -> (r: (i64, i64))
    requires
        1 <= img_w < 0x1_0000_0000,
        1 <= img_h < 0x1_0000_0000,
    ensures
        (r.0 as int, r.1 as int) == spec_clamp_dimensions(
            w as int,
            h as int,
            max_w,
            max_h,
            img_w as int,
            img_h as int,
        ),
{
    let w1 = match max_w {
        Some(m) => if w > m {
            m
        } else {
            w
        },
        None => w,
    };
    let h1 = match max_h {
        Some(m) => if h > m {
            m
        } else {
            h
        },
        None => h,
    };
    let w2 = if w1 == 0 {
        ratio_fill(h1, img_w, img_h)
    } else {
        w1
    };
    let h2 = if h1 == 0 {
        ratio_fill(w2, img_h, img_w)
    } else {
        h1
    };
    (w2, h2)
}

/// Ceiling division for tile counts.
pub open spec fn spec_ceil_div(a: int, b: int) -> int {
    (a + b - 1) / b
}

/// The partial URL the pattern filter re-enters with: fit the tile,
/// extend the canvas back to the source size, then repeat the tile
/// over it.
pub open spec fn spec_pattern_url(img_w: int, img_h: int, width: int, height: int) -> Seq<u8> {
    spec_lit("fit-in(") + spec_int_bytes(width) + spec_lit(",") + spec_int_bytes(height)
        + spec_lit("):extend(0,0,") + spec_int_bytes(img_w) + spec_lit(",") + spec_int_bytes(
        img_h,
    ) + spec_lit("):repeat(") + spec_int_bytes(spec_ceil_div(img_w, width)) + spec_lit(",")
        + spec_int_bytes(spec_ceil_div(img_h, height)) + spec_lit(",") + spec_int_bytes(width)
        + spec_lit(",") + spec_int_bytes(height) + spec_lit(")")
}

/// Builds the pattern filter's re-entry text.
pub fn pattern_url(img_w: u64, img_h: u64, width: i64, height: i64) -> (r: Vec<u8>)
    requires
        img_w < 0x1_0000_0000,
        img_h < 0x1_0000_0000,
        1 <= width,
        1 <= height,
    ensures
        r@ == spec_pattern_url(img_w as int, img_h as int, width as int, height as int),
{
    let mut out: Vec<u8> = Vec::new();
    push_lit(&mut out, "fit-in(");
    let t = i64_to_bytes(width);
    push_bytes(&mut out, t.as_slice());
    push_lit(&mut out, ",");
    let t = i64_to_bytes(height);
    push_bytes(&mut out, t.as_slice());
    push_lit(&mut out, "):extend(0,0,");
    let t = u64_to_bytes(img_w);
    push_bytes(&mut out, t.as_slice());
    push_lit(&mut out, ",");
    let t = u64_to_bytes(img_h);
    push_bytes(&mut out, t.as_slice());
    push_lit(&mut out, "):repeat(");
    let qx = (img_w + (width as u64) - 1) / (width as u64);
    proof {
        vstd::arithmetic::div_mod::lemma_div_nonincreasing(
            img_w + width - 1,
            width as int,
        );
    }
    let t = u64_to_bytes(qx);
    push_bytes(&mut out, t.as_slice());
    push_lit(&mut out, ",");
    let qy = (img_h + (height as u64) - 1) / (height as u64);
    proof {
        vstd::arithmetic::div_mod::lemma_div_nonincreasing(
            img_h + height - 1,
            height as int,
        );
    }
    let t = u64_to_bytes(qy);
    push_bytes(&mut out, t.as_slice());
    push_lit(&mut out, ",");
    let t = i64_to_bytes(width);
    push_bytes(&mut out, t.as_slice());
    push_lit(&mut out, ",");
    let t = i64_to_bytes(height);
    push_bytes(&mut out, t.as_slice());
    push_lit(&mut out, ")");
    proof {
        assert(out@ =~= spec_pattern_url(
            img_w as int,
            img_h as int,
            width as int,
            height as int,
        ));
    }
    out
}

} // verus!
