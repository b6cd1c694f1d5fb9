//! The cache filter's data handling: the fingerprint of a sub-tree, the
//! on-disk key layout, the metadata record, and the single-file framing
//! of a cached result.

use vstd::prelude::*;
use crate::error::{FilterError, spec_lit, push_lit};
use crate::filter::{Decimal, FilterArg};
use crate::lru::{LruCache, spec_insert_outcome};
use crate::hashes::{sha1_hex, sha1_hex_of};
use crate::pipeline::{
    spec_render_arg,
    render_arg,
    spec_render_decimal,
    render_decimal,
    digits_end,
    digits_val,
    is_digit,
};
use crate::text::{le_bytes, le_val, push_le, read_le, copy_range, push_bytes};

verus! {

/// The on-disk key for a fingerprint: the first three byte pairs of the
/// hexadecimal digest become directories, the rest is the file name.
pub open spec fn spec_cache_path(data: Seq<u8>) -> Seq<u8> {
    let h = sha1_hex_of(data);
    h.subrange(0, 2) + seq!['/' as u8] + h.subrange(2, 4) + seq!['/' as u8] + h.subrange(4, 6)
        + seq!['/' as u8] + h.subrange(6, 40)
}

/// Hashes a byte string into its nested cache path.
pub fn cache_path(data: &[u8]) -> (r: Vec<u8>)
    ensures
        r@ == spec_cache_path(data@),
{
    let h = sha1_hex(data);
    let mut out: Vec<u8> = Vec::new();
    push_bytes(&mut out, &h.as_slice()[0..2]);
    out.push('/' as u8);
    push_bytes(&mut out, &h.as_slice()[2..4]);
    out.push('/' as u8);
    push_bytes(&mut out, &h.as_slice()[4..6]);
    out.push('/' as u8);
    push_bytes(&mut out, &h.as_slice()[6..40]);
    proof {
        assert(out@ =~= spec_cache_path(data@));
    }
    out
}

/// The canonical fingerprint of a cached sub-tree: the cache path of
/// its rendered text.
pub fn fingerprint(arg: &FilterArg) -> (r: Vec<u8>)
    ensures
        r@ == spec_cache_path(spec_render_arg(arg@)),
{
    let text = render_arg(arg);
    cache_path(text.as_slice())
}

/// What a cached result remembers besides its payload.
#[derive(Debug, Clone, PartialEq, Eq)]
pub struct CacheMetadata {
    pub content_type: Vec<u8>,
    pub dpi: Option<(Decimal, Decimal)>,
}

/// Mathematical model of the metadata record.
#[verifier::ext_equal]
pub struct MetaView {
    pub content_type: Seq<u8>,
    pub dpi: Option<(Decimal, Decimal)>,
}

impl View for CacheMetadata {
    type V = MetaView;

    open spec fn view(&self) -> MetaView {
        MetaView { content_type: self.content_type@, dpi: self.dpi }
    }
}

/// A record this library will write: a printable content type without
/// quotes or backslashes, and in-range resolutions.
pub open spec fn meta_wf(m: MetaView) -> bool {
    &&& forall|j: int|
        0 <= j < m.content_type.len() ==> 0x20 <= #[trigger] m.content_type[j] <= 0x7e
            && m.content_type[j] != ('"' as u8) && m.content_type[j] != (0x5c as u8)
    &&& match m.dpi {
        Some((x, y)) => {
            &&& crate::filter::decimal_in_range(x)
            &&& crate::filter::decimal_in_range(y)
        },
        None => true,
    }
}

/// The metadata's JSON text: the content type, then the resolution pair
/// or null.
pub open spec fn spec_encode_meta(m: MetaView) -> Seq<u8> {
    spec_lit("{\"content_type\":\"") + m.content_type + spec_lit("\",\"dpi\":") + (match m.dpi {
        Some((x, y)) => spec_lit("[") + spec_render_decimal(x) + spec_lit(",")
            + spec_render_decimal(y) + spec_lit("]"),
        None => spec_lit("null"),
    }) + spec_lit("}")
}

/// Writes the metadata record as JSON.
pub fn encode_meta(m: &CacheMetadata) -> (r: Vec<u8>)
    ensures
        r@ == spec_encode_meta(m@),
{
    let mut out: Vec<u8> = Vec::new();
    push_lit(&mut out, "{\"content_type\":\"");
    push_bytes(&mut out, m.content_type.as_slice());
    push_lit(&mut out, "\",\"dpi\":");
    match &m.dpi {
        Some(pair) => {
            push_lit(&mut out, "[");
            let x = render_decimal(&pair.0);
            push_bytes(&mut out, x.as_slice());
            push_lit(&mut out, ",");
            let y = render_decimal(&pair.1);
            push_bytes(&mut out, y.as_slice());
            push_lit(&mut out, "]");
        }
        None => {
            push_lit(&mut out, "null");
        }
    }
    push_lit(&mut out, "}");
    proof {
        assert(out@ =~= spec_encode_meta(m@));
    }
    out
}

/// One cached value as a single file: four little-endian bytes of
/// metadata length, the metadata record, then the payload verbatim.
pub open spec fn spec_encode_entry(meta: Seq<u8>, payload: Seq<u8>) -> Seq<u8> {
    le_bytes(meta.len(), 4) + meta + payload
}

/// Frames a metadata record and a payload into one blob.
pub fn encode_entry(meta: &[u8], payload: &[u8]) -> (r: Vec<u8>)
    requires
        meta@.len() <= 0xffff_ffff,
    ensures
        r@ == spec_encode_entry(meta@, payload@),
{
    let mut out: Vec<u8> = Vec::new();
    push_le(&mut out, meta.len() as u64, 4);
    push_bytes(&mut out, meta);
    push_bytes(&mut out, payload);
    out
}

/// Splits a blob back into its metadata record and payload.
pub open spec fn spec_decode_entry(s: Seq<u8>) -> Option<(Seq<u8>, Seq<u8>)> {
    if s.len() < 4 {
        None
    } else {
        let mlen = le_val(s, 0, 4);
        if 4 + mlen > s.len() {
            None
        } else {
            Some((s.subrange(4, 4 + mlen as int), s.subrange(4 + mlen as int, s.len() as int)))
        }
    }
}

/// Unframes a cached blob.
pub fn decode_entry(s: &[u8]) -> (r: Option<(Vec<u8>, Vec<u8>)>)
    ensures
        match (r, spec_decode_entry(s@)) {
            (Some(p), Some(sp)) => p.0@ == sp.0 && p.1@ == sp.1,
            (None, None) => true,
            _ => false,
        },
{
    let n = s.len();
    let (mlen, p) = match read_le(s, 0, 4) {
        Some(x) => x,
        None => {
            return None;
        },
    };
    if mlen > (n - p) as u64 {
        return None;
    }
    let ml = mlen as usize;
    let meta = copy_range(s, p, p + ml);
    let payload = copy_range(s, p + ml, n);
    Some((meta, payload))
}

/// Unframing inverts framing: the metadata record and the payload come
/// back exactly.
pub proof fn lemma_entry_roundtrip(meta: Seq<u8>, payload: Seq<u8>)
    requires
        meta.len() <= 0xffff_ffff,
    ensures
        spec_decode_entry(spec_encode_entry(meta, payload)) == Some((meta, payload)),
{
    let s = spec_encode_entry(meta, payload);
    crate::text::lemma_le_bytes_len(meta.len(), 4);
    assert(s.subrange(0, 4) =~= le_bytes(meta.len(), 4)) by {
        assert forall|t: int| 0 <= t < 4 implies s.subrange(0, 4)[t] == le_bytes(
            meta.len(),
            4,
        )[t] by {
            assert(s[t] == (le_bytes(meta.len(), 4) + meta + payload)[t]);
        }
    }
    assert(meta.len() < crate::text::pow256(4)) by {
        reveal_with_fuel(crate::text::pow256, 5);
    }
    crate::text::lemma_le_roundtrip(s, 0, meta.len(), 4);
    assert(s.subrange(4, 4 + meta.len() as int) =~= meta);
    assert(s.subrange(4 + meta.len() as int, s.len() as int) =~= payload);
}

/// Reads a canonical fractional rendering at `pos`: digits, a point,
/// then one to eighteen fractional digits, signed.  Yields the value
/// and the position after it.
pub open spec fn spec_read_decimal(s: Seq<u8>, pos: int) -> Option<(Decimal, int)> {
    if !(0 <= pos < s.len()) {
        None
    } else {
        let neg = s[pos] == ('-' as u8);
        let p1: int = if neg {
            pos + 1
        } else {
            pos
        };
        let d1e = digits_end(s, p1);
        if d1e == p1 || !(d1e < s.len() && s[d1e] == ('.' as u8)) {
            None
        } else {
            let d2e = digits_end(s, d1e + 1);
            let scale = d2e - (d1e + 1);
            if scale < 1 || scale > 18 {
                None
            } else {
                let m = digits_val(s, p1, d1e) * crate::filter::pow10(scale as nat) + digits_val(
                    s,
                    d1e + 1,
                    d2e,
                );
                if m >= 1_000_000_000_000_000_000 {
                    None
                } else if neg {
                    Some((Decimal { mantissa: -(m as int) as i64, scale: scale as u32 }, d2e))
                } else {
                    Some((Decimal { mantissa: m as i64, scale: scale as u32 }, d2e))
                }
            }
        }
    }
}

/// Reads a canonical fractional rendering.
pub fn read_decimal(s: &[u8], pos: usize) -> (r: Option<(Decimal, usize)>)
    requires
        pos <= s@.len(),
    ensures
        match (r, spec_read_decimal(s@, pos as int)) {
            (Some(p), Some(sp)) => p.0 == sp.0 && p.1 == sp.1 && pos < p.1 <= s@.len(),
            (None, None) => true,
            _ => false,
        },
{
    let n = s.len();
    if pos >= n {
        return None;
    }
    let neg = s[pos] == '-' as u8;
    let p1 = if neg {
        pos + 1
    } else {
        pos
    };
    let d1e = crate::pipeline::scan_digits(s, p1);
    if d1e == p1 || !(d1e < n && s[d1e] == '.' as u8) {
        return None;
    }
    let d2e = crate::pipeline::scan_digits(s, d1e + 1);
    let scale = d2e - (d1e + 1);
    if scale < 1 || scale > 18 {
        return None;
    }
    let intval = match crate::pipeline::digits_value_checked(s, p1, d1e) {
        Some(v) => v,
        None => {
            proof {
                crate::filter::lemma_pow10_positive(scale as nat);
                assert(digits_val(s@, p1 as int, d1e as int) * crate::filter::pow10(
                    scale as nat,
                ) >= digits_val(s@, p1 as int, d1e as int)) by (nonlinear_arith)
                    requires
                        crate::filter::pow10(scale as nat) >= 1,
                        digits_val(s@, p1 as int, d1e as int) >= 0,
                ;
            }
            return None;
        },
    };
    let fracval = match crate::pipeline::digits_value_checked(s, d1e + 1, d2e) {
        Some(v) => v,
        None => {
            proof {
                crate::filter::lemma_pow10_positive(scale as nat);
                assert(digits_val(s@, p1 as int, d1e as int) * crate::filter::pow10(
                    scale as nat,
                ) >= 0) by (nonlinear_arith)
                    requires
                        crate::filter::pow10(scale as nat) >= 1,
                        digits_val(s@, p1 as int, d1e as int) >= 0,
                ;
            }
            return None;
        },
    };
    let p = crate::pipeline::pow10_u128_small(scale as u32);
    proof {
        crate::filter::lemma_pow10_increases(scale as nat, 18);
        crate::pipeline::lemma_pow10_18_bound();
        assert((intval as int) * (p as int) <= 0x7fff_ffff_ffff_ffffint
            * 1_000_000_000_000_000_000int) by (nonlinear_arith)
            requires
                0 <= (intval as int) && (intval as int) <= 0x7fff_ffff_ffff_ffffint,
                0 <= (p as int) && (p as int) <= 1_000_000_000_000_000_000int,
        ;
        assert((intval as int) * (p as int) >= 0) by (nonlinear_arith)
            requires
                0 <= (intval as int),
                0 <= (p as int),
        ;
    }
    let m: u128 = (intval as u128) * p + (fracval as u128);
    if m >= 1_000_000_000_000_000_000u128 {
        return None;
    }
    if neg {
        Some((Decimal { mantissa: -(m as i64), scale: scale as u32 }, d2e))
    } else {
        Some((Decimal { mantissa: m as i64, scale: scale as u32 }, d2e))
    }
}

/// Position of the first `"` at or after `pos`.
pub open spec fn find_quote(s: Seq<u8>, pos: int) -> Option<int>
    decreases s.len() - pos,
{
    if !(0 <= pos < s.len()) {
        None
    } else if s[pos] == ('"' as u8) {
        Some(pos)
    } else {
        find_quote(s, pos + 1)
    }
}

fn find_quote_x(s: &[u8], pos: usize) -> (r: Option<usize>)
    requires
        pos <= s@.len(),
    ensures
        match r {
            Some(q) => find_quote(s@, pos as int) == Some(q as int) && pos <= q < s@.len(),
            None => find_quote(s@, pos as int) is None,
        },
{
    let mut i: usize = pos;
    while i < s.len()
        invariant
            pos <= i <= s@.len(),
            find_quote(s@, pos as int) == find_quote(s@, i as int),
        decreases s@.len() - i,
    {
        if s[i] == '"' as u8 {
            return Some(i);
        }
        i += 1;
    }
    None
}

/// Whether the literal's bytes sit at `pos`.
fn has_lit_at(s: &[u8], pos: usize, lit: &str) -> (r: bool)
    requires
        pos <= s@.len(),
    ensures
        r == (pos + spec_lit(lit).len() <= s@.len() && s@.subrange(
            pos as int,
            pos + spec_lit(lit).len(),
        ) == spec_lit(lit)),
{
    let mut w: Vec<u8> = Vec::new();
    push_lit(&mut w, lit);
    if s.len() - pos < w.len() {
        return false;
    }
    let part = crate::text::copy_range(s, pos, pos + w.len());
    crate::text::bytes_eq(part.as_slice(), w.as_slice())
}

/// Reads a metadata record exactly as this library writes one.
pub open spec fn spec_parse_meta(s: Seq<u8>) -> Option<MetaView> {
    let head = spec_lit("{\"content_type\":\"");
    let mid = spec_lit("\",\"dpi\":");
    if !(head.len() <= s.len() && s.subrange(0, head.len() as int) == head) {
        None
    } else {
        match find_quote(s, head.len() as int) {
            None => None,
            Some(q) => {
                let ct = s.subrange(head.len() as int, q);
                if !(q + mid.len() <= s.len() && s.subrange(q, q + mid.len()) == mid) {
                    None
                } else {
                    let p = q + mid.len();
                    if s.len() == p + 5 && s.subrange(p, p + 5) == spec_lit("null}") {
                        Some(MetaView { content_type: ct, dpi: None })
                    } else if p < s.len() && s[p] == ('[' as u8) {
                        match spec_read_decimal(s, p + 1) {
                            Some((x, e1)) => {
                                if e1 < s.len() && s[e1] == (',' as u8) {
                                    match spec_read_decimal(s, e1 + 1) {
                                        Some((y, e2)) => {
                                            if e2 + 2 == s.len() && s[e2] == (']' as u8) && s[e2
                                                + 1] == ('}' as u8) {
                                                Some(
                                                    MetaView {
                                                        content_type: ct,
                                                        dpi: Some((x, y)),
                                                    },
                                                )
                                            } else {
                                                None
                                            }
                                        }
                                        None => None,
                                    }
                                } else {
                                    None
                                }
                            }
                            None => None,
                        }
                    } else {
                        None
                    }
                }
            }
        }
    }
}

/// Reads a metadata record back from its JSON text.
pub fn parse_meta(s: &[u8]) -> (r: Option<CacheMetadata>)
    ensures
        match (r, spec_parse_meta(s@)) {
            (Some(m), Some(mv)) => m@ == mv,
            (None, None) => true,
            _ => false,
        },
{
    let n = s.len();
    if !has_lit_at(s, 0, "{\"content_type\":\"") {
        return None;
    }
    let head_len: usize = 17;
    proof {
        reveal_strlit("{\"content_type\":\"");
        assert(spec_lit("{\"content_type\":\"").len() == 17);
    }
    let q = match find_quote_x(s, head_len) {
        Some(q) => q,
        None => {
            return None;
        },
    };
    let ct = crate::text::copy_range(s, head_len, q);
    if !has_lit_at(s, q, "\",\"dpi\":") {
        return None;
    }
    proof {
        reveal_strlit("\",\"dpi\":");
        assert(spec_lit("\",\"dpi\":").len() == 8);
    }
    let p = q + 8;
    if has_lit_at(s, p, "null}") {
        proof {
            reveal_strlit("null}");
            assert(spec_lit("null}").len() == 5);
        }
        if n == p + 5 {
            return Some(CacheMetadata { content_type: ct, dpi: None });
        }
        proof {
            assert(s@.subrange(p as int, p + 5)[0] == spec_lit("null}")[0]);
            assert(s@[p as int] != ('[' as u8));
        }
        return None;
    }
    proof {
        reveal_strlit("null}");
        assert(spec_lit("null}").len() == 5);
    }
    if p < n && s[p] == '[' as u8 {
        let (x, e1) = match read_decimal(s, p + 1) {
            Some(v) => v,
            None => {
                return None;
            },
        };
        if !(e1 < n && s[e1] == ',' as u8) {
            return None;
        }
        let (y, e2) = match read_decimal(s, e1 + 1) {
            Some(v) => v,
            None => {
                return None;
            },
        };
        if n - e2 == 2 && s[e2] == ']' as u8 && s[e2 + 1] == '}' as u8 {
            return Some(CacheMetadata { content_type: ct, dpi: Some((x, y)) });
        }
        return None;
    }
    None
}

proof fn lemma_find_quote_at(s: Seq<u8>, pos: int, e: int)
    requires
        0 <= pos <= e < s.len(),
        forall|j: int| pos <= j < e ==> s[j] != ('"' as u8),
        s[e] == ('"' as u8),
    ensures
        find_quote(s, pos) == Some(e),
    decreases e - pos,
{
    if pos < e {
        lemma_find_quote_at(s, pos + 1, e);
    }
}

/// A canonically rendered fraction reads back as the same value.
#[verifier::rlimit(80)]
proof fn lemma_read_decimal_of_render(s: Seq<u8>, pos: int, d: Decimal, end: int)
    requires
        0 <= pos,
        crate::filter::decimal_in_range(d),
        end == pos + spec_render_decimal(d).len(),
        end < s.len(),
        s.subrange(pos, end) == spec_render_decimal(d),
        !is_digit(s[end]),
        s[end] != ('.' as u8),
    ensures
        spec_read_decimal(s, pos) == Some((d, end)),
{
    let body = spec_render_decimal(d);
    let mag: nat = if d.mantissa < 0 {
        (-(d.mantissa as int)) as nat
    } else {
        d.mantissa as nat
    };
    let sc = d.scale as nat;
    crate::filter::lemma_pow10_positive(sc);
    let whole = mag / crate::filter::pow10(sc);
    let dg = crate::text::spec_digits(whole);
    crate::pipeline::lemma_digits_facts(whole);
    crate::pipeline::lemma_padded_facts(mag, sc);
    let sign: int = if d.mantissa < 0 {
        1
    } else {
        0
    };
    assert forall|j: int| 0 <= j < body.len() implies s[pos + j] == body[j] by {
        assert(s.subrange(pos, end)[j] == body[j]);
    }
    let p1 = pos + sign;
    let d1e = p1 + dg.len();
    let d2e = d1e + 1 + sc;
    assert(body.len() == sign + dg.len() + 1 + sc);
    assert(s.subrange(p1, d1e) =~= dg) by {
        assert forall|t: int| 0 <= t < dg.len() implies s.subrange(p1, d1e)[t] == dg[t] by {
            assert(s[p1 + t] == body[sign + t]);
            assert(body[sign + t] == dg[t]);
        }
    }
    assert(s[d1e] == body[sign + dg.len()]);
    assert(body[sign + dg.len()] == ('.' as u8));
    assert(s.subrange(d1e + 1, d2e) =~= crate::pipeline::spec_padded(mag, sc)) by {
        assert forall|t: int| 0 <= t < sc implies s.subrange(d1e + 1, d2e)[t]
            == crate::pipeline::spec_padded(mag, sc)[t] by {
            assert(s[d1e + 1 + t] == body[sign + dg.len() + 1 + t]);
            assert(body[sign + dg.len() + 1 + t] == crate::pipeline::spec_padded(mag, sc)[t]);
        }
    }
    assert forall|j: int| p1 <= j < d1e implies is_digit(s[j]) by {
        assert(s.subrange(p1, d1e)[j - p1] == dg[j - p1]);
    }
    assert forall|j: int| d1e + 1 <= j < d2e implies is_digit(s[j]) by {
        assert(s.subrange(d1e + 1, d2e)[j - (d1e + 1)] == crate::pipeline::spec_padded(
            mag,
            sc,
        )[j - (d1e + 1)]);
    }
    assert(d2e == end);
    crate::pipeline::lemma_digits_end_at(s, p1, d1e);
    crate::pipeline::lemma_digits_end_at(s, d1e + 1, d2e);
    crate::pipeline::lemma_digits_val_of(s, p1, whole);
    crate::pipeline::lemma_padded_val_of(s, d1e + 1, mag, sc);
    if d.mantissa < 0 {
        assert(s[pos] == body[0]);
        assert(body[0] == ('-' as u8));
    } else {
        assert(s[pos] == body[0]);
        assert(body[0] == dg[0]);
        assert(is_digit(s[pos]));
        assert(s[pos] != ('-' as u8));
    }
    assert(whole * crate::filter::pow10(sc) + mag % crate::filter::pow10(sc) == mag) by {
        vstd::arithmetic::div_mod::lemma_fundamental_div_mod(
            mag as int,
            crate::filter::pow10(sc) as int,
        );
        assert(crate::filter::pow10(sc) * whole == whole * crate::filter::pow10(sc))
            by (nonlinear_arith);
    }
}

/// Reading a written metadata record restores it exactly.
#[verifier::rlimit(80)]
pub proof fn lemma_meta_roundtrip(m: MetaView)
    requires
        meta_wf(m),
    ensures
        spec_parse_meta(spec_encode_meta(m)) == Some(m),
{
    let s = spec_encode_meta(m);
    let head = spec_lit("{\"content_type\":\"");
    let mid = spec_lit("\",\"dpi\":");
    let ct = m.content_type;
    let tail: Seq<u8> = match m.dpi {
        Some((x, y)) => spec_lit("[") + spec_render_decimal(x) + spec_lit(",")
            + spec_render_decimal(y) + spec_lit("]"),
        None => spec_lit("null"),
    };
    assert(s == head + ct + mid + tail + spec_lit("}"));
    reveal_strlit("{\"content_type\":\"");
    reveal_strlit("\",\"dpi\":");
    reveal_strlit("null");
    reveal_strlit("null}");
    reveal_strlit("[");
    reveal_strlit(",");
    reveal_strlit("]");
    reveal_strlit("}");
    assert(head.len() == 17);
    assert(mid.len() == 8);
    assert(s.subrange(0, 17) =~= head) by {
        assert forall|t: int| 0 <= t < 17 implies s.subrange(0, 17)[t] == head[t] by {
            assert(s[t] == (head + ct + mid + tail + spec_lit("}"))[t]);
        }
    }
    let q = 17 + ct.len() as int;
    assert forall|j: int| 17 <= j < q implies s[j] != ('"' as u8) by {
        assert(s[j] == ct[j - 17]);
    }
    assert(s[q] == mid[0]);
    assert(mid[0] == ('"' as u8));
    lemma_find_quote_at(s, 17, q);
    assert(s.subrange(17, q) =~= ct) by {
        assert forall|t: int| 0 <= t < ct.len() implies s.subrange(17, q)[t] == ct[t] by {
            assert(s[17 + t] == ct[t]);
        }
    }
    assert(s.subrange(q, q + 8) =~= mid) by {
        assert forall|t: int| 0 <= t < 8 implies s.subrange(q, q + 8)[t] == mid[t] by {
            assert(s[q + t] == mid[t]);
        }
    }
    let p = q + 8;
    match m.dpi {
        None => {
            assert(tail == spec_lit("null"));
            assert(s.len() == p + 5);
            assert(s.subrange(p, p + 5) =~= spec_lit("null}")) by {
                assert forall|t: int| 0 <= t < 5 implies s.subrange(p, p + 5)[t] == spec_lit(
                    "null}",
                )[t] by {
                    if t < 4 {
                        assert(s[p + t] == tail[t]);
                    } else {
                        assert(s[p + t] == spec_lit("}")[0]);
                    }
                }
            }
        }
        Some((x, y)) => {
            let rx = spec_render_decimal(x);
            let ry = spec_render_decimal(y);
            assert(tail == spec_lit("[") + rx + spec_lit(",") + ry + spec_lit("]"));
            assert(s[p] == tail[0]);
            assert(tail[0] == ('[' as u8));
            // not the null tail: the lengths or the first byte differ
            assert(!(s.len() == p + 5 && s.subrange(p, p + 5) == spec_lit("null}"))) by {
                if s.len() == p + 5 && s.subrange(p, p + 5) == spec_lit("null}") {
                    assert(s.subrange(p, p + 5)[0] == spec_lit("null}")[0]);
                }
            }
            let e1 = p + 1 + rx.len();
            assert(s.subrange(p + 1, e1) =~= rx) by {
                assert forall|t: int| 0 <= t < rx.len() implies s.subrange(p + 1, e1)[t]
                    == rx[t] by {
                    assert(s[p + 1 + t] == tail[1 + t]);
                    assert(tail[1 + t] == rx[t]);
                }
            }
            assert(s[e1] == tail[1 + rx.len() as int]);
            assert(tail[1 + rx.len() as int] == (',' as u8));
            lemma_read_decimal_of_render(s, p + 1, x, e1);
            let e2 = e1 + 1 + ry.len();
            assert(s.subrange(e1 + 1, e2) =~= ry) by {
                assert forall|t: int| 0 <= t < ry.len() implies s.subrange(e1 + 1, e2)[t]
                    == ry[t] by {
                    assert(s[e1 + 1 + t] == tail[1 + rx.len() as int + 1 + t]);
                    assert(tail[1 + rx.len() as int + 1 + t] == ry[t]);
                }
            }
            assert(s[e2] == tail[tail.len() as int - 1]);
            assert(tail[tail.len() as int - 1] == (']' as u8));
            assert(s[e2 + 1] == spec_lit("}")[0]);
            lemma_read_decimal_of_render(s, e1 + 1, y, e2);
            assert(e2 + 2 == s.len());
        }
    }
}

/// One result read back from a cache file: its metadata and payload.
#[derive(Debug, Clone, PartialEq, Eq)]
pub struct CacheEntry {
    pub metadata: CacheMetadata,
    pub buffer: Vec<u8>,
}

impl CacheEntry {
    pub fn content_type(&self) -> (r: Vec<u8>)
        ensures
            r@ == self.metadata.content_type@,
    {
        crate::text::copy_bytes(self.metadata.content_type.as_slice())
    }

    /// The resolution recorded with the entry, when it was an image.
    pub fn dpi(&self) -> (r: Option<(Decimal, Decimal)>)
        ensures
            r == self.metadata.dpi,
    {
        self.metadata.dpi
    }

    /// The payload bytes, exactly as first produced.
    pub fn content(&self) -> (r: Vec<u8>)
        ensures
            r@ == self.buffer@,
    {
        crate::text::copy_bytes(self.buffer.as_slice())
    }

    pub fn status_code(&self) -> (r: u16)
        ensures
            r == 200,
    {
        200
    }
}

/// What reading a stored blob yields: the framed metadata record,
/// decoded, and the payload verbatim.
pub open spec fn spec_read_entry(blob: Seq<u8>) -> Option<(MetaView, Seq<u8>)> {
    match spec_decode_entry(blob) {
        Some((meta_bytes, payload)) => match spec_parse_meta(meta_bytes) {
            Some(m) => Some((m, payload)),
            None => None,
        },
        None => None,
    }
}

/// Unframes and decodes one cached blob.
pub fn read_entry(blob: &[u8]) -> (r: Option<CacheEntry>)
    ensures
        match (r, spec_read_entry(blob@)) {
            (Some(e), Some(sp)) => e.metadata@ == sp.0 && e.buffer@ == sp.1,
            (None, None) => true,
            _ => false,
        },
{
    let (meta_bytes, payload) = match decode_entry(blob) {
        Some(p) => p,
        None => {
            return None;
        },
    };
    match parse_meta(meta_bytes.as_slice()) {
        Some(metadata) => Some(CacheEntry { metadata, buffer: payload }),
        None => None,
    }
}

/// Frames a result and records it in the cache index under its path:
/// the blob the caller writes to disk, and the keys whose files leave.
pub fn save_entry(
    cache: &mut LruCache,
    path: Vec<u8>,
    meta: &CacheMetadata,
    payload: &[u8],
) -> (r: Result<(Vec<Vec<u8>>, Vec<u8>), FilterError>)
    requires
        old(cache).wf(),
        spec_encode_meta(meta@).len() <= 0xffff_ffff,
    ensures
        final(cache).wf(),
        final(cache)@.root == old(cache)@.root,
        final(cache)@.capacity == old(cache)@.capacity,
        ({
            let blob = spec_encode_entry(spec_encode_meta(meta@), payload@);
            match r {
                Ok(p) => p.1@ == blob && spec_insert_outcome(
                    old(cache)@,
                    final(cache)@,
                    path@,
                    blob.len(),
                    Ok(p.0),
                ),
                Err(e) => spec_insert_outcome(
                    old(cache)@,
                    final(cache)@,
                    path@,
                    blob.len(),
                    Err(e),
                ),
            }
        }),
{
    let meta_bytes = encode_meta(meta);
    let blob = encode_entry(meta_bytes.as_slice(), payload);
    match cache.insert_bytes(path, blob.as_slice()) {
        Ok(evicted) => Ok((evicted, blob)),
        Err(e) => Err(e),
    }
}

} // verus!
