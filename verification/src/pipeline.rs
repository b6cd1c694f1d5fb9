//! The pipeline grammar: `name(arg,...)` calls chained with `:`, where an
//! argument is a signed number with an optional unit, a raw string whose
//! parentheses nest, or another call.
//!
//! A chain `a():b()` nests left into right: the earlier call becomes the
//! first argument of the later one.  A `/tail` after the pipeline (one
//! path segment, for human-readable file names) is consumed and ignored.
//!
//! At an argument position the first grammar byte decides: scanning
//! forward, if `(` appears before any of `)`, `,` or `:`, the argument is
//! a nested call; otherwise it is a raw string ending at the first `,` or
//! `)` at parenthesis depth zero.

use vstd::prelude::*;
use crate::filter::{
    Filter,
    FilterArg,
    FilterView,
    ArgView,
    SizeUnit,
    Decimal,
    pow10,
    spec_unit_token,
};
use crate::text::{spec_digits, spec_int_bytes};
use crate::url::{UrlParseError, UrlErrorView};

verus! {

pub open spec fn is_digit(c: u8) -> bool {
    ('0' as u8) <= c <= ('9' as u8)
}

/// The bytes that structure the grammar at an argument position.
pub open spec fn is_special(c: u8) -> bool {
    c == ('(' as u8) || c == (')' as u8) || c == (',' as u8) || c == (':' as u8)
}

/// Result of one parsing step: the value and the position after it, or
/// how the step failed.  Running out of input is `Incomplete`; input that
/// breaks the grammar is `Fail`.
pub enum Parsed<T> {
    Found(T, int),
    Incomplete,
    Fail,
}

/// Position of the first `(` at or after `pos`.
pub open spec fn find_lparen(s: Seq<u8>, pos: int) -> Option<int>
    decreases s.len() - pos,
{
    if !(0 <= pos < s.len()) {
        None
    } else if s[pos] == ('(' as u8) {
        Some(pos)
    } else {
        find_lparen(s, pos + 1)
    }
}

/// Position of the first non-digit at or after `pos`.
pub open spec fn digits_end(s: Seq<u8>, pos: int) -> int
    decreases s.len() - pos,
{
    if 0 <= pos < s.len() && is_digit(s[pos]) {
        digits_end(s, pos + 1)
    } else {
        pos
    }
}

/// Numeric value of the digit run `s[from..to]`.
pub open spec fn digits_val(s: Seq<u8>, from: int, to: int) -> nat
    decreases to - from,
{
    if from < 0 || to <= from || to > s.len() {
        0
    } else {
        (digits_val(s, from, to - 1) * 10 + (s[to - 1] - ('0' as u8))) as nat
    }
}

/// Where a raw string argument that starts at `pos` with open-parenthesis
/// depth `depth` ends: the first `,` or `)` at depth zero.  `None` when
/// the input ends first.
pub open spec fn string_end(s: Seq<u8>, pos: int, depth: int) -> Option<int>
    decreases s.len() - pos,
{
    if !(0 <= pos < s.len()) {
        None
    } else if s[pos] == (',' as u8) && depth == 0 {
        Some(pos)
    } else if s[pos] == (')' as u8) && depth == 0 {
        Some(pos)
    } else if s[pos] == ('(' as u8) {
        string_end(s, pos + 1, depth + 1)
    } else if s[pos] == (')' as u8) {
        string_end(s, pos + 1, depth - 1)
    } else {
        string_end(s, pos + 1, depth)
    }
}

/// Whether the argument at `pos` is a nested call: the next grammar byte
/// is `(` rather than `)`, `,` or `:`.
pub open spec fn decision_is_filter(s: Seq<u8>, pos: int) -> bool
    decreases s.len() - pos,
{
    if !(0 <= pos < s.len()) {
        false
    } else if s[pos] == ('(' as u8) {
        true
    } else if is_special(s[pos]) {
        false
    } else {
        decision_is_filter(s, pos + 1)
    }
}

/// An integer literal at `pos`: an optional minus sign, then digits.
/// Yields the mathematical value and the position after the digits.
pub open spec fn try_int(s: Seq<u8>, pos: int) -> Option<(int, int)> {
    if pos < 0 {
        None
    } else {
        let neg = pos < s.len() && s[pos] == ('-' as u8);
        let p1 = if neg {
            pos + 1
        } else {
            pos
        };
        let e = digits_end(s, p1);
        if e == p1 {
            None
        } else if neg {
            Some((-(digits_val(s, p1, e) as int), e))
        } else {
            Some((digits_val(s, p1, e) as int, e))
        }
    }
}

/// A fractional literal at `pos`: an optional sign, then either digits
/// followed by `.` and optional digits, or `.` followed by digits.
/// Yields the mathematical mantissa, the number of fractional digits,
/// and the position after the literal.
pub open spec fn try_float(s: Seq<u8>, pos: int) -> Option<(int, nat, int)> {
    if pos < 0 {
        None
    } else {
        let signed = pos < s.len() && (s[pos] == ('-' as u8) || s[pos] == ('+' as u8));
        let neg = pos < s.len() && s[pos] == ('-' as u8);
        let p1 = if signed {
            pos + 1
        } else {
            pos
        };
        let d1e = digits_end(s, p1);
        if !(d1e < s.len() && s[d1e] == ('.' as u8)) {
            None
        } else if d1e == p1 && !(d1e + 1 < s.len() && is_digit(s[d1e + 1])) {
            None
        } else {
            let d2e = digits_end(s, d1e + 1);
            let scale = (d2e - (d1e + 1)) as nat;
            let m = (digits_val(s, p1, d1e) * pow10(scale) + digits_val(s, d1e + 1, d2e)) as int;
            if neg {
                Some((-m, scale, d2e))
            } else {
                Some((m, scale, d2e))
            }
        }
    }
}

/// The longest unit token at `pos`, tried in the grammar's order; the
/// empty token is always last.
pub open spec fn unit_end(s: Seq<u8>, pos: int) -> (SizeUnit, int) {
    if pos < 0 || pos > s.len() {
        (SizeUnit::NoUnit, pos)
    } else if pos + 2 <= s.len() && s[pos] == ('p' as u8) && s[pos + 1] == ('x' as u8) {
        (SizeUnit::Px, pos + 2)
    } else if pos + 3 <= s.len() && s[pos] == ('h' as u8) && s[pos + 1] == ('c' as u8) && s[pos
        + 2] == ('m' as u8) {
        (SizeUnit::HorizontalCentimeters, pos + 3)
    } else if pos + 3 <= s.len() && s[pos] == ('v' as u8) && s[pos + 1] == ('c' as u8) && s[pos
        + 2] == ('m' as u8) {
        (SizeUnit::VerticalCentimeters, pos + 3)
    } else if pos + 3 <= s.len() && s[pos] == ('h' as u8) && s[pos + 1] == ('i' as u8) && s[pos
        + 2] == ('n' as u8) {
        (SizeUnit::HorizontalInches, pos + 3)
    } else if pos + 3 <= s.len() && s[pos] == ('v' as u8) && s[pos + 1] == ('i' as u8) && s[pos
        + 2] == ('n' as u8) {
        (SizeUnit::VerticalInches, pos + 3)
    } else if pos + 1 <= s.len() && s[pos] == ('w' as u8) {
        (SizeUnit::Width, pos + 1)
    } else if pos + 1 <= s.len() && s[pos] == ('h' as u8) {
        (SizeUnit::Height, pos + 1)
    } else {
        (SizeUnit::NoUnit, pos)
    }
}

/// Largest magnitude a parsed number may carry.
pub open spec fn int_in_range(v: int) -> bool {
    -(i64::MAX as int) <= v <= i64::MAX as int
}

/// One argument at `pos`: a float, else an integer, else a nested call
/// or a raw string.  A number out of range, a fractional part past
/// eighteen digits, an empty string before `)`, or an unterminated
/// string all break the grammar.
pub open spec fn spec_parse_arg(s: Seq<u8>, pos: int) -> Parsed<ArgView>
    decreases s.len() - pos, 2int,
{
    match try_float(s, pos) {
        Some((m, scale, e)) => {
            if !int_in_range(m) || scale > 18 {
                Parsed::Fail
            } else {
                let (u, ue) = unit_end(s, e);
                Parsed::Found(
                    ArgView::Float(Decimal { mantissa: m as i64, scale: scale as u32 }, u),
                    ue,
                )
            }
        }
        None => match try_int(s, pos) {
            Some((v, e)) => {
                if !int_in_range(v) {
                    Parsed::Fail
                } else {
                    let (u, ue) = unit_end(s, e);
                    Parsed::Found(ArgView::Int(v as i64, u), ue)
                }
            }
            None => {
                if decision_is_filter(s, pos) {
                    match spec_parse_chain(s, pos) {
                        Parsed::Found(f, p) => Parsed::Found(ArgView::Img(f), p),
                        Parsed::Incomplete => Parsed::Incomplete,
                        Parsed::Fail => Parsed::Fail,
                    }
                } else {
                    match string_end(s, pos, 0) {
                        Some(e) => {
                            if e == pos && s[e] == (')' as u8) {
                                Parsed::Fail
                            } else {
                                Parsed::Found(ArgView::Str(s.subrange(pos, e)), e)
                            }
                        }
                        None => Parsed::Fail,
                    }
                }
            }
        },
    }
}

/// The argument list after a `(`: empty if `)` comes at once, else one
/// or more arguments separated by `,`, closed by `)`.
pub open spec fn spec_parse_args(s: Seq<u8>, pos: int) -> Parsed<Seq<ArgView>>
    decreases s.len() - pos, 4int,
{
    if !(0 <= pos < s.len()) {
        Parsed::Incomplete
    } else if s[pos] == (')' as u8) {
        Parsed::Found(Seq::empty(), pos + 1)
    } else {
        spec_parse_args_more(s, pos)
    }
}

/// A non-empty argument list: an argument, then `,` and more arguments
/// or the closing `)`.
pub open spec fn spec_parse_args_more(s: Seq<u8>, pos: int) -> Parsed<Seq<ArgView>>
    decreases s.len() - pos, 3int,
{
    match spec_parse_arg(s, pos) {
        Parsed::Incomplete => Parsed::Incomplete,
        Parsed::Fail => Parsed::Fail,
        Parsed::Found(a, p) => {
            if p < pos {
                Parsed::Fail
            } else if !(0 <= p < s.len()) {
                Parsed::Incomplete
            } else if s[p] == (',' as u8) {
                match spec_parse_args_more(s, p + 1) {
                    Parsed::Found(rest, q) => Parsed::Found(seq![a] + rest, q),
                    Parsed::Incomplete => Parsed::Incomplete,
                    Parsed::Fail => Parsed::Fail,
                }
            } else if s[p] == (')' as u8) {
                Parsed::Found(seq![a], p + 1)
            } else {
                Parsed::Fail
            }
        }
    }
}

/// One call: a name (every byte up to the next `(`), then its argument
/// list.  Input without a `(` is incomplete.
pub open spec fn spec_parse_one(s: Seq<u8>, pos: int) -> Parsed<FilterView>
    decreases s.len() - pos, 0int,
{
    match find_lparen(s, pos) {
        None => Parsed::Incomplete,
        Some(np) => {
            if np < pos || np >= s.len() {
                Parsed::Fail
            } else {
                match spec_parse_args(s, np + 1) {
                    Parsed::Found(args, p) => Parsed::Found(
                        FilterView { name: s.subrange(pos, np), args },
                        p,
                    ),
                    Parsed::Incomplete => Parsed::Incomplete,
                    Parsed::Fail => Parsed::Fail,
                }
            }
        }
    }
}

/// Position after a run of non-`/` bytes.
pub open spec fn skip_non_slash(s: Seq<u8>, pos: int) -> int
    decreases s.len() - pos,
{
    if 0 <= pos < s.len() && s[pos] != ('/' as u8) {
        skip_non_slash(s, pos + 1)
    } else {
        pos
    }
}

/// A chain of calls separated by `:`, nested left into right, then an
/// optional ignored `/tail` of one path segment.
pub open spec fn spec_parse_chain(s: Seq<u8>, pos: int) -> Parsed<FilterView>
    decreases s.len() - pos, 1int,
{
    match spec_parse_one(s, pos) {
        Parsed::Found(f, p) => {
            if p <= pos || p > s.len() {
                Parsed::Fail
            } else {
                spec_parse_chain_rest(s, p, f)
            }
        }
        Parsed::Incomplete => Parsed::Incomplete,
        Parsed::Fail => Parsed::Fail,
    }
}

/// The `:`-continuations of a chain, and the optional trailing segment.
pub open spec fn spec_parse_chain_rest(s: Seq<u8>, pos: int, cur: FilterView) -> Parsed<
    FilterView,
>
    decreases s.len() - pos, 1int,
{
    if 0 <= pos < s.len() && s[pos] == (':' as u8) {
        match spec_parse_one(s, pos + 1) {
            Parsed::Found(f2, p2) => {
                if p2 <= pos || p2 > s.len() {
                    Parsed::Fail
                } else {
                    spec_parse_chain_rest(
                        s,
                        p2,
                        FilterView { name: f2.name, args: seq![ArgView::Img(cur)] + f2.args },
                    )
                }
            }
            Parsed::Incomplete => Parsed::Incomplete,
            Parsed::Fail => Parsed::Fail,
        }
    } else if 0 <= pos < s.len() && s[pos] == ('/' as u8) && pos + 1 < s.len() && s[pos + 1] != (
    '/' as u8) {
        Parsed::Found(cur, skip_non_slash(s, pos + 1))
    } else {
        Parsed::Found(cur, pos)
    }
}

/// The whole pipeline: the chain must consume the input exactly.
pub open spec fn spec_parse_pipeline(s: Seq<u8>) -> Result<FilterView, UrlErrorView> {
    match spec_parse_chain(s, 0) {
        Parsed::Found(f, p) => {
            if p == s.len() {
                Ok(f)
            } else {
                Err(UrlErrorView::RemainingData(s.subrange(p, s.len() as int)))
            }
        }
        Parsed::Incomplete => Err(UrlErrorView::IncompleteUrl),
        Parsed::Fail => Err(UrlErrorView::ParseError(crate::error::spec_lit("malformed pipeline"))),
    }
}

/// How one executable parsing step failed.
#[derive(Debug, Clone, Copy, PartialEq, Eq, Structural)]
pub enum PFail {
    Incomplete,
    Fail,
}

fn find_lparen_x(s: &[u8], pos: usize) -> (r: Option<usize>)
    requires
        pos <= s@.len(),
    ensures
        match r {
            Some(np) => find_lparen(s@, pos as int) == Some(np as int) && pos <= np < s@.len(),
            None => find_lparen(s@, pos as int) is None,
        },
{
    let mut i: usize = pos;
    while i < s.len()
        invariant
            pos <= i <= s@.len(),
            find_lparen(s@, pos as int) == find_lparen(s@, i as int),
        decreases s@.len() - i,
    {
        if s[i] == '(' as u8 {
            return Some(i);
        }
        i += 1;
    }
    None
}

pub(crate) fn scan_digits(s: &[u8], pos: usize) -> (r: usize)
    requires
        pos <= s@.len(),
    ensures
        r == digits_end(s@, pos as int),
        pos <= r <= s@.len(),
        forall|j: int| pos <= j < r ==> is_digit(s@[j]),
{
    let mut i: usize = pos;
    while i < s.len() && s[i] >= '0' as u8 && s[i] <= '9' as u8
        invariant
            pos <= i <= s@.len(),
            digits_end(s@, pos as int) == digits_end(s@, i as int),
            forall|j: int| pos <= j < i ==> is_digit(s@[j]),
        decreases s@.len() - i,
    {
        i += 1;
    }
    i
}

/// A longer digit run never has a smaller value.
pub(crate) proof fn lemma_digits_val_mono(s: Seq<u8>, from: int, a: int, b: int)
    requires
        from <= a <= b,
        b <= s.len(),
        forall|j: int| from <= j < b ==> is_digit(s[j]),
    ensures
        digits_val(s, from, a) <= digits_val(s, from, b),
    decreases b - a,
{
    if a < b {
        lemma_digits_val_mono(s, from, a, b - 1);
    }
}

/// Value of the digit run from `from` to `to`, unless it leaves the
/// mantissa range.
pub(crate) fn digits_value_checked(s: &[u8], from: usize, to: usize) -> (r: Option<u64>)
    requires
        from <= to <= s@.len(),
        forall|j: int| from <= j < to ==> is_digit(s@[j]),
    ensures
        match r {
            Some(v) => v == digits_val(s@, from as int, to as int) && v <= i64::MAX,
            None => digits_val(s@, from as int, to as int) > i64::MAX,
        },
{
    let mut acc: u64 = 0;
    let mut i: usize = from;
    while i < to
        invariant
            from <= i <= to <= s@.len(),
            forall|j: int| from <= j < to ==> is_digit(s@[j]),
            acc == digits_val(s@, from as int, i as int),
            acc <= i64::MAX,
        decreases to - i,
    {
        let d: u128 = (acc as u128) * 10 + ((s[i] - '0' as u8) as u128);
        if d > i64::MAX as u128 {
            proof {
                lemma_digits_val_mono(s@, from as int, i + 1, to as int);
            }
            return None;
        }
        acc = d as u64;
        i += 1;
    }
    Some(acc)
}

fn unit_end_x(s: &[u8], pos: usize) -> (r: (SizeUnit, usize))
    requires
        pos <= s@.len(),
    ensures
        (r.0, r.1 as int) == unit_end(s@, pos as int),
        pos <= r.1 <= s@.len(),
{
    let rem = s.len() - pos;
    if rem >= 2 && s[pos] == 'p' as u8 && s[pos + 1] == 'x' as u8 {
        (SizeUnit::Px, pos + 2)
    } else if rem >= 3 && s[pos] == 'h' as u8 && s[pos + 1] == 'c' as u8 && s[pos + 2] == 'm'
        as u8 {
        (SizeUnit::HorizontalCentimeters, pos + 3)
    } else if rem >= 3 && s[pos] == 'v' as u8 && s[pos + 1] == 'c' as u8 && s[pos + 2] == 'm'
        as u8 {
        (SizeUnit::VerticalCentimeters, pos + 3)
    } else if rem >= 3 && s[pos] == 'h' as u8 && s[pos + 1] == 'i' as u8 && s[pos + 2] == 'n'
        as u8 {
        (SizeUnit::HorizontalInches, pos + 3)
    } else if rem >= 3 && s[pos] == 'v' as u8 && s[pos + 1] == 'i' as u8 && s[pos + 2] == 'n'
        as u8 {
        (SizeUnit::VerticalInches, pos + 3)
    } else if rem >= 1 && s[pos] == 'w' as u8 {
        (SizeUnit::Width, pos + 1)
    } else if rem >= 1 && s[pos] == 'h' as u8 {
        (SizeUnit::Height, pos + 1)
    } else {
        (SizeUnit::NoUnit, pos)
    }
}

/// Reads an integer literal if one starts at `pos`; `Err` when its value
/// leaves the mantissa range.
fn try_int_x(s: &[u8], pos: usize) -> (r: Result<Option<(i64, usize)>, PFail>)
    requires
        pos <= s@.len(),
    ensures
        match (r, try_int(s@, pos as int)) {
            (Ok(Some((v, e))), Some((sv, se))) => v == sv && e == se && int_in_range(sv) && pos
                <= e <= s@.len(),
            (Ok(None), None) => true,
            (Err(f), Some((sv, _))) => f == PFail::Fail && !int_in_range(sv),
            _ => false,
        },
{
    let neg = pos < s.len() && s[pos] == '-' as u8;
    let p1 = if neg {
        pos + 1
    } else {
        pos
    };
    let e = scan_digits(s, p1);
    if e == p1 {
        return Ok(None);
    }
    match digits_value_checked(s, p1, e) {
        Some(v) => {
            if neg {
                Ok(Some((-(v as i64), e)))
            } else {
                Ok(Some((v as i64, e)))
            }
        }
        None => Err(PFail::Fail),
    }
}

/// Reads a fractional literal if one starts at `pos`; `Err` when the
/// mantissa or the fractional width leaves range.
fn try_float_x(s: &[u8], pos: usize) -> (r: Result<Option<(i64, u32, usize)>, PFail>)
    requires
        pos <= s@.len(),
    ensures
        match (r, try_float(s@, pos as int)) {
            (Ok(Some((m, sc, e))), Some((sm, ssc, se))) => m == sm && sc == ssc && e == se
                && int_in_range(sm) && ssc <= 18 && pos <= e <= s@.len(),
            (Ok(None), None) => true,
            (Err(f), Some((sm, ssc, _))) => f == PFail::Fail && (!int_in_range(sm) || ssc > 18),
            _ => false,
        },
{
    let signed = pos < s.len() && (s[pos] == '-' as u8 || s[pos] == '+' as u8);
    let neg = pos < s.len() && s[pos] == '-' as u8;
    let p1 = if signed {
        pos + 1
    } else {
        pos
    };
    let d1e = scan_digits(s, p1);
    if !(d1e < s.len() && s[d1e] == '.' as u8) {
        return Ok(None);
    }
    if d1e == p1 && !(d1e + 1 < s.len() && s[d1e + 1] >= '0' as u8 && s[d1e + 1] <= '9' as u8) {
        return Ok(None);
    }
    let d2e = scan_digits(s, d1e + 1);
    let scale = d2e - (d1e + 1);
    if scale > 18 {
        return Err(PFail::Fail);
    }
    let intval = match digits_value_checked(s, p1, d1e) {
        Some(v) => v,
        None => {
            proof {
                lemma_intpart_overflow(s@, p1 as int, d1e as int, d2e as int);
            }
            return Err(PFail::Fail);
        }
    };
    let fracval = match digits_value_checked(s, d1e + 1, d2e) {
        Some(v) => v,
        None => {
            return Err(PFail::Fail);
        }
    };
    let p = pow10_u128_small(scale as u32);
    proof {
        crate::filter::lemma_pow10_increases(scale as nat, 18);
        lemma_pow10_18_bound();
        assert((intval as int) * (p as int) <= 0x7fff_ffff_ffff_ffffint
            * 1_000_000_000_000_000_000int) by (nonlinear_arith)
            requires
                0 <= intval as int <= 0x7fff_ffff_ffff_ffffint,
                0 <= p as int <= 1_000_000_000_000_000_000int,
        ;
        assert((intval as int) * (p as int) >= 0) by (nonlinear_arith)
            requires
                0 <= intval as int,
                0 <= p as int,
        ;
    }
    let m: u128 = (intval as u128) * p + (fracval as u128);
    if m > i64::MAX as u128 {
        return Err(PFail::Fail);
    }
    if neg {
        Ok(Some((-(m as i64), scale as u32, d2e)))
    } else {
        Ok(Some((m as i64, scale as u32, d2e)))
    }
}

/// When the digits before the point overflow, the whole mantissa does.
proof fn lemma_intpart_overflow(s: Seq<u8>, p1: int, d1e: int, d2e: int)
    requires
        digits_val(s, p1, d1e) > i64::MAX,
        d1e + 1 <= d2e,
    ensures
        digits_val(s, p1, d1e) * pow10((d2e - (d1e + 1)) as nat) + digits_val(s, d1e + 1, d2e)
            > i64::MAX,
{
    let sc = (d2e - (d1e + 1)) as nat;
    crate::filter::lemma_pow10_positive(sc);
    assert(digits_val(s, p1, d1e) * pow10(sc) >= digits_val(s, p1, d1e)) by (nonlinear_arith)
        requires
            pow10(sc) >= 1,
            digits_val(s, p1, d1e) >= 0,
    ;
}

/// 10^18 in full, for bounding parsed mantissas.
pub(crate) proof fn lemma_pow10_18_bound()
    ensures
        pow10(18) == 1_000_000_000_000_000_000,
{
    reveal_with_fuel(pow10, 19);
}

/// 10^e for the small exponents a fractional width can take.
pub(crate) fn pow10_u128_small(e: u32) -> (r: u128)
    requires
        e <= 18,
    ensures
        r == pow10(e as nat),
        r >= 1,
{
    proof {
        crate::filter::lemma_pow10_increases(e as nat, 18);
        lemma_pow10_18_bound();
        crate::filter::lemma_pow10_positive(e as nat);
    }
    let mut r: u128 = 1;
    let mut i: u32 = 0;
    while i < e
        invariant
            i <= e,
            e <= 18,
            r == pow10(i as nat),
        decreases e - i,
    {
        proof {
            crate::filter::lemma_pow10_increases((i + 1) as nat, 18);
            lemma_pow10_18_bound();
        }
        r = r * 10;
        i += 1;
    }
    r
}

fn string_end_x(s: &[u8], pos: usize) -> (r: Option<usize>)
    requires
        pos <= s@.len(),
    ensures
        match r {
            Some(e) => string_end(s@, pos as int, 0) == Some(e as int) && pos <= e < s@.len(),
            None => string_end(s@, pos as int, 0) is None,
        },
{
    let mut i: usize = pos;
    let mut depth: u128 = 0;
    while i < s.len()
        invariant
            pos <= i <= s@.len(),
            depth <= i - pos,
            string_end(s@, pos as int, 0) == string_end(s@, i as int, depth as int),
        decreases s@.len() - i,
    {
        let c = s[i];
        if c == ',' as u8 && depth == 0 {
            return Some(i);
        } else if c == ')' as u8 && depth == 0 {
            return Some(i);
        } else if c == '(' as u8 {
            depth += 1;
        } else if c == ')' as u8 {
            depth -= 1;
        }
        i += 1;
    }
    None
}

fn decision_x(s: &[u8], pos: usize) -> (r: bool)
    requires
        pos <= s@.len(),
    ensures
        r == decision_is_filter(s@, pos as int),
{
    let mut i: usize = pos;
    while i < s.len()
        invariant
            pos <= i <= s@.len(),
            decision_is_filter(s@, pos as int) == decision_is_filter(s@, i as int),
        decreases s@.len() - i,
    {
        let c = s[i];
        if c == '(' as u8 {
            return true;
        }
        if c == ')' as u8 || c == ',' as u8 || c == ':' as u8 {
            return false;
        }
        i += 1;
    }
    false
}

fn skip_non_slash_x(s: &[u8], pos: usize) -> (r: usize)
    requires
        pos <= s@.len(),
    ensures
        r == skip_non_slash(s@, pos as int),
        pos <= r <= s@.len(),
{
    let mut i: usize = pos;
    while i < s.len() && s[i] != '/' as u8
        invariant
            pos <= i <= s@.len(),
            skip_non_slash(s@, pos as int) == skip_non_slash(s@, i as int),
        decreases s@.len() - i,
    {
        i += 1;
    }
    i
}

/// Moves the earlier chain link in front of the later call's arguments.
fn prepend_img(cur: Filter, f2: Filter) -> (r: Filter)
    ensures
        r@ == (FilterView { name: f2@.name, args: seq![ArgView::Img(cur@)] + f2@.args }),
{
    let ghost old_f2 = f2;
    let ghost old_cur = cur;
    let mut f2 = f2;
    f2.args.insert(0, FilterArg::Img(cur));
    proof {
        crate::filter::lemma_filter_view(old_f2);
        crate::filter::lemma_filter_view(f2);
        assert(f2@.args =~= seq![ArgView::Img(old_cur@)] + old_f2@.args);
        assert(f2@ =~= (FilterView {
            name: old_f2@.name,
            args: seq![ArgView::Img(old_cur@)] + old_f2@.args,
        }));
    }
    f2
}

fn parse_arg_x(s: &[u8], pos: usize) -> (r: Result<(FilterArg, usize), PFail>)
    requires
        pos <= s@.len(),
    ensures
        match (r, spec_parse_arg(s@, pos as int)) {
            (Ok((a, p)), Parsed::Found(av, pp)) => a@ == av && p == pp && pos <= p <= s@.len(),
            (Err(PFail::Incomplete), Parsed::Incomplete) => true,
            (Err(PFail::Fail), Parsed::Fail) => true,
            _ => false,
        },
    decreases s@.len() - pos, 2int,
{
    match try_float_x(s, pos) {
        Err(f) => {
            return Err(f);
        }
        Ok(Some((m, sc, e))) => {
            let (u, ue) = unit_end_x(s, e);
            return Ok((FilterArg::Float(Decimal { mantissa: m, scale: sc }, u), ue));
        }
        Ok(None) => {}
    }
    match try_int_x(s, pos) {
        Err(f) => {
            return Err(f);
        }
        Ok(Some((v, e))) => {
            let (u, ue) = unit_end_x(s, e);
            return Ok((FilterArg::Int(v, u), ue));
        }
        Ok(None) => {}
    }
    if decision_x(s, pos) {
        match parse_chain_x(s, pos) {
            Ok((f, p)) => Ok((FilterArg::Img(f), p)),
            Err(e) => Err(e),
        }
    } else {
        match string_end_x(s, pos) {
            Some(e) => {
                if e == pos && s[e] == ')' as u8 {
                    Err(PFail::Fail)
                } else {
                    let sub = crate::text::copy_range(s, pos, e);
                    Ok((FilterArg::Str(sub), e))
                }
            }
            None => Err(PFail::Fail),
        }
    }
}

fn parse_args_more_x(s: &[u8], pos: usize) -> (r: Result<(Vec<FilterArg>, usize), PFail>)
    requires
        pos <= s@.len(),
    ensures
        match (r, spec_parse_args_more(s@, pos as int)) {
            (Ok((v, p)), Parsed::Found(av, pp)) => v@.map_values(|x: FilterArg| x@) == av && p
                == pp && pos + 1 <= p <= s@.len(),
            (Err(PFail::Incomplete), Parsed::Incomplete) => true,
            (Err(PFail::Fail), Parsed::Fail) => true,
            _ => false,
        },
    decreases s@.len() - pos, 3int,
{
    let (a, p) = match parse_arg_x(s, pos) {
        Ok(ap) => ap,
        Err(e) => {
            return Err(e);
        }
    };
    if p >= s.len() {
        return Err(PFail::Incomplete);
    }
    if s[p] == ',' as u8 {
        match parse_args_more_x(s, p + 1) {
            Ok((rest, q)) => {
                let ghost rest0 = rest;
                let mut rest = rest;
                rest.insert(0, a);
                proof {
                    assert(rest@.map_values(|x: FilterArg| x@) =~= seq![a@] + rest0@.map_values(
                        |x: FilterArg| x@,
                    ));
                }
                Ok((rest, q))
            }
            Err(e) => Err(e),
        }
    } else if s[p] == ')' as u8 {
        let mut v: Vec<FilterArg> = Vec::new();
        v.push(a);
        proof {
            assert(v@.map_values(|x: FilterArg| x@) =~= seq![a@]);
        }
        Ok((v, p + 1))
    } else {
        Err(PFail::Fail)
    }
}

fn parse_args_x(s: &[u8], pos: usize) -> (r: Result<(Vec<FilterArg>, usize), PFail>)
    requires
        pos <= s@.len(),
    ensures
        match (r, spec_parse_args(s@, pos as int)) {
            (Ok((v, p)), Parsed::Found(av, pp)) => v@.map_values(|x: FilterArg| x@) == av && p
                == pp && pos + 1 <= p <= s@.len(),
            (Err(PFail::Incomplete), Parsed::Incomplete) => true,
            (Err(PFail::Fail), Parsed::Fail) => true,
            _ => false,
        },
    decreases s@.len() - pos, 4int,
{
    if pos >= s.len() {
        return Err(PFail::Incomplete);
    }
    if s[pos] == ')' as u8 {
        let v: Vec<FilterArg> = Vec::new();
        proof {
            assert(v@.map_values(|x: FilterArg| x@) =~= Seq::<ArgView>::empty());
        }
        return Ok((v, pos + 1));
    }
    parse_args_more_x(s, pos)
}

fn parse_one_x(s: &[u8], pos: usize) -> (r: Result<(Filter, usize), PFail>)
    requires
        pos <= s@.len(),
    ensures
        match (r, spec_parse_one(s@, pos as int)) {
            (Ok((f, p)), Parsed::Found(fv, pp)) => f@ == fv && p == pp && pos + 2 <= p
                <= s@.len(),
            (Err(PFail::Incomplete), Parsed::Incomplete) => true,
            (Err(PFail::Fail), Parsed::Fail) => true,
            _ => false,
        },
    decreases s@.len() - pos, 0int,
{
    let n = s.len();
    let np = match find_lparen_x(s, pos) {
        Some(np) => np,
        None => {
            return Err(PFail::Incomplete);
        }
    };
    proof {
        assert(np < n);
    }
    let name = crate::text::copy_range(s, pos, np);
    match parse_args_x(s, np + 1) {
        Ok((args, p)) => {
            let f = Filter { name, args };
            proof {
                crate::filter::lemma_filter_view(f);
                assert(f@.args =~= f.args@.map_values(|x: FilterArg| x@));
                let sp = spec_parse_one(s@, pos as int);
                assert(sp matches Parsed::Found(fv, pp) && f@ =~= fv && p == pp);
            }
            Ok((f, p))
        }
        Err(e) => Err(e),
    }
}

fn parse_chain_rest_x(s: &[u8], pos: usize, cur: Filter) -> (r: Result<(Filter, usize), PFail>)
    requires
        pos <= s@.len(),
    ensures
        match (r, spec_parse_chain_rest(s@, pos as int, cur@)) {
            (Ok((f, p)), Parsed::Found(fv, pp)) => f@ == fv && p == pp && pos <= p <= s@.len(),
            (Err(PFail::Incomplete), Parsed::Incomplete) => true,
            (Err(PFail::Fail), Parsed::Fail) => true,
            _ => false,
        },
    decreases s@.len() - pos, 1int,
{
    if pos < s.len() && s[pos] == ':' as u8 {
        match parse_one_x(s, pos + 1) {
            Ok((f2, p2)) => {
                let next = prepend_img(cur, f2);
                parse_chain_rest_x(s, p2, next)
            }
            Err(e) => Err(e),
        }
    } else if pos < s.len() && s[pos] == '/' as u8 && pos + 1 < s.len() && s[pos + 1] != '/'
        as u8 {
        let e = skip_non_slash_x(s, pos + 1);
        Ok((cur, e))
    } else {
        Ok((cur, pos))
    }
}

fn parse_chain_x(s: &[u8], pos: usize) -> (r: Result<(Filter, usize), PFail>)
    requires
        pos <= s@.len(),
    ensures
        match (r, spec_parse_chain(s@, pos as int)) {
            (Ok((f, p)), Parsed::Found(fv, pp)) => f@ == fv && p == pp && pos + 2 <= p
                <= s@.len(),
            (Err(PFail::Incomplete), Parsed::Incomplete) => true,
            (Err(PFail::Fail), Parsed::Fail) => true,
            _ => false,
        },
    decreases s@.len() - pos, 1int,
{
    match parse_one_x(s, pos) {
        Ok((f, p)) => parse_chain_rest_x(s, p, f),
        Err(e) => Err(e),
    }
}

/// Parses a whole pipeline, which must span the input exactly (up to one
/// ignored trailing path segment).
pub fn parse(input: &[u8]) -> (r: Result<Filter, UrlParseError>)
    ensures
        match (r, spec_parse_pipeline(input@)) {
            (Ok(f), Ok(fv)) => f@ == fv,
            (Err(e), Err(ev)) => e@ == ev,
            _ => false,
        },
{
    match parse_chain_x(input, 0) {
        Ok((f, p)) => {
            if p == input.len() {
                Ok(f)
            } else {
                Err(UrlParseError::RemainingData(crate::text::copy_range(input, p, input.len())))
            }
        }
        Err(PFail::Incomplete) => Err(UrlParseError::IncompleteUrl),
        Err(PFail::Fail) => {
            let mut reason: Vec<u8> = Vec::new();
            crate::error::push_lit(&mut reason, "malformed pipeline");
            Err(UrlParseError::ParseError(reason))
        }
    }
}

/// The last `w` decimal digits of `v`, zero-padded to exactly `w`.
pub open spec fn spec_padded(v: nat, w: nat) -> Seq<u8>
    decreases w,
{
    if w == 0 {
        Seq::empty()
    } else {
        spec_padded(v / 10, (w - 1) as nat) + seq![((v % 10) + ('0' as u8)) as u8]
    }
}

/// Canonical text of a fractional value: optional sign, the whole part,
/// a point, then exactly `scale` fractional digits.
pub open spec fn spec_render_decimal(d: Decimal) -> Seq<u8> {
    let mag = if d.mantissa < 0 {
        (-(d.mantissa as int)) as nat
    } else {
        d.mantissa as nat
    };
    let sign: Seq<u8> = if d.mantissa < 0 {
        seq!['-' as u8]
    } else {
        Seq::empty()
    };
    sign + spec_digits(mag / pow10(d.scale as nat)) + seq!['.' as u8] + spec_padded(
        mag,
        d.scale as nat,
    )
}

/// Canonical text of one argument.  A resolved image has no text form;
/// trees holding one are never rendered.
pub open spec fn spec_render_arg(a: ArgView) -> Seq<u8>
    decreases a,
{
    match a {
        ArgView::Int(v, u) => spec_int_bytes(v as int) + spec_unit_token(u),
        ArgView::Float(d, u) => spec_render_decimal(d) + spec_unit_token(u),
        ArgView::Str(t) => t,
        ArgView::Img(fv) => spec_render_filter(fv),
        ArgView::Resolved(_) => Seq::empty(),
    }
}

/// Canonical text of the arguments from `i` on, comma-separated.
pub open spec fn spec_render_args(fv: FilterView, i: int) -> Seq<u8>
    decreases fv, fv.args.len() - i,
{
    if i < 0 || i >= fv.args.len() {
        Seq::empty()
    } else if i + 1 < fv.args.len() {
        spec_render_arg(fv.args[i]) + seq![',' as u8] + spec_render_args(fv, i + 1)
    } else {
        spec_render_arg(fv.args[i])
    }
}

/// Canonical text of a tree: always the nested `name(arg,...)` form,
/// never a `:` chain.
pub open spec fn spec_render_filter(fv: FilterView) -> Seq<u8>
    decreases fv,
{
    fv.name + seq!['(' as u8] + spec_render_args(fv, 0) + seq![')' as u8]
}

/// Renders the last `w` digits of `v`, zero-padded.
fn padded_digits(v: u64, w: u32) -> (r: Vec<u8>)
    ensures
        r@ == spec_padded(v as nat, w as nat),
    decreases w,
{
    if w == 0 {
        let r: Vec<u8> = Vec::new();
        proof {
            assert(r@ =~= spec_padded(v as nat, 0));
        }
        r
    } else {
        let mut r = padded_digits(v / 10, w - 1);
        r.push(((v % 10) as u8) + '0' as u8);
        proof {
            assert(r@ =~= spec_padded(v as nat, w as nat));
        }
        r
    }
}

/// Renders a fractional value canonically.
pub fn render_decimal(d: &Decimal) -> (r: Vec<u8>)
    ensures
        r@ == spec_render_decimal(*d),
{
    let mut out: Vec<u8> = Vec::new();
    let mag: u64 = if d.mantissa < 0 {
        out.push('-' as u8);
        (-(d.mantissa as i128)) as u64
    } else {
        d.mantissa as u64
    };
    let whole = crate::filter::div_pow10(mag, d.scale);
    let ds = crate::text::u64_to_bytes(whole);
    crate::text::push_bytes(&mut out, ds.as_slice());
    out.push('.' as u8);
    let frac = padded_digits(mag, d.scale);
    crate::text::push_bytes(&mut out, frac.as_slice());
    proof {
        assert(out@ =~= spec_render_decimal(*d));
    }
    out
}

/// Appends a unit's token.
fn push_unit(out: &mut Vec<u8>, u: &SizeUnit)
    ensures
        final(out)@ == old(out)@ + spec_unit_token(*u),
{
    let token: &[u8] = match u {
        SizeUnit::NoUnit => &[],
        SizeUnit::Px => &['p' as u8, 'x' as u8],
        SizeUnit::Width => &['w' as u8],
        SizeUnit::Height => &['h' as u8],
        SizeUnit::HorizontalCentimeters => &['h' as u8, 'c' as u8, 'm' as u8],
        SizeUnit::VerticalCentimeters => &['v' as u8, 'c' as u8, 'm' as u8],
        SizeUnit::HorizontalInches => &['h' as u8, 'i' as u8, 'n' as u8],
        SizeUnit::VerticalInches => &['v' as u8, 'i' as u8, 'n' as u8],
    };
    proof {
        assert(token@ =~= spec_unit_token(*u));
    }
    crate::text::push_bytes(out, token);
}

/// Renders one argument canonically.
pub fn render_arg(a: &FilterArg) -> (r: Vec<u8>)
    ensures
        r@ == spec_render_arg(a@),
    decreases *a, 1int,
{
    match a {
        FilterArg::Int(v, u) => {
            let mut out = crate::text::i64_to_bytes(*v);
            push_unit(&mut out, u);
            out
        }
        FilterArg::Float(d, u) => {
            let mut out = render_decimal(d);
            push_unit(&mut out, u);
            out
        }
        FilterArg::Str(t) => crate::text::copy_bytes(t.as_slice()),
        FilterArg::Img(f) => render(f),
        FilterArg::ResolvedImg(_) => Vec::new(),
    }
}

/// Renders the arguments from `i` on, comma-separated.
fn render_args_from(f: &Filter, i: usize) -> (r: Vec<u8>)
    requires
        i <= f.args@.len(),
    ensures
        r@ == spec_render_args(f@, i as int),
    decreases *f, f.args@.len() - i, 0int,
{
    proof {
        crate::filter::lemma_filter_view(*f);
    }
    if i >= f.args.len() {
        Vec::new()
    } else {
        let mut out = render_arg(&f.args[i]);
        if i + 1 < f.args.len() {
            out.push(',' as u8);
            let rest = render_args_from(f, i + 1);
            crate::text::push_bytes(&mut out, rest.as_slice());
        }
        out
    }
}

/// Renders a tree back to its canonical pipeline text.
pub fn render(f: &Filter) -> (r: Vec<u8>)
    ensures
        r@ == spec_render_filter(f@),
    decreases *f, f.args@.len() + 1, 0int,
{
    let mut out = crate::text::copy_bytes(f.name.as_slice());
    out.push('(' as u8);
    let args = render_args_from(f, 0);
    crate::text::push_bytes(&mut out, args.as_slice());
    out.push(')' as u8);
    proof {
        crate::filter::lemma_filter_view(*f);
        assert(out@ =~= spec_render_filter(f@));
    }
    out
}

/// Every byte a decimal rendering produces is a digit.
pub(crate) proof fn lemma_digits_facts(v: nat)
    ensures
        spec_digits(v).len() >= 1,
        forall|j: int| 0 <= j < spec_digits(v).len() ==> is_digit(#[trigger] spec_digits(v)[j]),
    decreases v,
{
    if v >= 10 {
        lemma_digits_facts(v / 10);
    }
}

pub(crate) proof fn lemma_padded_facts(v: nat, w: nat)
    ensures
        spec_padded(v, w).len() == w,
        forall|j: int| 0 <= j < w ==> is_digit(#[trigger] spec_padded(v, w)[j]),
    decreases w,
{
    if w > 0 {
        lemma_padded_facts(v / 10, (w - 1) as nat);
    }
}

/// A digit run of known extent is exactly what the scanner finds.
pub(crate) proof fn lemma_digits_end_at(s: Seq<u8>, pos: int, e: int)
    requires
        0 <= pos <= e <= s.len(),
        forall|j: int| pos <= j < e ==> is_digit(s[j]),
        e == s.len() || !is_digit(s[e]),
    ensures
        digits_end(s, pos) == e,
    decreases e - pos,
{
    if pos < e {
        lemma_digits_end_at(s, pos + 1, e);
    }
}

/// Scanning the digits a value rendered to recovers the value.
pub(crate) proof fn lemma_digits_val_of(s: Seq<u8>, pos: int, v: nat)
    requires
        0 <= pos,
        pos + spec_digits(v).len() <= s.len(),
        s.subrange(pos, pos + spec_digits(v).len()) == spec_digits(v),
    ensures
        digits_val(s, pos, pos + spec_digits(v).len()) == v,
    decreases v,
{
    lemma_digits_facts(v);
    let d = spec_digits(v);
    if v < 10 {
        assert(s.subrange(pos, pos + d.len())[0] == d[0]);
        assert(s[pos] == d[0]);
        assert(digits_val(s, pos, pos as int) == 0);
        assert(digits_val(s, pos, pos + 1) == (0 * 10 + (s[pos] - ('0' as u8))) as nat);
        assert(s[pos] == ((v + 48) as u8));
    } else {
        lemma_digits_facts(v / 10);
        let dp = spec_digits(v / 10);
        assert(d == dp + seq![((v % 10) + ('0' as u8)) as u8]);
        assert(s.subrange(pos, pos + dp.len()) =~= dp) by {
            assert forall|t: int| 0 <= t < dp.len() implies s.subrange(pos, pos + dp.len())[t]
                == dp[t] by {
                assert(s[pos + t] == d[t]);
                assert(d[t] == dp[t]);
            }
        }
        lemma_digits_val_of(s, pos, v / 10);
        assert(s.subrange(pos, pos + d.len())[d.len() - 1] == d[d.len() - 1]);
        assert(s[pos + d.len() - 1] == d[d.len() - 1]);
        assert(d[d.len() - 1] == ((v % 10 + 48) as u8));
        assert(digits_val(s, pos, pos + d.len()) == (digits_val(s, pos, pos + d.len() - 1) * 10
            + (s[pos + d.len() - 1] - ('0' as u8))) as nat);
        vstd::arithmetic::div_mod::lemma_fundamental_div_mod(v as int, 10);
    }
}

/// Scanning the zero-padded digits a value rendered to recovers the
/// value modulo the padding width.
pub(crate) proof fn lemma_padded_val_of(s: Seq<u8>, pos: int, v: nat, w: nat)
    requires
        0 <= pos,
        pos + w <= s.len(),
        s.subrange(pos, pos + w) == spec_padded(v, w),
    ensures
        digits_val(s, pos, pos + w) == v % pow10(w),
    decreases w,
{
    lemma_padded_facts(v, w);
    if w == 0 {
        assert(pow10(0) == 1);
        assert(v % 1 == 0) by {
            vstd::arithmetic::div_mod::lemma_fundamental_div_mod(v as int, 1);
        }
    } else {
        let d = spec_padded(v, w);
        let dp = spec_padded(v / 10, (w - 1) as nat);
        lemma_padded_facts(v / 10, (w - 1) as nat);
        assert(d == dp + seq![((v % 10) + ('0' as u8)) as u8]);
        assert(s.subrange(pos, pos + (w - 1)) =~= dp) by {
            assert forall|t: int| 0 <= t < w - 1 implies s.subrange(pos, pos + (w - 1))[t]
                == dp[t] by {
                assert(s[pos + t] == d[t]);
                assert(d[t] == dp[t]);
            }
        }
        lemma_padded_val_of(s, pos, v / 10, (w - 1) as nat);
        assert(s[pos + w - 1] == d[w - 1]);
        assert(digits_val(s, pos, pos + w) == (v / 10) % pow10((w - 1) as nat) * 10 + v % 10);
        lemma_mod_shift(v, w);
    }
}

/// `v mod 10^w` splits into the last digit and the higher digits.
proof fn lemma_mod_shift(v: nat, w: nat)
    requires
        w >= 1,
    ensures
        v % pow10(w) == ((v / 10) % pow10((w - 1) as nat)) * 10 + v % 10,
{
    let p1 = pow10((w - 1) as nat) as int;
    let vv = v as int;
    crate::filter::lemma_pow10_positive((w - 1) as nat);
    assert(pow10(w) == 10 * pow10((w - 1) as nat));
    vstd::arithmetic::div_mod::lemma_fundamental_div_mod(vv, 10);
    vstd::arithmetic::div_mod::lemma_fundamental_div_mod(vv / 10, p1);
    vstd::arithmetic::div_mod::lemma_div_denominator(vv, 10, p1);
    // v = 10 * (v / 10) + v % 10
    //   = 10 * (p1 * (v / 10 / p1) + (v / 10) % p1) + v % 10
    //   = (10 * p1) * (v / (10 * p1)) + ((v / 10) % p1) * 10 + v % 10
    let q = vv / 10 / p1;
    let r = ((vv / 10) % p1) * 10 + vv % 10;
    assert(vv == 10 * p1 * q + r) by (nonlinear_arith)
        requires
            vv / 10 == p1 * q + (vv / 10) % p1,
            vv == 10 * (vv / 10) + vv % 10,
            r == ((vv / 10) % p1) * 10 + vv % 10,
    ;
    assert(0 <= r < 10 * p1) by (nonlinear_arith)
        requires
            0 <= (vv / 10) % p1 < p1,
            0 <= vv % 10 < 10,
            r == ((vv / 10) % p1) * 10 + vv % 10,
            p1 >= 1,
    ;
    assert(vv % (10 * p1) == r) by {
        vstd::arithmetic::div_mod::lemma_fundamental_div_mod_converse(vv, 10 * p1, q, r);
    }
}

/// A name the canonical rendering can reproduce: non-empty, free of
/// grammar bytes, and not opening like a number.
pub open spec fn valid_name(s: Seq<u8>) -> bool {
    &&& s.len() > 0
    &&& forall|i: int| 0 <= i < s.len() ==> !is_special(#[trigger] s[i])
    &&& !is_digit(s[0])
    &&& s[0] != ('-' as u8)
    &&& s[0] != ('+' as u8)
    &&& s[0] != ('.' as u8)
}

/// The raw-string automaton: commas and closing parentheses only under
/// an open parenthesis, and every parenthesis closed by the end.
pub open spec fn string_body_ok(s: Seq<u8>, i: int, depth: int) -> bool
    decreases s.len() - i,
{
    if !(0 <= i < s.len()) {
        depth == 0
    } else if s[i] == (',' as u8) && depth == 0 {
        false
    } else if s[i] == (')' as u8) && depth == 0 {
        false
    } else if s[i] == ('(' as u8) {
        string_body_ok(s, i + 1, depth + 1)
    } else if s[i] == (')' as u8) {
        string_body_ok(s, i + 1, depth - 1)
    } else {
        string_body_ok(s, i + 1, depth)
    }
}

/// No `(` before a `:`, so the argument reads as a string, not a call.
pub open spec fn no_lparen_before_colon(s: Seq<u8>, i: int) -> bool
    decreases s.len() - i,
{
    if !(0 <= i < s.len()) {
        true
    } else if s[i] == (':' as u8) {
        true
    } else if s[i] == ('(' as u8) {
        false
    } else {
        no_lparen_before_colon(s, i + 1)
    }
}

/// A string the canonical rendering can reproduce.
pub open spec fn valid_string(s: Seq<u8>) -> bool {
    &&& s.len() > 0
    &&& string_body_ok(s, 0, 0)
    &&& no_lparen_before_colon(s, 0)
    &&& try_float(s, 0) is None
    &&& try_int(s, 0) is None
}

/// An argument the canonical rendering can reproduce; a resolved image
/// has no text form.
pub open spec fn valid_arg(a: ArgView) -> bool
    decreases a,
{
    match a {
        ArgView::Int(v, _) => v > i64::MIN,
        ArgView::Float(d, _) => crate::filter::decimal_in_range(d),
        ArgView::Str(s) => valid_string(s),
        ArgView::Img(fv) => valid_filter(fv),
        ArgView::Resolved(_) => false,
    }
}

pub open spec fn valid_args_from(fv: FilterView, i: int) -> bool
    decreases fv, fv.args.len() - i,
{
    if i < 0 || i >= fv.args.len() {
        true
    } else {
        valid_arg(fv.args[i]) && valid_args_from(fv, i + 1)
    }
}

/// A tree the canonical rendering reproduces exactly.
pub open spec fn valid_filter(fv: FilterView) -> bool
    decreases fv, fv.args.len() + 1,
{
    valid_name(fv.name) && valid_args_from(fv, 0)
}

/// The follower bytes after a rendered argument inside an argument
/// list.
pub open spec fn arg_follower(c: u8) -> bool {
    c == (',' as u8) || c == (')' as u8)
}

/// A rendered integer with its unit reads back as the same argument.
proof fn lemma_number_tail(s: Seq<u8>, e: int, u: SizeUnit, end: int)
    requires
        0 <= e,
        e + spec_unit_token(u).len() == end,
        end < s.len(),
        s.subrange(e, end) == spec_unit_token(u),
        arg_follower(s[end]),
    ensures
        unit_end(s, e) == (u, end),
{
    let t = spec_unit_token(u);
    assert forall|j: int| 0 <= j < t.len() implies s[e + j] == t[j] by {
        assert(s.subrange(e, end)[j] == t[j]);
    }
    match u {
        SizeUnit::NoUnit => {
            assert(s[e] == s[end]);
            assert(unit_end(s, e) == (u, end));
        }
        SizeUnit::Px => {
            assert(s[e] == t[0] && s[e + 1] == t[1]);
            assert(unit_end(s, e) == (u, end));
        }
        SizeUnit::Width => {
            assert(s[e] == t[0] && s[e + 1] == s[end]);
            assert(unit_end(s, e) == (u, end));
        }
        SizeUnit::Height => {
            assert(s[e] == t[0] && s[e + 1] == s[end]);
            assert(unit_end(s, e) == (u, end));
        }
        SizeUnit::HorizontalCentimeters => {
            assert(s[e] == t[0] && s[e + 1] == t[1] && s[e + 2] == t[2]);
            assert(unit_end(s, e) == (u, end));
        }
        SizeUnit::VerticalCentimeters => {
            assert(s[e] == t[0] && s[e + 1] == t[1] && s[e + 2] == t[2]);
            assert(unit_end(s, e) == (u, end));
        }
        SizeUnit::HorizontalInches => {
            assert(s[e] == t[0] && s[e + 1] == t[1] && s[e + 2] == t[2]);
            assert(unit_end(s, e) == (u, end));
        }
        SizeUnit::VerticalInches => {
            assert(s[e] == t[0] && s[e + 1] == t[1] && s[e + 2] == t[2]);
            assert(unit_end(s, e) == (u, end));
        }
    }
}

/// The digits of a rendered magnitude, seen at `pos` with a non-digit,
/// non-point byte after them.
proof fn lemma_int_of_render(s: Seq<u8>, pos: int, v: i64, u: SizeUnit, end: int)
    requires
        0 <= pos,
        v > i64::MIN,
        s.subrange(pos, end) == crate::text::spec_int_bytes(v as int) + spec_unit_token(u),
        end - pos == crate::text::spec_int_bytes(v as int).len() + spec_unit_token(u).len(),
        end < s.len(),
        arg_follower(s[end]),
    ensures
        spec_parse_arg(s, pos) == Parsed::Found(ArgView::Int(v, u), end),
{
    let body = crate::text::spec_int_bytes(v as int);
    let tok = spec_unit_token(u);
    let mag: nat = if v < 0 {
        (-(v as int)) as nat
    } else {
        v as nat
    };
    let dg = spec_digits(mag);
    lemma_digits_facts(mag);
    let p1: int = if v < 0 {
        pos + 1
    } else {
        pos
    };
    assert forall|j: int| 0 <= j < end - pos implies s[pos + j] == (body + tok)[j] by {
        assert(s.subrange(pos, end)[j] == (body + tok)[j]);
    }
    let de = p1 + dg.len();
    assert(s.subrange(p1, de) =~= dg) by {
        assert forall|t: int| 0 <= t < dg.len() implies s.subrange(p1, de)[t] == dg[t] by {
            if v < 0 {
                assert(s[p1 + t] == (body + tok)[1 + t]);
                assert(body[1 + t] == dg[t]);
            } else {
                assert(s[p1 + t] == (body + tok)[t]);
            }
        }
    }
    // the byte after the digits is a unit letter or the follower, never
    // a digit or a point
    assert(!is_digit(s[de]) && s[de] != ('.' as u8)) by {
        if tok.len() > 0 {
            assert(s[de] == (body + tok)[body.len() as int]);
            assert((body + tok)[body.len() as int] == tok[0]);
            lemma_unit_token_heads(u);
        } else {
            assert(de == end);
        }
    }
    assert forall|j: int| p1 <= j < de implies is_digit(s[j]) by {
        assert(s.subrange(p1, de)[j - p1] == dg[j - p1]);
    }
    lemma_digits_end_at(s, p1, de);
    lemma_digits_val_of(s, p1, mag);
    if v < 0 {
        assert(s[pos] == (body + tok)[0]);
        assert(body[0] == ('-' as u8));
    } else {
        assert(s[pos] == (body + tok)[0]);
        assert(dg[0] == body[0]);
        assert(is_digit(s[pos]));
        assert(s[pos] != ('-' as u8) && s[pos] != ('+' as u8));
    }
    assert(try_float(s, pos) is None);
    assert(try_int(s, pos) == Some((v as int, de)));
    assert(s.subrange(de, end) =~= tok) by {
        assert forall|t: int| 0 <= t < tok.len() implies s.subrange(de, end)[t] == tok[t] by {
            assert(s[de + t] == (body + tok)[body.len() + t]);
        }
    }
    lemma_number_tail(s, de, u, end);
}

/// A unit token never opens with a digit or a point.
proof fn lemma_unit_token_heads(u: SizeUnit)
    ensures
        spec_unit_token(u).len() > 0 ==> !is_digit(spec_unit_token(u)[0]) && spec_unit_token(
            u,
        )[0] != ('.' as u8) && spec_unit_token(u)[0] != (',' as u8) && spec_unit_token(u)[0] != (
        ')' as u8),
{
}

/// A digit scan inside a rendered argument agrees with the scan over
/// the argument's own text.
proof fn lemma_digits_end_transfer(s: Seq<u8>, pos: int, c: Seq<u8>, k: int)
    requires
        0 <= pos,
        0 <= k <= c.len(),
        pos + c.len() < s.len(),
        s.subrange(pos, pos + c.len()) == c,
        !is_digit(s[pos + c.len()]),
    ensures
        digits_end(s, pos + k) == pos + digits_end(c, k),
    decreases c.len() - k,
{
    assert forall|j: int| 0 <= j < c.len() implies s[pos + j] == c[j] by {
        assert(s.subrange(pos, pos + c.len())[j] == c[j]);
    }
    if k < c.len() && is_digit(c[k]) {
        lemma_digits_end_transfer(s, pos, c, k + 1);
    }
}

/// A rendered string argument is not mistaken for a number: the
/// number scanners fail on it in context exactly as they fail on the
/// string alone.
proof fn lemma_number_transfer(s: Seq<u8>, pos: int, c: Seq<u8>)
    requires
        0 <= pos,
        c.len() >= 1,
        pos + c.len() < s.len(),
        s.subrange(pos, pos + c.len()) == c,
        arg_follower(s[pos + c.len()]),
        try_float(c, 0) is None,
        try_int(c, 0) is None,
    ensures
        try_float(s, pos) is None,
        try_int(s, pos) is None,
{
    assert forall|j: int| 0 <= j < c.len() implies s[pos + j] == c[j] by {
        assert(s.subrange(pos, pos + c.len())[j] == c[j]);
    }
    let n = pos + c.len();
    let signed = s[pos] == ('-' as u8) || s[pos] == ('+' as u8);
    let p1: int = if signed {
        1
    } else {
        0
    };
    lemma_digits_end_transfer(s, pos, c, if p1 <= c.len() {
        p1
    } else {
        c.len() as int
    });
    if p1 <= c.len() {
        let d1e = digits_end(c, p1);
        assert(digits_end(s, pos + p1) == pos + d1e);
        assert(0 <= d1e <= c.len()) by {
            lemma_digits_end_bounds(c, p1);
        }
        if d1e < c.len() {
            assert(s[pos + d1e] == c[d1e]);
        }
        if d1e < c.len() && c[d1e] == ('.' as u8) {
            // the string alone refused the fraction, so its digits stop
            // inside or at a non-digit in context too
            if d1e + 1 < c.len() {
                lemma_digits_end_transfer(s, pos, c, d1e + 1);
                if is_digit(c[d1e + 1]) {
                    let d2e = digits_end(c, d1e + 1);
                    lemma_digits_end_bounds(c, d1e + 1);
                } else {
                }
            }
        }
    }
}

/// The scanner never runs past the end.
proof fn lemma_digits_end_bounds(s: Seq<u8>, pos: int)
    requires
        0 <= pos <= s.len(),
    ensures
        pos <= digits_end(s, pos) <= s.len(),
    decreases s.len() - pos,
{
    if pos < s.len() && is_digit(s[pos]) {
        lemma_digits_end_bounds(s, pos + 1);
    }
}

/// The argument-kind decision reads a rendered string as a string.
proof fn lemma_decision_string(s: Seq<u8>, pos: int, c: Seq<u8>, k: int)
    requires
        0 <= pos,
        0 <= k <= c.len(),
        pos + c.len() < s.len(),
        s.subrange(pos, pos + c.len()) == c,
        is_special(s[pos + c.len()]),
        s[pos + c.len()] != ('(' as u8),
        no_lparen_before_colon(c, k),
    ensures
        decision_is_filter(s, pos + k) == false,
    decreases c.len() - k,
{
    assert forall|j: int| 0 <= j < c.len() implies s[pos + j] == c[j] by {
        assert(s.subrange(pos, pos + c.len())[j] == c[j]);
    }
    if k < c.len() {
        if c[k] == (':' as u8) || c[k] == (',' as u8) || c[k] == (')' as u8) {
        } else {
            lemma_decision_string(s, pos, c, k + 1);
        }
    }
}

/// The raw-string scanner stops exactly at the follower of a rendered
/// string argument.
proof fn lemma_string_end_of_render(s: Seq<u8>, pos: int, c: Seq<u8>, k: int, depth: int)
    requires
        0 <= pos,
        0 <= k <= c.len(),
        pos + c.len() < s.len(),
        s.subrange(pos, pos + c.len()) == c,
        arg_follower(s[pos + c.len()]),
        string_body_ok(c, k, depth),
        depth >= 0,
    ensures
        string_end(s, pos + k, depth) == Some(pos + c.len()),
    decreases c.len() - k,
{
    assert forall|j: int| 0 <= j < c.len() implies s[pos + j] == c[j] by {
        assert(s.subrange(pos, pos + c.len())[j] == c[j]);
    }
    if k == c.len() {
    } else if c[k] == ('(' as u8) {
        lemma_string_end_of_render(s, pos, c, k + 1, depth + 1);
    } else if c[k] == (')' as u8) {
        lemma_string_end_of_render(s, pos, c, k + 1, depth - 1);
    } else {
        lemma_string_end_of_render(s, pos, c, k + 1, depth);
    }
}

/// A rendered string argument reads back as the same string.
proof fn lemma_string_of_render(s: Seq<u8>, pos: int, c: Seq<u8>)
    requires
        0 <= pos,
        valid_string(c),
        pos + c.len() < s.len(),
        s.subrange(pos, pos + c.len()) == c,
        arg_follower(s[pos + c.len()]),
    ensures
        spec_parse_arg(s, pos) == Parsed::Found(ArgView::Str(c), pos + c.len()),
{
    lemma_number_transfer(s, pos, c);
    lemma_decision_string(s, pos, c, 0);
    lemma_string_end_of_render(s, pos, c, 0, 0);
    assert(s.subrange(pos, pos + c.len()) == c);
}

/// A rendered fractional argument reads back as the same value.
#[verifier::rlimit(80)]
proof fn lemma_float_of_render(s: Seq<u8>, pos: int, d: Decimal, u: SizeUnit, end: int)
    requires
        0 <= pos,
        crate::filter::decimal_in_range(d),
        s.subrange(pos, end) == spec_render_decimal(d) + spec_unit_token(u),
        end - pos == spec_render_decimal(d).len() + spec_unit_token(u).len(),
        end < s.len(),
        arg_follower(s[end]),
    ensures
        spec_parse_arg(s, pos) == Parsed::Found(ArgView::Float(d, u), end),
{
    let body = spec_render_decimal(d);
    let tok = spec_unit_token(u);
    let mag: nat = if d.mantissa < 0 {
        (-(d.mantissa as int)) as nat
    } else {
        d.mantissa as nat
    };
    let sc = d.scale as nat;
    crate::filter::lemma_pow10_positive(sc);
    let whole = mag / pow10(sc);
    let dg = spec_digits(whole);
    lemma_digits_facts(whole);
    lemma_padded_facts(mag, sc);
    let sign: int = if d.mantissa < 0 {
        1
    } else {
        0
    };
    assert forall|j: int| 0 <= j < end - pos implies s[pos + j] == (body + tok)[j] by {
        assert(s.subrange(pos, end)[j] == (body + tok)[j]);
    }
    let p1 = pos + sign;
    let d1e = p1 + dg.len();
    let d2e = d1e + 1 + sc;
    assert(body.len() == sign + dg.len() + 1 + sc);
    // the whole part's digits, the point, the padded fraction
    assert(s.subrange(p1, d1e) =~= dg) by {
        assert forall|t: int| 0 <= t < dg.len() implies s.subrange(p1, d1e)[t] == dg[t] by {
            assert(s[p1 + t] == (body + tok)[sign + t]);
            assert(body[sign + t] == dg[t]);
        }
    }
    assert(s[d1e] == (body + tok)[sign + dg.len()]);
    assert((body + tok)[sign + dg.len()] == body[sign + dg.len()]);
    assert(body[sign + dg.len()] == ('.' as u8));
    assert(s.subrange(d1e + 1, d2e) =~= spec_padded(mag, sc)) by {
        assert forall|t: int| 0 <= t < sc implies s.subrange(d1e + 1, d2e)[t] == spec_padded(
            mag,
            sc,
        )[t] by {
            assert(s[d1e + 1 + t] == (body + tok)[sign + dg.len() + 1 + t]);
            assert(body[sign + dg.len() + 1 + t] == spec_padded(mag, sc)[t]);
        }
    }
    assert forall|j: int| p1 <= j < d1e implies is_digit(s[j]) by {
        assert(s.subrange(p1, d1e)[j - p1] == dg[j - p1]);
    }
    assert forall|j: int| d1e + 1 <= j < d2e implies is_digit(s[j]) by {
        assert(s.subrange(d1e + 1, d2e)[j - (d1e + 1)] == spec_padded(mag, sc)[j - (d1e + 1)]);
    }
    // the byte after the fraction is a unit letter or the follower
    assert(!is_digit(s[d2e]) && s[d2e] != ('.' as u8)) by {
        if tok.len() > 0 {
            assert(s[d2e] == (body + tok)[body.len() as int]);
            assert((body + tok)[body.len() as int] == tok[0]);
            lemma_unit_token_heads(u);
        } else {
            assert(d2e == end);
        }
    }
    lemma_digits_end_at(s, p1, d1e);
    lemma_digits_end_at(s, d1e + 1, d2e);
    lemma_digits_val_of(s, p1, whole);
    lemma_padded_val_of(s, d1e + 1, mag, sc);
    if d.mantissa < 0 {
        assert(s[pos] == (body + tok)[0]);
        assert(body[0] == ('-' as u8));
    } else {
        assert(s[pos] == (body + tok)[0]);
        assert(body[0] == dg[0]);
        assert(is_digit(s[pos]));
    }
    // whole * 10^scale + fraction is the magnitude back
    assert(whole * pow10(sc) + mag % pow10(sc) == mag) by {
        vstd::arithmetic::div_mod::lemma_fundamental_div_mod(mag as int, pow10(sc) as int);
        assert(mag == pow10(sc) * (mag as int / pow10(sc) as int) + mag as int % pow10(
            sc,
        ) as int);
        assert(pow10(sc) * whole == whole * pow10(sc)) by (nonlinear_arith);
    }
    assert(try_float(s, pos) == Some((d.mantissa as int, sc, d2e)));
    assert(s.subrange(d2e, end) =~= tok) by {
        assert forall|t: int| 0 <= t < tok.len() implies s.subrange(d2e, end)[t] == tok[t] by {
            assert(s[d2e + t] == (body + tok)[body.len() + t]);
        }
    }
    lemma_number_tail(s, d2e, u, end);
}

proof fn lemma_find_lparen_at(s: Seq<u8>, pos: int, e: int)
    requires
        0 <= pos <= e < s.len(),
        forall|j: int| pos <= j < e ==> s[j] != ('(' as u8),
        s[e] == ('(' as u8),
    ensures
        find_lparen(s, pos) == Some(e),
    decreases e - pos,
{
    if pos < e {
        lemma_find_lparen_at(s, pos + 1, e);
    }
}

proof fn lemma_decision_name(s: Seq<u8>, pos: int, e: int)
    requires
        0 <= pos <= e < s.len(),
        forall|j: int| pos <= j < e ==> !is_special(s[j]),
        s[e] == ('(' as u8),
    ensures
        decision_is_filter(s, pos) == true,
    decreases e - pos,
{
    if pos < e {
        lemma_decision_name(s, pos + 1, e);
    }
}

/// A rendered argument's text is never empty and never opens with a
/// byte that could end or close the list.
proof fn lemma_render_arg_head(a: ArgView)
    requires
        valid_arg(a),
    ensures
        spec_render_arg(a).len() >= 1,
        spec_render_arg(a)[0] != (')' as u8),
    decreases a,
{
    match a {
        ArgView::Int(v, u) => {
            let mag: nat = if v < 0 {
                (-(v as int)) as nat
            } else {
                v as nat
            };
            lemma_digits_facts(mag);
            if v >= 0 {
                assert(spec_render_arg(a)[0] == spec_digits(mag)[0]);
            }
        }
        ArgView::Float(d, u) => {
            let mag: nat = if d.mantissa < 0 {
                (-(d.mantissa as int)) as nat
            } else {
                d.mantissa as nat
            };
            lemma_digits_facts(mag / pow10(d.scale as nat));
            if d.mantissa >= 0 {
                assert(spec_render_arg(a)[0] == spec_digits(mag / pow10(d.scale as nat))[0]);
            }
        }
        ArgView::Str(c) => {
            assert(spec_render_arg(a)[0] == c[0]);
        }
        ArgView::Img(fv) => {
            assert(spec_render_arg(a)[0] == fv.name[0]);
        }
        ArgView::Resolved(_) => {}
    }
}

/// A rendered argument, seen at its place in a list, parses back to
/// itself.
proof fn lemma_arg_of_render(s: Seq<u8>, pos: int, a: ArgView, end: int)
    requires
        0 <= pos,
        valid_arg(a),
        end == pos + spec_render_arg(a).len(),
        end < s.len(),
        s.subrange(pos, end) == spec_render_arg(a),
        arg_follower(s[end]),
    ensures
        spec_parse_arg(s, pos) == Parsed::Found(a, end),
    decreases a, 0int, 0int,
{
    match a {
        ArgView::Int(v, u) => {
            lemma_int_of_render(s, pos, v, u, end);
        }
        ArgView::Float(d, u) => {
            lemma_float_of_render(s, pos, d, u, end);
        }
        ArgView::Str(c) => {
            lemma_string_of_render(s, pos, c);
        }
        ArgView::Img(fv) => {
            let body = spec_render_filter(fv);
            assert forall|j: int| 0 <= j < body.len() implies s[pos + j] == body[j] by {
                assert(s.subrange(pos, end)[j] == body[j]);
            }
            assert forall|j: int| 0 <= j < fv.name.len() implies s[pos + j] == fv.name[j] by {
                assert(body[j] == fv.name[j]);
            }
            assert(s[pos + fv.name.len()] == body[fv.name.len() as int]);
            assert(body[fv.name.len() as int] == ('(' as u8));
            assert forall|j: int| pos <= j < pos + fv.name.len() implies !is_special(s[j]) by {
                assert(s[j] == fv.name[j - pos]);
            }
            lemma_decision_name(s, pos, pos + fv.name.len());
            assert(!is_digit(s[pos]) && s[pos] != ('-' as u8) && s[pos] != ('+' as u8) && s[pos]
                != ('.' as u8)) by {
                assert(s[pos] == fv.name[0]);
            }
            assert(digits_end(s, pos) == pos);
            assert(try_float(s, pos) is None);
            assert(try_int(s, pos) is None);
            lemma_chain_of_render(s, pos, fv, end);
        }
        ArgView::Resolved(_) => {}
    }
}

/// A rendered argument list parses back to the same arguments.
proof fn lemma_args_of_render(s: Seq<u8>, pos: int, fv: FilterView, i: int)
    requires
        0 <= pos,
        0 <= i < fv.args.len(),
        valid_args_from(fv, i),
        pos + spec_render_args(fv, i).len() < s.len(),
        s.subrange(pos, pos + spec_render_args(fv, i).len()) == spec_render_args(fv, i),
        s[pos + spec_render_args(fv, i).len()] == (')' as u8),
    ensures
        spec_parse_args_more(s, pos) == Parsed::Found(
            fv.args.skip(i),
            pos + spec_render_args(fv, i).len() + 1,
        ),
    decreases fv, fv.args.len() - i, 0int,
{
    let body = spec_render_args(fv, i);
    let a = fv.args[i];
    let ra = spec_render_arg(a);
    assert forall|j: int| 0 <= j < body.len() implies s[pos + j] == body[j] by {
        assert(s.subrange(pos, pos + body.len())[j] == body[j]);
    }
    if i + 1 < fv.args.len() {
        let rest = spec_render_args(fv, i + 1);
        assert(body == ra + seq![',' as u8] + rest);
        let argend = pos + ra.len();
        assert(s.subrange(pos, argend) =~= ra) by {
            assert forall|t: int| 0 <= t < ra.len() implies s.subrange(pos, argend)[t]
                == ra[t] by {
                assert(s[pos + t] == body[t]);
                assert(body[t] == ra[t]);
            }
        }
        assert(s[argend] == body[ra.len() as int]);
        assert(body[ra.len() as int] == (',' as u8));
        lemma_arg_of_render(s, pos, a, argend);
        let p2 = argend + 1;
        assert(s.subrange(p2, p2 + rest.len()) =~= rest) by {
            assert forall|t: int| 0 <= t < rest.len() implies s.subrange(p2, p2 + rest.len())[t]
                == rest[t] by {
                assert(s[p2 + t] == body[ra.len() + 1 + t]);
                assert(body[ra.len() + 1 + t] == rest[t]);
            }
        }
        assert(s[p2 + rest.len()] == (')' as u8)) by {
            assert(p2 + rest.len() == pos + body.len());
        }
        lemma_args_of_render(s, p2, fv, i + 1);
        assert(seq![a] + fv.args.skip(i + 1) =~= fv.args.skip(i));
    } else {
        assert(body == ra);
        let argend = pos + ra.len();
        lemma_arg_of_render(s, pos, a, argend);
        assert(s[argend] == (')' as u8));
        assert(seq![a] =~= fv.args.skip(i));
    }
}

/// A rendered call parses back to the same tree.
#[verifier::rlimit(100)]
proof fn lemma_one_of_render(s: Seq<u8>, pos: int, fv: FilterView, end: int)
    requires
        0 <= pos,
        valid_filter(fv),
        end == pos + spec_render_filter(fv).len(),
        end <= s.len(),
        s.subrange(pos, end) == spec_render_filter(fv),
    ensures
        spec_parse_one(s, pos) == Parsed::Found(fv, end),
    decreases fv, fv.args.len() + 1, 0int,
{
    let body = spec_render_filter(fv);
    let nlen = fv.name.len() as int;
    let np = pos + nlen;
    assert forall|j: int| 0 <= j < body.len() implies s[pos + j] == body[j] by {
        assert(s.subrange(pos, end)[j] == body[j]);
    }
    assert forall|j: int| pos <= j < np implies s[j] != ('(' as u8) by {
        assert(s[j] == body[j - pos]);
        assert(body[j - pos] == fv.name[j - pos]);
    }
    assert(s[np] == body[nlen]);
    assert(body[nlen] == ('(' as u8));
    lemma_find_lparen_at(s, pos, np);
    assert(s.subrange(pos, np) =~= fv.name) by {
        assert forall|t: int| 0 <= t < nlen implies s.subrange(pos, np)[t] == fv.name[t] by {
            assert(s[pos + t] == body[t]);
        }
    }
    let ab = spec_render_args(fv, 0);
    if fv.args.len() == 0 {
        assert(ab == Seq::<u8>::empty());
        assert(s[np + 1] == body[nlen + 1]);
        assert(body[nlen + 1] == (')' as u8));
        assert(spec_parse_args(s, np + 1) == Parsed::Found(Seq::<ArgView>::empty(), np + 2));
        assert(Seq::<ArgView>::empty() =~= fv.args);
        assert(FilterView { name: s.subrange(pos, np), args: Seq::<ArgView>::empty() } =~= fv);
        assert(np + 2 == end);
    } else {
        assert(s.subrange(np + 1, np + 1 + ab.len()) =~= ab) by {
            assert forall|t: int| 0 <= t < ab.len() implies s.subrange(
                np + 1,
                np + 1 + ab.len(),
            )[t] == ab[t] by {
                assert(s[np + 1 + t] == body[nlen + 1 + t]);
                assert(body[nlen + 1 + t] == ab[t]);
            }
        }
        assert(s[np + 1 + ab.len()] == (')' as u8)) by {
            assert(np + 1 + ab.len() == end - 1);
            assert(s[end - 1] == body[body.len() - 1]);
        }
        lemma_render_arg_head(fv.args[0]);
        assert(s[np + 1] == ab[0]);
        assert(ab[0] == spec_render_arg(fv.args[0])[0]) by {
            if 1 < fv.args.len() {
                assert(ab == spec_render_arg(fv.args[0]) + seq![',' as u8] + spec_render_args(
                    fv,
                    1,
                ));
            }
        }
        assert(s[np + 1] != (')' as u8));
        lemma_args_of_render(s, np + 1, fv, 0);
        assert(fv.args.skip(0) =~= fv.args);
        assert(FilterView { name: s.subrange(pos, np), args: fv.args } =~= fv);
    }
}

/// A rendered call at chain position parses back unchanged: the
/// canonical form never contains a chain or a trailing segment.
proof fn lemma_chain_of_render(s: Seq<u8>, pos: int, fv: FilterView, end: int)
    requires
        0 <= pos,
        valid_filter(fv),
        end == pos + spec_render_filter(fv).len(),
        end <= s.len(),
        s.subrange(pos, end) == spec_render_filter(fv),
        end == s.len() || arg_follower(s[end]),
    ensures
        spec_parse_chain(s, pos) == Parsed::Found(fv, end),
    decreases fv, fv.args.len() + 2, 0int,
{
    lemma_one_of_render(s, pos, fv, end);
    assert(spec_render_filter(fv).len() >= 2);
}

/// Parsing inverts rendering, executably: rendering a valid tree and
/// parsing the text yields the tree back.
pub fn reparse(f: &Filter) -> (g: Filter)
    requires
        valid_filter(f@),
    ensures
        g@ == f@,
{
    proof {
        lemma_parse_render(f@);
    }
    let text = render(f);
    match parse(text.as_slice()) {
        Ok(g) => g,
        Err(_) => {
            proof {
                assert(false);
            }
            crate::filter::clone_filter(f)
        }
    }
}

/// Parsing inverts rendering: every valid tree comes back exactly from
/// its canonical text.
pub proof fn lemma_parse_render(fv: FilterView)
    requires
        valid_filter(fv),
    ensures
        spec_parse_pipeline(spec_render_filter(fv)) == Ok::<FilterView, UrlErrorView>(fv),
{
    let s = spec_render_filter(fv);
    assert(s.subrange(0, s.len() as int) =~= s);
    lemma_chain_of_render(s, 0, fv, s.len() as int);
}

} // verus!
