//! The filter tree: the abstract syntax of a pipeline URL, the size units
//! of numeric arguments, and the argument binder that resolves units
//! against a target image's geometry.

use vstd::prelude::*;
use vstd::arithmetic::div_mod::{lemma_div_denominator, lemma_div_nonincreasing};

use crate::error::{FilterError, ErrorView, spec_lit};

verus! {

/// Unit attached to a numeric argument.  All units other than `NoUnit` and
/// `Px` are image-relative and need the target image to resolve to pixels.
#[derive(Debug, Clone, Copy, PartialEq, Eq, Structural)]
pub enum SizeUnit {
    NoUnit,
    Px,
    Width,
    Height,
    HorizontalCentimeters,
    VerticalCentimeters,
    HorizontalInches,
    VerticalInches,
}

/// Error for a unit suffix outside the grammar's vocabulary.
#[derive(Debug, Clone, PartialEq, Eq)]
pub struct UnknownSizeUnit(pub Vec<u8>);

/// What a unit token must read as; the empty token stands for `NoUnit`.
pub open spec fn spec_unit_token(u: SizeUnit) -> Seq<u8> {
    match u {
        SizeUnit::NoUnit => Seq::empty(),
        SizeUnit::Px => seq!['p' as u8, 'x' as u8],
        SizeUnit::Width => seq!['w' as u8],
        SizeUnit::Height => seq!['h' as u8],
        SizeUnit::HorizontalCentimeters => seq!['h' as u8, 'c' as u8, 'm' as u8],
        SizeUnit::VerticalCentimeters => seq!['v' as u8, 'c' as u8, 'm' as u8],
        SizeUnit::HorizontalInches => seq!['h' as u8, 'i' as u8, 'n' as u8],
        SizeUnit::VerticalInches => seq!['v' as u8, 'i' as u8, 'n' as u8],
    }
}

pub open spec fn spec_unit_from(s: Seq<u8>) -> Option<SizeUnit> {
    if s == spec_unit_token(SizeUnit::NoUnit) {
        Some(SizeUnit::NoUnit)
    } else if s == spec_unit_token(SizeUnit::Px) {
        Some(SizeUnit::Px)
    } else if s == spec_unit_token(SizeUnit::Width) {
        Some(SizeUnit::Width)
    } else if s == spec_unit_token(SizeUnit::Height) {
        Some(SizeUnit::Height)
    } else if s == spec_unit_token(SizeUnit::HorizontalCentimeters) {
        Some(SizeUnit::HorizontalCentimeters)
    } else if s == spec_unit_token(SizeUnit::VerticalCentimeters) {
        Some(SizeUnit::VerticalCentimeters)
    } else if s == spec_unit_token(SizeUnit::HorizontalInches) {
        Some(SizeUnit::HorizontalInches)
    } else if s == spec_unit_token(SizeUnit::VerticalInches) {
        Some(SizeUnit::VerticalInches)
    } else {
        None
    }
}

impl SizeUnit {
    /// Reads a unit token; accepts exactly the grammar's eight spellings.
    pub fn from_str(input: &[u8]) -> (r: Result<SizeUnit, UnknownSizeUnit>)
        ensures
            match r {
                Ok(u) => spec_unit_from(input@) == Some(u),
                Err(e) => spec_unit_from(input@) is None && e.0@ == input@,
            },
    {
        let r = if input.len() == 0 {
            Some(SizeUnit::NoUnit)
        } else if input.len() == 1 && input[0] == 'w' as u8 {
            Some(SizeUnit::Width)
        } else if input.len() == 1 && input[0] == 'h' as u8 {
            Some(SizeUnit::Height)
        } else if input.len() == 2 && input[0] == 'p' as u8 && input[1] == 'x' as u8 {
            Some(SizeUnit::Px)
        } else if input.len() == 3 && input[0] == 'h' as u8 && input[1] == 'c' as u8 && input[2] == 'm' as u8 {
            Some(SizeUnit::HorizontalCentimeters)
        } else if input.len() == 3 && input[0] == 'v' as u8 && input[1] == 'c' as u8 && input[2] == 'm' as u8 {
            Some(SizeUnit::VerticalCentimeters)
        } else if input.len() == 3 && input[0] == 'h' as u8 && input[1] == 'i' as u8 && input[2] == 'n' as u8 {
            Some(SizeUnit::HorizontalInches)
        } else if input.len() == 3 && input[0] == 'v' as u8 && input[1] == 'i' as u8 && input[2] == 'n' as u8 {
            Some(SizeUnit::VerticalInches)
        } else {
            None
        };
        match r {
            Some(u) => {
                proof {
                    assert(input@ =~= spec_unit_token(u));
                }
                Ok(u)
            }
            None => Err(UnknownSizeUnit(crate::text::copy_bytes(input))),
        }
    }
}

/// A fractional argument, held exactly: the value is
/// `mantissa / 10^scale`.  Stands in for the grammar's floating-point
/// numbers so that unit resolution stays exact.
#[derive(Debug, Clone, Copy, PartialEq, Eq, Structural)]
pub struct Decimal {
    pub mantissa: i64,
    pub scale: u32,
}

/// 10^e over the mathematical integers.
pub open spec fn pow10(e: nat) -> nat
    decreases e,
{
    if e == 0 {
        1
    } else {
        10 * pow10((e - 1) as nat)
    }
}

pub proof fn lemma_pow10_increases(a: nat, b: nat)
    requires
        a <= b,
    ensures
        pow10(a) <= pow10(b),
    decreases b,
{
    if a < b {
        lemma_pow10_increases(a, (b - 1) as nat);
    }
}

pub proof fn lemma_pow10_positive(e: nat)
    ensures
        pow10(e) >= 1,
    decreases e,
{
    if e > 0 {
        lemma_pow10_positive((e - 1) as nat);
    }
}

/// 10^e as a machine integer; callers keep `e` small enough to fit.
pub fn pow10_u64(e: u32) -> (r: u64)
    requires
        pow10(e as nat) <= u64::MAX,
    ensures
        r == pow10(e as nat),
{
    let mut r: u64 = 1;
    let mut i: u32 = 0;
    while i < e
        invariant
            i <= e,
            r == pow10(i as nat),
            pow10(e as nat) <= u64::MAX,
        decreases e - i,
    {
        proof {
            lemma_pow10_increases((i + 1) as nat, e as nat);
        }
        r = r * 10;
        i += 1;
    }
    r
}

/// Bounds under which a `Decimal` comes out of the parser: at most
/// eighteen significant digits and at least one fractional digit.
pub open spec fn decimal_in_range(d: Decimal) -> bool {
    &&& -1_000_000_000_000_000_000 < d.mantissa < 1_000_000_000_000_000_000
    &&& 1 <= d.scale <= 18
}

/// One argument of a filter call.
#[derive(Debug, PartialEq)]
pub enum FilterArg {
    Int(i64, SizeUnit),
    Float(Decimal, SizeUnit),
    Str(Vec<u8>),
    Img(Filter),
    /// An image already materialised by partial-URL re-entry; the handle
    /// designates an image owned outside the library.  Never parsed and
    /// never rendered.
    ResolvedImg(u64),
}

/// A node of the pipeline tree: one named operation and its arguments.
#[derive(Debug, PartialEq)]
pub struct Filter {
    pub name: Vec<u8>,
    pub args: Vec<FilterArg>,
}

/// Mathematical model of one argument: byte strings become sequences.
#[verifier::ext_equal]
pub enum ArgView {
    Int(i64, SizeUnit),
    Float(Decimal, SizeUnit),
    Str(Seq<u8>),
    Img(FilterView),
    Resolved(u64),
}

/// Mathematical model of a filter tree.
#[verifier::ext_equal]
pub struct FilterView {
    pub name: Seq<u8>,
    pub args: Seq<ArgView>,
}

pub open spec fn view_of_arg(a: FilterArg) -> ArgView
    decreases a,
{
    match a {
        FilterArg::Int(v, u) => ArgView::Int(v, u),
        FilterArg::Float(d, u) => ArgView::Float(d, u),
        FilterArg::Str(s) => ArgView::Str(s@),
        FilterArg::Img(f) => ArgView::Img(view_of_filter(f)),
        FilterArg::ResolvedImg(h) => ArgView::Resolved(h),
    }
}

pub open spec fn view_of_filter(f: Filter) -> FilterView
    decreases f,
{
    FilterView { name: f.name@, args: views_of_args(f, 0) }
}

/// Views of `f.args` from position `i` on.
pub open spec fn views_of_args(f: Filter, i: int) -> Seq<ArgView>
    decreases f, f.args@.len() - i,
{
    if i < 0 || i >= f.args@.len() {
        Seq::empty()
    } else {
        seq![view_of_arg(f.args@[i])] + views_of_args(f, i + 1)
    }
}

impl View for FilterArg {
    type V = ArgView;

    open spec fn view(&self) -> ArgView {
        view_of_arg(*self)
    }
}

impl View for Filter {
    type V = FilterView;

    open spec fn view(&self) -> FilterView {
        view_of_filter(*self)
    }
}

/// `views_of_args` agrees pointwise with the views of the argument vector.
pub proof fn lemma_views_of_args(f: Filter, i: int)
    requires
        0 <= i <= f.args@.len(),
    ensures
        views_of_args(f, i).len() == f.args@.len() - i,
        forall|j: int|
            i <= j < f.args@.len() ==> views_of_args(f, i)[j - i] == view_of_arg(f.args@[j]),
    decreases f.args@.len() - i,
{
    if i < f.args@.len() {
        lemma_views_of_args(f, i + 1);
    }
}

/// A filter's view lists the views of its arguments, in order.
pub proof fn lemma_filter_view(f: Filter)
    ensures
        f@.name == f.name@,
        f@.args.len() == f.args@.len(),
        forall|j: int| 0 <= j < f.args@.len() ==> f@.args[j] == f.args@[j]@,
{
    lemma_views_of_args(f, 0);
}

/// Deep copy of an argument; the copy models the same value.
pub fn clone_arg(a: &FilterArg) -> (r: FilterArg)
    ensures
        r@ == a@,
    decreases *a,
{
    match a {
        FilterArg::Int(v, u) => FilterArg::Int(*v, *u),
        FilterArg::Float(d, u) => FilterArg::Float(*d, *u),
        FilterArg::Str(s) => FilterArg::Str(crate::text::copy_bytes(s.as_slice())),
        FilterArg::Img(f) => FilterArg::Img(clone_filter(f)),
        FilterArg::ResolvedImg(h) => FilterArg::ResolvedImg(*h),
    }
}

/// Deep copy of a filter tree; the copy models the same value.
pub fn clone_filter(f: &Filter) -> (r: Filter)
    ensures
        r@ == f@,
    decreases *f,
{
    let name: Vec<u8> = crate::text::copy_bytes(f.name.as_slice());
    let mut args: Vec<FilterArg> = Vec::new();
    let mut j: usize = 0;
    while j < f.args.len()
        invariant
            j <= f.args@.len(),
            args@.len() == j,
            forall|k: int| 0 <= k < j ==> args@[k]@ == f.args@[k]@,
        decreases f.args@.len() - j,
    {
        args.push(clone_arg(&f.args[j]));
        j += 1;
    }
    let r = Filter { name, args };
    proof {
        lemma_filter_view(r);
        lemma_filter_view(*f);
        assert(r@.args =~= f@.args);
        assert(r@ =~= f@);
    }
    r
}

impl Clone for FilterArg {
    /// The copy models the same value as the original.
    fn clone(&self) -> (r: Self)
        ensures
            r@ == self@,
    {
        clone_arg(self)
    }
}

impl Clone for Filter {
    /// The copy models the same value as the original.
    fn clone(&self) -> (r: Self)
        ensures
            r@ == self@,
    {
        clone_filter(self)
    }
}

/// The pixel geometry a handler resolves image-relative units against.
/// Resolution is dots per inch on each axis, absent when the backend
/// reports none.
#[derive(Debug, Clone, Copy, PartialEq, Eq)]
pub struct ImageGeometry {
    pub width: u64,
    pub height: u64,
    pub resolution: Option<(Decimal, Decimal)>,
}

impl ImageGeometry {
    /// Physically plausible geometry: dimensions below 2^32 pixels and
    /// a non-negative resolution below ten million dots per inch with at
    /// most three decimals.
    pub open spec fn wf(self) -> bool {
        &&& self.width < 0x1_0000_0000
        &&& self.height < 0x1_0000_0000
        &&& match self.resolution {
            Some((x, y)) => {
                &&& 0 <= x.mantissa < 10_000_000
                &&& x.scale <= 3
                &&& 0 <= y.mantissa < 10_000_000
                &&& y.scale <= 3
            },
            None => true,
        }
    }
}

/// Units that cannot resolve without the image's resolution.
pub open spec fn needs_resolution(u: SizeUnit) -> bool {
    match u {
        SizeUnit::HorizontalCentimeters => true,
        SizeUnit::VerticalCentimeters => true,
        SizeUnit::HorizontalInches => true,
        SizeUnit::VerticalInches => true,
        _ => false,
    }
}

/// The exact value, as `mantissa / 10^scale`, that a `(value, unit)` pair
/// resolves to against a geometry; `None` when the unit needs a
/// resolution the image does not have.  One centimeter is 0.3937008
/// inches.
pub open spec fn spec_parse_size(val: Decimal, u: SizeUnit, g: ImageGeometry) -> Option<
    (int, nat),
> {
    match u {
        SizeUnit::NoUnit => Some((val.mantissa as int, val.scale as nat)),
        SizeUnit::Px => Some((val.mantissa as int, val.scale as nat)),
        SizeUnit::Width => Some((val.mantissa * g.width, val.scale as nat)),
        SizeUnit::Height => Some((val.mantissa * g.height, val.scale as nat)),
        SizeUnit::HorizontalCentimeters => match g.resolution {
            Some((rx, _)) => Some(
                (val.mantissa * 3937008 * rx.mantissa, (val.scale + 7 + rx.scale) as nat),
            ),
            None => None,
        },
        SizeUnit::VerticalCentimeters => match g.resolution {
            Some((_, ry)) => Some(
                (val.mantissa * 3937008 * ry.mantissa, (val.scale + 7 + ry.scale) as nat),
            ),
            None => None,
        },
        SizeUnit::HorizontalInches => match g.resolution {
            Some((rx, _)) => Some((val.mantissa * rx.mantissa, (val.scale + rx.scale) as nat)),
            None => None,
        },
        SizeUnit::VerticalInches => match g.resolution {
            Some((_, ry)) => Some((val.mantissa * ry.mantissa, (val.scale + ry.scale) as nat)),
            None => None,
        },
    }
}

pub open spec fn fits_i64(v: int) -> bool {
    i64::MIN <= v <= i64::MAX
}

/// Truncation toward zero of `m / 10^s`, as a float-to-integer cast
/// would do it.
pub open spec fn spec_trunc(m: int, s: nat) -> int {
    if m >= 0 {
        m / pow10(s) as int
    } else {
        -((-m) / pow10(s) as int)
    }
}

/// What `parse_size` answers: the resolved value when it exists and fits
/// the mantissa range, and which error otherwise.
pub open spec fn parse_size_post(
    r: Result<Decimal, crate::error::FilterError>,
    val: Decimal,
    u: SizeUnit,
    g: ImageGeometry,
) -> bool {
    match spec_parse_size(val, u, g) {
        Some(p) => if fits_i64(p.0) {
            r == Ok::<Decimal, crate::error::FilterError>(
                Decimal { mantissa: p.0 as i64, scale: p.1 as u32 },
            )
        } else {
            match r {
                Err(e) => e@ == crate::error::ErrorView::ValueOutOfRange,
                _ => false,
            }
        },
        None => match r {
            Err(e) => e@ == crate::error::ErrorView::BackendFailure(
                crate::error::spec_lit("The image has no resolution"),
            ),
            _ => false,
        },
    }
}

/// Resolves a `(value, unit)` pair to pixels (or to an exact scaled
/// value) against the image's geometry.
pub fn parse_size(val: Decimal, unit: &SizeUnit, img: &ImageGeometry) -> (r: Result<
    Decimal,
    crate::error::FilterError,
>)
    requires
        val.scale <= 18,
        img.wf(),
    ensures
        parse_size_post(r, val, *unit, *img),
{
    let m: i128 = val.mantissa as i128;
    let pair: (i128, u32) = match unit {
        SizeUnit::NoUnit => {
            return Ok(val);
        }
        SizeUnit::Px => {
            return Ok(val);
        }
        SizeUnit::Width => {
            let w: i128 = img.width as i128;
            proof {
                assert(m * w <= 0x8000_0000_0000_0000i128 * 0x1_0000_0000i128 && m * w
                    >= -0x8000_0000_0000_0000i128 * 0x1_0000_0000i128) by (nonlinear_arith)
                    requires
                        -0x8000_0000_0000_0000i128 <= m <= 0x8000_0000_0000_0000i128,
                        0 <= w < 0x1_0000_0000i128,
                ;
            }
            (m * w, val.scale)
        }
        SizeUnit::Height => {
            let h: i128 = img.height as i128;
            proof {
                assert(m * h <= 0x8000_0000_0000_0000i128 * 0x1_0000_0000i128 && m * h
                    >= -0x8000_0000_0000_0000i128 * 0x1_0000_0000i128) by (nonlinear_arith)
                    requires
                        -0x8000_0000_0000_0000i128 <= m <= 0x8000_0000_0000_0000i128,
                        0 <= h < 0x1_0000_0000i128,
                ;
            }
            (m * h, val.scale)
        }
        SizeUnit::HorizontalCentimeters | SizeUnit::VerticalCentimeters => {
            match img.resolution {
                Some((rx, ry)) => {
                    let vertical = match unit {
                        SizeUnit::VerticalCentimeters => true,
                        _ => false,
                    };
                    let res = if vertical {
                        ry
                    } else {
                        rx
                    };
                    let rm: i128 = res.mantissa as i128;
                    proof {
                        assert(-0x8000_0000_0000_0000i128 * 3937008 * 10_000_000 <= m * 3937008
                            * rm <= 0x8000_0000_0000_0000i128 * 3937008 * 10_000_000)
                            by (nonlinear_arith)
                            requires
                                -0x8000_0000_0000_0000i128 <= m <= 0x8000_0000_0000_0000i128,
                                0 <= rm < 10_000_000,
                        ;
                    }
                    (m * 3937008 * rm, val.scale + 7 + res.scale)
                }
                None => {
                    let mut msg: Vec<u8> = Vec::new();
                    crate::error::push_lit(&mut msg, "The image has no resolution");
                    return Err(crate::error::FilterError::BackendFailure(msg));
                }
            }
        }
        SizeUnit::HorizontalInches | SizeUnit::VerticalInches => {
            match img.resolution {
                Some((rx, ry)) => {
                    let vertical = match unit {
                        SizeUnit::VerticalInches => true,
                        _ => false,
                    };
                    let res = if vertical {
                        ry
                    } else {
                        rx
                    };
                    let rm: i128 = res.mantissa as i128;
                    proof {
                        assert(-0x8000_0000_0000_0000i128 * 10_000_000 <= m * rm
                            <= 0x8000_0000_0000_0000i128 * 10_000_000) by (nonlinear_arith)
                            requires
                                -0x8000_0000_0000_0000i128 <= m <= 0x8000_0000_0000_0000i128,
                                0 <= rm < 10_000_000,
                        ;
                    }
                    (m * rm, val.scale + res.scale)
                }
                None => {
                    let mut msg: Vec<u8> = Vec::new();
                    crate::error::push_lit(&mut msg, "The image has no resolution");
                    return Err(crate::error::FilterError::BackendFailure(msg));
                }
            }
        }
    };
    let (pm, ps) = pair;
    if pm >= i64::MIN as i128 && pm <= i64::MAX as i128 {
        Ok(Decimal { mantissa: pm as i64, scale: ps })
    } else {
        Err(crate::error::FilterError::ValueOutOfRange)
    }
}

/// Divides by 10 `s` times: exactly `mag / 10^s`.
pub(crate) fn div_pow10(mag: u64, s: u32) -> (r: u64)
    ensures
        r == mag as nat / pow10(s as nat),
{
    let mut q: u64 = mag;
    let mut i: u32 = 0;
    proof {
        vstd::arithmetic::div_mod::lemma_div_basics(mag as int);
    }
    while i < s
        invariant
            i <= s,
            q == mag as nat / pow10(i as nat),
        decreases s - i,
    {
        proof {
            lemma_pow10_positive(i as nat);
            lemma_div_denominator(mag as int, pow10(i as nat) as int, 10);
            assert(pow10(i as nat) * 10 == pow10((i + 1) as nat)) by {
                assert(pow10((i + 1) as nat) == 10 * pow10(i as nat));
            }
        }
        q = q / 10;
        i += 1;
    }
    q
}

/// Truncates a scaled value to a whole number, toward zero, as a cast
/// from a float would.
pub fn trunc_decimal(d: Decimal) -> (r: i64)
    ensures
        r as int == spec_trunc(d.mantissa as int, d.scale as nat),
{
    proof {
        lemma_pow10_positive(d.scale as nat);
    }
    if d.mantissa >= 0 {
        let mag = d.mantissa as u64;
        let q = div_pow10(mag, d.scale);
        proof {
            lemma_div_nonincreasing(mag as int, pow10(d.scale as nat) as int);
        }
        q as i64
    } else {
        let mag: u64 = (-(d.mantissa as i128)) as u64;
        let q = div_pow10(mag, d.scale);
        proof {
            lemma_div_nonincreasing(mag as int, pow10(d.scale as nat) as int);
        }
        if q == 0x8000_0000_0000_0000u64 {
            i64::MIN
        } else {
            -(q as i64)
        }
    }
}

/// Holds when an error result carries exactly the given error.
pub open spec fn err_is<T>(r: Result<T, FilterError>, ev: ErrorView) -> bool {
    match r {
        Err(e) => e@ == ev,
        Ok(_) => false,
    }
}

/// Holds when the result is the is-missing / wrong-shape complaint for
/// argument `i` of filter `name`.
pub open spec fn bad_arg<T>(r: Result<T, FilterError>, i: usize, name: Seq<u8>, expected: Seq<
    u8,
>) -> bool {
    err_is(r, ErrorView::BadArgument(i, name, expected))
}

/// What resolving one numeric argument against a geometry must answer.
pub open spec fn resolved_int_post(
    r: Result<i64, FilterError>,
    d: Decimal,
    u: SizeUnit,
    g: ImageGeometry,
) -> bool {
    match spec_parse_size(d, u, g) {
        Some(p) => if fits_i64(p.0) {
            r == Ok::<i64, FilterError>(spec_trunc(p.0, p.1) as i64)
        } else {
            err_is(r, ErrorView::ValueOutOfRange)
        },
        None => err_is(r, ErrorView::BackendFailure(spec_lit("The image has no resolution"))),
    }
}

/// The scale bound every parsed tree guarantees for a float argument.
pub open spec fn arg_scale_ok(args: Seq<ArgView>, i: int) -> bool {
    0 <= i < args.len() ==> match args[i] {
        ArgView::Float(d, _) => d.scale <= 18,
        _ => true,
    }
}

/// Reads argument `i` as a plain string.
pub fn arg_string(name: &[u8], args: &Vec<FilterArg>, i: usize) -> (r: Result<
    Vec<u8>,
    FilterError,
>)
    ensures
        match r {
            Ok(s) => 0 <= i < args@.len() && args@[i as int]@ == ArgView::Str(s@),
            Err(_) => bad_arg(
                Result::<i64, FilterError>::Err(r->Err_0),
                i,
                name@,
                spec_lit("a string"),
            ) && (i >= args@.len() || !(args@[i as int]@ is Str)),
        },
{
    if i < args.len() {
        match &args[i] {
            FilterArg::Str(s) => {
                return Ok(crate::text::copy_bytes(s.as_slice()));
            }
            _ => {}
        }
    }
    let mut expected: Vec<u8> = Vec::new();
    crate::error::push_lit(&mut expected, "a string");
    Err(FilterError::BadArgument(i, crate::text::copy_bytes(name), expected))
}

/// Reads argument `i` as a literal integer (no unit).
pub fn arg_int(name: &[u8], args: &Vec<FilterArg>, i: usize) -> (r: Result<i64, FilterError>)
    ensures
        match r {
            Ok(v) => 0 <= i < args@.len() && args@[i as int]@ == ArgView::Int(
                v,
                SizeUnit::NoUnit,
            ),
            Err(_) => bad_arg(r, i, name@, spec_lit("a literal integer")) && (i >= args@.len()
                || !(args@[i as int]@ matches ArgView::Int(_, SizeUnit::NoUnit))),
        },
{
    if i < args.len() {
        match &args[i] {
            FilterArg::Int(v, SizeUnit::NoUnit) => {
                return Ok(*v);
            }
            _ => {}
        }
    }
    let mut expected: Vec<u8> = Vec::new();
    crate::error::push_lit(&mut expected, "a literal integer");
    Err(FilterError::BadArgument(i, crate::text::copy_bytes(name), expected))
}

/// Reads argument `i` as a sub-tree (an image-producing call).
pub fn arg_filter(name: &[u8], args: &Vec<FilterArg>, i: usize) -> (r: Result<
    Filter,
    FilterError,
>)
    ensures
        match r {
            Ok(f) => 0 <= i < args@.len() && args@[i as int]@ == ArgView::Img(f@),
            Err(_) => bad_arg(
                Result::<i64, FilterError>::Err(r->Err_0),
                i,
                name@,
                spec_lit("an image"),
            ) && (i >= args@.len() || !(args@[i as int]@ is Img)),
        },
{
    if i < args.len() {
        match &args[i] {
            FilterArg::Img(f) => {
                return Ok(clone_filter(f));
            }
            _ => {}
        }
    }
    let mut expected: Vec<u8> = Vec::new();
    crate::error::push_lit(&mut expected, "an image");
    Err(FilterError::BadArgument(i, crate::text::copy_bytes(name), expected))
}

/// Reads argument `i` as an integer pixel count, resolving units
/// against the image; fractional values may not name plain pixels.
pub fn arg_int_img(name: &[u8], args: &Vec<FilterArg>, i: usize, img: &ImageGeometry) -> (r:
    Result<i64, FilterError>)
    requires
        img.wf(),
        arg_scale_ok(args@.map_values(|a: FilterArg| a@), i as int),
    ensures
        ({
            let n = args@.len();
            if i < n {
                match args@[i as int]@ {
                    ArgView::Int(v, u) => match u {
                        SizeUnit::NoUnit => r == Ok::<i64, FilterError>(v),
                        SizeUnit::Px => r == Ok::<i64, FilterError>(v),
                        _ => resolved_int_post(r, Decimal { mantissa: v, scale: 0 }, u, *img),
                    },
                    ArgView::Float(d, u) => match u {
                        SizeUnit::NoUnit => err_is(r, ErrorView::FractionalPixels),
                        SizeUnit::Px => err_is(r, ErrorView::FractionalPixels),
                        _ => resolved_int_post(r, d, u, *img),
                    },
                    _ => bad_arg(r, i, name@, spec_lit("an integer")),
                }
            } else {
                bad_arg(r, i, name@, spec_lit("an integer"))
            }
        }),
{
    if i < args.len() {
        proof {
            assert(args@.map_values(|a: FilterArg| a@)[i as int] == args@[i as int]@);
        }
        match &args[i] {
            FilterArg::Int(v, u) => {
                return match u {
                    SizeUnit::NoUnit => Ok(*v),
                    SizeUnit::Px => Ok(*v),
                    _ => {
                        let d = Decimal { mantissa: *v, scale: 0 };
                        match parse_size(d, u, img) {
                            Ok(d2) => Ok(trunc_decimal(d2)),
                            Err(e) => Err(e),
                        }
                    }
                };
            }
            FilterArg::Float(d, u) => {
                return match u {
                    SizeUnit::NoUnit => Err(FilterError::FractionalPixels),
                    SizeUnit::Px => Err(FilterError::FractionalPixels),
                    _ => {
                        match parse_size(*d, u, img) {
                            Ok(d2) => Ok(trunc_decimal(d2)),
                            Err(e) => Err(e),
                        }
                    }
                };
            }
            _ => {}
        }
    }
    let mut expected: Vec<u8> = Vec::new();
    crate::error::push_lit(&mut expected, "an integer");
    Err(FilterError::BadArgument(i, crate::text::copy_bytes(name), expected))
}

/// Reads argument `i` as an exact scaled value, resolving units against
/// the image.
pub fn arg_float_img(name: &[u8], args: &Vec<FilterArg>, i: usize, img: &ImageGeometry) -> (r:
    Result<Decimal, FilterError>)
    requires
        img.wf(),
        arg_scale_ok(args@.map_values(|a: FilterArg| a@), i as int),
    ensures
        ({
            let n = args@.len();
            if i < n {
                match args@[i as int]@ {
                    ArgView::Int(v, u) => match u {
                        SizeUnit::NoUnit => r == Ok::<Decimal, FilterError>(
                            Decimal { mantissa: v, scale: 0 },
                        ),
                        SizeUnit::Px => r == Ok::<Decimal, FilterError>(
                            Decimal { mantissa: v, scale: 0 },
                        ),
                        _ => parse_size_post(r, Decimal { mantissa: v, scale: 0 }, u, *img),
                    },
                    ArgView::Float(d, u) => match u {
                        SizeUnit::NoUnit => r == Ok::<Decimal, FilterError>(d),
                        SizeUnit::Px => r == Ok::<Decimal, FilterError>(d),
                        _ => parse_size_post(r, d, u, *img),
                    },
                    _ => bad_arg(r, i, name@, spec_lit("a float")),
                }
            } else {
                bad_arg(r, i, name@, spec_lit("a float"))
            }
        }),
{
    if i < args.len() {
        proof {
            assert(args@.map_values(|a: FilterArg| a@)[i as int] == args@[i as int]@);
        }
        match &args[i] {
            FilterArg::Int(v, u) => {
                return match u {
                    SizeUnit::NoUnit => Ok(Decimal { mantissa: *v, scale: 0 }),
                    SizeUnit::Px => Ok(Decimal { mantissa: *v, scale: 0 }),
                    _ => parse_size(Decimal { mantissa: *v, scale: 0 }, u, img),
                };
            }
            FilterArg::Float(d, u) => {
                return match u {
                    SizeUnit::NoUnit => Ok(*d),
                    SizeUnit::Px => Ok(*d),
                    _ => parse_size(*d, u, img),
                };
            }
            _ => {}
        }
    }
    let mut expected: Vec<u8> = Vec::new();
    crate::error::push_lit(&mut expected, "a float");
    Err(FilterError::BadArgument(i, crate::text::copy_bytes(name), expected))
}

/// Headers set on the response, in insertion order; a lookup takes the
/// first binding of a name.
pub open spec fn spec_header_get(hs: Seq<(Seq<u8>, Seq<u8>)>, k: Seq<u8>) -> Option<Seq<u8>>
    decreases hs.len(),
{
    if hs.len() == 0 {
        None
    } else if hs[0].0 == k {
        Some(hs[0].1)
    } else {
        spec_header_get(hs.drop_first(), k)
    }
}

/// The header list after binding `k` to `v`: the first binding of `k`
/// is re-valued in place, or a new binding joins at the end.
pub open spec fn spec_header_set(hs: Seq<(Seq<u8>, Seq<u8>)>, k: Seq<u8>, v: Seq<u8>) -> Seq<
    (Seq<u8>, Seq<u8>),
>
    decreases hs.len(),
{
    if hs.len() == 0 {
        seq![(k, v)]
    } else if hs[0].0 == k {
        seq![(k, v)] + hs.drop_first()
    } else {
        seq![hs[0]] + spec_header_set(hs.drop_first(), k, v)
    }
}

/// Per-request state threaded through evaluation: the optional name of
/// the trace header and the headers collected for the response.
pub struct Context {
    pub log_filters_header: Option<Vec<u8>>,
    pub response_headers: Vec<(Vec<u8>, Vec<u8>)>,
}

pub open spec fn header_views(hs: Seq<(Vec<u8>, Vec<u8>)>) -> Seq<(Seq<u8>, Seq<u8>)> {
    hs.map_values(|p: (Vec<u8>, Vec<u8>)| (p.0@, p.1@))
}

/// Reads the first binding of a header name.
pub fn header_get(hs: &Vec<(Vec<u8>, Vec<u8>)>, k: &[u8]) -> (r: Option<Vec<u8>>)
    ensures
        match r {
            Some(v) => spec_header_get(header_views(hs@), k@) == Some(v@),
            None => spec_header_get(header_views(hs@), k@) is None,
        },
{
    let ghost hv = header_views(hs@);
    let mut i: usize = 0;
    proof {
        assert(hv.skip(0) =~= hv);
    }
    while i < hs.len()
        invariant
            i <= hs@.len(),
            hv == header_views(hs@),
            spec_header_get(hv, k@) == spec_header_get(hv.skip(i as int), k@),
        decreases hs@.len() - i,
    {
        proof {
            assert(hv.skip(i as int)[0] == hv[i as int]);
            assert(hv.skip(i as int).drop_first() =~= hv.skip(i as int + 1));
        }
        if crate::text::bytes_eq(hs[i].0.as_slice(), k) {
            return Some(crate::text::copy_bytes(hs[i].1.as_slice()));
        }
        i += 1;
    }
    None
}

/// Binds a header name to a value.
pub fn header_set(hs: &mut Vec<(Vec<u8>, Vec<u8>)>, k: &[u8], v: Vec<u8>)
    ensures
        header_views(final(hs)@) == spec_header_set(header_views(old(hs)@), k@, v@),
{
    let ghost hv = header_views(old(hs)@);
    let mut i: usize = 0;
    proof {
        assert(hv.skip(0) =~= hv);
        assert(hv.take(0) =~= Seq::<(Seq<u8>, Seq<u8>)>::empty());
    }
    while i < hs.len()
        invariant
            i <= hs@.len(),
            hs@ == old(hs)@,
            hv == header_views(hs@),
            forall|j: int| 0 <= j < i ==> hv[j].0 != k@,
            spec_header_set(hv, k@, v@) == hv.take(i as int) + spec_header_set(
                hv.skip(i as int),
                k@,
                v@,
            ),
        decreases hs@.len() - i,
    {
        proof {
            assert(hv.skip(i as int)[0] == hv[i as int]);
            assert(hv.skip(i as int).drop_first() =~= hv.skip(i as int + 1));
        }
        if crate::text::bytes_eq(hs[i].0.as_slice(), k) {
            let kk = crate::text::copy_bytes(k);
            hs.set(i, (kk, v));
            proof {
                assert(spec_header_set(hv.skip(i as int), k@, v@) == seq![(k@, v@)] + hv.skip(
                    i as int,
                ).drop_first());
                assert(header_views(hs@) =~= hv.take(i as int) + (seq![(k@, v@)] + hv.skip(
                    i as int + 1,
                )));
            }
            return ;
        }
        proof {
            assert(hv.take(i as int).push(hv[i as int]) =~= hv.take(i as int + 1));
            assert(hv.take(i as int) + (seq![hv[i as int]] + spec_header_set(
                hv.skip(i as int + 1),
                k@,
                v@,
            )) =~= hv.take(i as int + 1) + spec_header_set(hv.skip(i as int + 1), k@, v@));
        }
        i += 1;
    }
    let kk = crate::text::copy_bytes(k);
    hs.push((kk, v));
    proof {
        assert(hv.skip(hv.len() as int) =~= Seq::<(Seq<u8>, Seq<u8>)>::empty());
        assert(hv.take(hv.len() as int) =~= hv);
        assert(header_views(hs@) =~= hv + seq![(k@, v@)]);
        assert(hv + spec_header_set(Seq::<(Seq<u8>, Seq<u8>)>::empty(), k@, v@) =~= hv + seq![
            (k@, v@),
        ]);
    }
}

/// The trace header's value after one more executed filter name:
/// names accumulate comma-separated.
pub open spec fn spec_trace_append(
    hs: Seq<(Seq<u8>, Seq<u8>)>,
    hname: Seq<u8>,
    fname: Seq<u8>,
) -> Seq<(Seq<u8>, Seq<u8>)> {
    let route = match spec_header_get(hs, hname) {
        Some(v) => if v.len() > 0 {
            v + seq![',' as u8] + fname
        } else {
            fname
        },
        None => fname,
    };
    spec_header_set(hs, hname, route)
}

/// Records an executed filter name in the trace header, when one is
/// configured.
pub fn log_filter(ctx: &mut Context, fname: &[u8])
    ensures
        final(ctx).log_filters_header == old(ctx).log_filters_header,
        match old(ctx).log_filters_header {
            Some(h) => header_views(final(ctx).response_headers@) == spec_trace_append(
                header_views(old(ctx).response_headers@),
                h@,
                fname@,
            ),
            None => final(ctx).response_headers == old(ctx).response_headers,
        },
{
    let hname = match &ctx.log_filters_header {
        Some(h) => crate::text::copy_bytes(h.as_slice()),
        None => {
            return ;
        }
    };
    let mut route: Vec<u8> = match header_get(&ctx.response_headers, hname.as_slice()) {
        Some(v) => v,
        None => Vec::new(),
    };
    if route.len() > 0 {
        route.push(',' as u8);
    }
    crate::text::push_bytes(&mut route, fname);
    proof {
        let hv0 = header_views(old(ctx).response_headers@);
        assert(route@ == (match spec_header_get(hv0, hname@) {
            Some(v) => if v.len() > 0 {
                v + seq![',' as u8] + fname@
            } else {
                fname@
            },
            None => fname@,
        }));
    }
    header_set(&mut ctx.response_headers, hname.as_slice(), route);
}

/// The trace header's value after a filter annotates itself with
/// `(detail)`; nothing changes when the header has no value yet.
pub open spec fn spec_trace_suffix(
    hs: Seq<(Seq<u8>, Seq<u8>)>,
    hname: Seq<u8>,
    detail: Seq<u8>,
) -> Seq<(Seq<u8>, Seq<u8>)> {
    match spec_header_get(hs, hname) {
        Some(v) => spec_header_set(
            hs,
            hname,
            v + seq!['(' as u8] + detail + seq![')' as u8],
        ),
        None => hs,
    }
}

/// Appends `(detail)` to the trace header, as the cache and download
/// filters do with the cache name and the domain.
pub fn log_filter_detail(ctx: &mut Context, detail: &[u8])
    ensures
        final(ctx).log_filters_header == old(ctx).log_filters_header,
        match old(ctx).log_filters_header {
            Some(h) => header_views(final(ctx).response_headers@) == spec_trace_suffix(
                header_views(old(ctx).response_headers@),
                h@,
                detail@,
            ),
            None => final(ctx).response_headers == old(ctx).response_headers,
        },
{
    let hname = match &ctx.log_filters_header {
        Some(h) => crate::text::copy_bytes(h.as_slice()),
        None => {
            return ;
        }
    };
    let mut route: Vec<u8> = match header_get(&ctx.response_headers, hname.as_slice()) {
        Some(v) => v,
        None => {
            return ;
        }
    };
    route.push('(' as u8);
    crate::text::push_bytes(&mut route, detail);
    route.push(')' as u8);
    proof {
        let hv0 = header_views(old(ctx).response_headers@);
        assert(spec_header_get(hv0, hname@) is Some);
        assert(route@ == spec_header_get(hv0, hname@)->Some_0 + seq!['(' as u8] + detail@ + seq![
            ')' as u8,
        ]);
    }
    header_set(&mut ctx.response_headers, hname.as_slice(), route);
}

/// The reserved name that splices an already-materialised image into a
/// re-parsed partial URL.
pub open spec fn sentinel_name() -> Seq<u8> {
    seq![
        '_' as u8,
        '_' as u8,
        'i' as u8,
        'm' as u8,
        'g' as u8,
        '_' as u8,
        '_' as u8,
    ]
}

/// Where the sentinel call sits, the resolved image goes: the walk
/// follows first arguments down to the node whose first argument is
/// the sentinel call, and replaces that argument.  `None` when no
/// sentinel is in first-argument position.
pub open spec fn spec_inject(fv: FilterView, h: u64) -> Option<FilterView>
    decreases fv,
{
    if fv.args.len() == 0 {
        None
    } else {
        match fv.args[0] {
            ArgView::Img(inner) => if inner.name == sentinel_name() {
                Some(FilterView { name: fv.name, args: fv.args.update(0, ArgView::Resolved(h)) })
            } else {
                match spec_inject(inner, h) {
                    Some(inner2) => Some(
                        FilterView {
                            name: fv.name,
                            args: fv.args.update(0, ArgView::Img(inner2)),
                        },
                    ),
                    None => None,
                }
            },
            _ => None,
        }
    }
}

/// Splices the image handle over the sentinel call; the flag says
/// whether a sentinel was found.
pub fn inject_img(f: Filter, h: u64) -> (r: (Filter, bool))
    ensures
        match spec_inject(f@, h) {
            Some(g) => r.1 == true && r.0@ == g,
            None => r.1 == false && r.0@ == f@,
        },
    decreases f,
{
    proof {
        lemma_filter_view(f);
    }
    let ghost fv = f@;
    let mut f = f;
    if f.args.len() == 0 {
        return (f, false);
    }
    let first = f.args.remove(0);
    let ghost removed = f.args@;
    match first {
        FilterArg::Img(inner) => {
            let sentinel: [u8; 7] = [
                '_' as u8,
                '_' as u8,
                'i' as u8,
                'm' as u8,
                'g' as u8,
                '_' as u8,
                '_' as u8,
            ];
            if crate::text::bytes_eq(inner.name.as_slice(), sentinel.as_slice()) {
                proof {
                    assert(inner.name@ =~= sentinel_name());
                }
                f.args.insert(0, FilterArg::ResolvedImg(h));
                proof {
                    lemma_filter_view(f);
                    assert(f@.args =~= fv.args.update(0, ArgView::Resolved(h)));
                    assert(f@ =~= spec_inject(fv, h)->Some_0);
                }
                (f, true)
            } else {
                proof {
                    assert(!(inner.name@ =~= sentinel_name()));
                    assert(inner.name@ != sentinel_name());
                }
                let (inner2, found) = inject_img(inner, h);
                if found {
                    f.args.insert(0, FilterArg::Img(inner2));
                    proof {
                        lemma_filter_view(f);
                        assert(f@.args =~= fv.args.update(
                            0,
                            ArgView::Img(spec_inject(fv.args[0]->Img_0, h)->Some_0),
                        ));
                        assert(f@ =~= spec_inject(fv, h)->Some_0);
                    }
                    (f, true)
                } else {
                    f.args.insert(0, FilterArg::Img(inner2));
                    proof {
                        lemma_filter_view(f);
                        assert(f@.args =~= fv.args);
                        assert(f@ =~= fv);
                    }
                    (f, false)
                }
            }
        }
        _ => {
            f.args.insert(0, first);
            proof {
                lemma_filter_view(f);
                assert(f@.args =~= fv.args);
                assert(f@ =~= fv);
            }
            (f, false)
        }
    }
}

/// Re-entry from a partial URL: a sentinel call is prefixed, the text
/// parsed, and the materialised image spliced over the sentinel.
pub open spec fn spec_prepare_partial(h: u64, url: Seq<u8>) -> Result<
    FilterView,
    crate::url::UrlErrorView,
> {
    match crate::pipeline::spec_parse_pipeline(
        sentinel_name() + seq!['(' as u8, ')' as u8, ':' as u8] + url,
    ) {
        Ok(fv) => match spec_inject(fv, h) {
            Some(g) => Ok(g),
            None => Ok(fv),
        },
        Err(e) => Err(e),
    }
}

/// Builds the tree a compound filter re-enters with: its own image
/// handle spliced into the parsed partial URL.
pub fn prepare_partial_url(h: u64, url: &[u8]) -> (r: Result<Filter, crate::url::UrlParseError>)
    ensures
        match (r, spec_prepare_partial(h, url@)) {
            (Ok(f), Ok(fv)) => f@ == fv,
            (Err(e), Err(ev)) => e@ == ev,
            _ => false,
        },
{
    let prefix: [u8; 10] = [
        '_' as u8,
        '_' as u8,
        'i' as u8,
        'm' as u8,
        'g' as u8,
        '_' as u8,
        '_' as u8,
        '(' as u8,
        ')' as u8,
        ':' as u8,
    ];
    let mut subst: Vec<u8> = Vec::new();
    crate::text::push_bytes(&mut subst, prefix.as_slice());
    crate::text::push_bytes(&mut subst, url);
    proof {
        assert(subst@ =~= sentinel_name() + seq!['(' as u8, ')' as u8, ':' as u8] + url@);
    }
    match crate::pipeline::parse(subst.as_slice()) {
        Ok(f) => {
            let (g, _) = inject_img(f, h);
            Ok(g)
        }
        Err(e) => Err(e),
    }
}

} // verus!
