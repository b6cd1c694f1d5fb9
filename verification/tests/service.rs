use imaginator::alias::{apply_alias_args, apply_filter_aliases};
use imaginator::base::{clamp_dimensions, pattern_url};
use imaginator::cfg::ImageConfig;
use imaginator::download::{decode_url, domain_of, DownloadError};
use imaginator::error::FilterError;
use imaginator::filter::{
    arg_filter, arg_float_img, arg_int, arg_int_img, arg_string, log_filter,
    log_filter_detail, prepare_partial_url, Context, Decimal, FilterArg, ImageGeometry,
    SizeUnit,
};
use imaginator::http::{error_response, method_allowed, request_url};
use imaginator::img::{AlphaChannel, Colorspace, Gravity, ImageFormat};
use imaginator::pipeline::parse;
use imaginator::url::UrlParseError;

fn b(s: &str) -> Vec<u8> {
    s.as_bytes().to_vec()
}

fn geometry() -> ImageGeometry {
    ImageGeometry {
        width: 400,
        height: 200,
        resolution: Some((
            Decimal { mantissa: 100, scale: 0 },
            Decimal { mantissa: 100, scale: 0 },
        )),
    }
}

#[test]
fn one_inch_binds_to_the_horizontal_resolution() {
    let args = vec![FilterArg::Int(1, SizeUnit::HorizontalInches)];
    assert_eq!(arg_int_img(b"w", &args, 0, &geometry()), Ok(100));
}

#[test]
fn half_width_binds_to_half_the_image_width() {
    let args = vec![FilterArg::Float(Decimal { mantissa: 5, scale: 1 }, SizeUnit::Width)];
    assert_eq!(arg_int_img(b"w", &args, 0, &geometry()), Ok(200));
}

#[test]
fn fractional_pixels_are_rejected() {
    let args = vec![FilterArg::Float(Decimal { mantissa: 10, scale: 1 }, SizeUnit::Px)];
    assert_eq!(
        arg_int_img(b"w", &args, 0, &geometry()),
        Err(FilterError::FractionalPixels)
    );
}

#[test]
fn fractional_binding_keeps_the_exact_value() {
    let args = vec![FilterArg::Float(Decimal { mantissa: 5, scale: 1 }, SizeUnit::Width)];
    // half of 400 pixels, exactly: 2000 tenths
    assert_eq!(
        arg_float_img(b"w", &args, 0, &geometry()),
        Ok(Decimal { mantissa: 2000, scale: 1 })
    );
}

#[test]
fn one_centimeter_truncates_to_whole_pixels() {
    let args = vec![FilterArg::Int(1, SizeUnit::HorizontalCentimeters)];
    // 1 cm at 100 dpi is 39.37008 pixels
    assert_eq!(arg_int_img(b"w", &args, 0, &geometry()), Ok(39));
}

#[test]
fn context_free_binders_check_the_shape() {
    let args = vec![FilterArg::Str(b("x")), FilterArg::Int(3, SizeUnit::Px)];
    assert_eq!(arg_string(b"f", &args, 0), Ok(b("x")));
    assert_eq!(
        arg_int(b"f", &args, 1),
        Err(FilterError::BadArgument(1, b("f"), b("a literal integer")))
    );
    assert_eq!(
        arg_filter(b"f", &args, 2),
        Err(FilterError::BadArgument(2, b("f"), b("an image")))
    );
    assert_eq!(
        FilterError::BadArgument(2, b("f"), b("an image")).message(),
        b("Argument 3 to `f` must be an image")
    );
}

#[test]
fn alias_expands_with_the_caller_arguments() {
    let aliases = vec![(b("thumb"), b("resize(a,{0},{0})"))];
    let f = parse(b"thumb(download(x),64)").unwrap();
    let g = apply_filter_aliases(&f, &aliases, true, None).unwrap();
    assert_eq!(g.name, b("resize"));
    assert_eq!(
        g.args,
        vec![
            FilterArg::Str(b("a")),
            FilterArg::Int(64, SizeUnit::NoUnit),
            FilterArg::Int(64, SizeUnit::NoUnit),
        ]
    );
}

#[test]
fn missing_alias_argument_is_an_error() {
    let template = parse(b"resize(a,{1})").unwrap();
    let subst = vec![FilterArg::Int(64, SizeUnit::NoUnit)];
    assert_eq!(
        apply_alias_args(&template, &subst),
        Err(FilterError::MissingAliasArgument(1))
    );
}

#[test]
fn unknown_name_without_builtins_is_refused() {
    let aliases: Vec<(Vec<u8>, Vec<u8>)> = Vec::new();
    let f = parse(b"resize(download(x),1,1)").unwrap();
    // children expand first, so the nested download is refused first
    assert_eq!(
        apply_filter_aliases(&f, &aliases, false, None),
        Err(FilterError::UnknownFilter(b("download")))
    );
    assert!(apply_filter_aliases(&f, &aliases, true, None).is_ok());
}

#[test]
fn domains_rewrite_the_url_prefix() {
    let domains = vec![(b("s3"), b("https://bucket.example/"))];
    assert_eq!(
        decode_url(b"s3:foo/bar", &domains),
        b("https://bucket.example/foo/bar")
    );
    assert_eq!(decode_url(b"missing:x", &domains), b("missing:x"));
    assert_eq!(decode_url(b"nocolon", &domains), b("nocolon"));
    assert_eq!(domain_of(b"s3:foo/bar"), b("s3"));
}

#[test]
fn download_error_carries_status_and_body() {
    let e = DownloadError { url: b("https://x/y.png"), status_code: 404 };
    assert_eq!(e.status_code(), 404);
    assert_eq!(e.content(), b("Url https://x/y.png returned 404."));
}

#[test]
fn only_get_is_allowed() {
    assert!(method_allowed(b"GET"));
    assert!(!method_allowed(b"POST"));
    assert!(!method_allowed(b"HEAD"));
}

#[test]
fn parse_errors_map_to_400_with_their_message() {
    let e = FilterError::Url(UrlParseError::IncompleteUrl);
    let r = error_response(&e);
    assert_eq!(r.status, 400);
    assert_eq!(r.body, b("Incomplete url."));
}

#[test]
fn upstream_failures_keep_their_status_and_name_the_url() {
    let e = FilterError::DownloadFailed(502, b("missing:x"));
    let r = error_response(&e);
    assert_eq!(r.status, 502);
    assert_eq!(r.body, b("Url missing:x returned 502."));
    let backend = FilterError::BackendFailure(b("decode failed"));
    assert_eq!(error_response(&backend).status, 500);
}

#[test]
fn request_url_strips_the_slash_and_keeps_the_query() {
    assert_eq!(
        request_url(b"/resize(download(s3:a.jpg),1,1)", None),
        b("resize(download(s3:a.jpg),1,1)")
    );
    let q = b("v=2");
    assert_eq!(request_url(b"/f()", Some(&q)), b("f()?v=2"));
}

#[test]
fn trace_header_records_filters_and_details() {
    let mut ctx = Context {
        log_filters_header: Some(b("xi")),
        response_headers: Vec::new(),
    };
    log_filter(&mut ctx, b"download");
    log_filter_detail(&mut ctx, b"s3");
    log_filter(&mut ctx, b"resize");
    log_filter(&mut ctx, b"cache");
    log_filter_detail(&mut ctx, b"thumbs");
    assert_eq!(
        ctx.response_headers,
        vec![(b("xi"), b("download(s3),resize,cache(thumbs)"))]
    );
}

#[test]
fn no_trace_header_means_no_logging() {
    let mut ctx = Context { log_filters_header: None, response_headers: Vec::new() };
    log_filter(&mut ctx, b"download");
    assert!(ctx.response_headers.is_empty());
}

#[test]
fn vocabulary_names_fold_case() {
    assert_eq!(AlphaChannel::from_str(b"OFF"), Ok(AlphaChannel::Off));
    assert_eq!(Colorspace::from_str(b"sRGB"), Ok(Colorspace::SRGB));
    assert_eq!(Gravity::from_str(b"south_east"), Ok(Gravity::SouthEast));
    match Colorspace::from_str(b"plaid") {
        Err(e) => assert_eq!(e.0, b("plaid")),
        Ok(v) => panic!("accepted an unknown colorspace as {:?}", v),
    }
}

#[test]
fn image_formats_read_and_describe_themselves() {
    assert_eq!(ImageFormat::from_str(b"jpg"), Ok(ImageFormat::JPEG));
    assert_eq!(ImageFormat::from_str(b"TIF"), Ok(ImageFormat::TIFF));
    assert_eq!(ImageFormat::JPEG.magick_str(), "JPEG");
    assert_eq!(ImageFormat::TIFF.magick_str(), "TIF");
    assert_eq!(ImageFormat::PNG.content_type(), "image/png");
    let cfg = ImageConfig {
        max_width: None,
        max_height: None,
        supported_formats: Some(vec![ImageFormat::PNG]),
    };
    assert!(cfg.format_supported(&ImageFormat::PNG));
    assert!(!cfg.format_supported(&ImageFormat::JPEG));
}

#[test]
fn zero_dimensions_fill_from_the_aspect_ratio() {
    // a 400x200 source: height 50 gives width 100
    assert_eq!(clamp_dimensions(0, 50, None, None, 400, 200), (100, 50));
    assert_eq!(clamp_dimensions(300, 0, None, None, 400, 200), (300, 150));
    assert_eq!(
        clamp_dimensions(900, 50, Some(800), None, 400, 200),
        (800, 50)
    );
}

#[test]
fn pattern_rebuilds_its_reentry_text() {
    assert_eq!(
        pattern_url(400, 200, 100, 50),
        b("fit-in(100,50):extend(0,0,400,200):repeat(4,4,100,50)")
    );
}

#[test]
fn partial_url_reentry_splices_the_image() {
    let f = prepare_partial_url(7, b"fit-in(2,2):extend(0,0,4,4)").unwrap();
    assert_eq!(f.name, b("extend"));
    match &f.args[0] {
        FilterArg::Img(inner) => {
            assert_eq!(inner.name, b("fit-in"));
            assert_eq!(inner.args[0], FilterArg::ResolvedImg(7));
        }
        other => panic!("expected the nested call, got {:?}", other),
    }
}

#[test]
fn data_too_big_message_names_both_sizes() {
    assert_eq!(
        FilterError::DataTooBig(11, 10).message(),
        b("Data is too big to insert into the cache. 11 bytes > 10 bytes of capacity")
    );
    assert_eq!(
        FilterError::UnknownFilter(b("nope")).message(),
        b("no such filter: nope")
    );
}

#[test]
fn huge_products_leave_the_pixel_range() {
    let args = vec![FilterArg::Int(9_000_000_000_000_000_000, SizeUnit::Width)];
    assert_eq!(
        arg_int_img(b"w", &args, 0, &geometry()),
        Err(FilterError::ValueOutOfRange)
    );
}

#[test]
fn every_error_kind_renders_a_message() {
    let b = |s: &str| s.as_bytes().to_vec();
    assert_eq!(
        FilterError::UnknownEnumValue(b("colorspace"), b("plaid")).message(),
        b("Unknown colorspace: plaid")
    );
    assert_eq!(
        FilterError::UnsupportedFormat(b("BMP")).message(),
        b("Unsupported image format: BMP")
    );
    assert_eq!(FilterError::NotInCache.message(), b("The file is not in cache"));
    assert_eq!(
        FilterError::NoSuchCache(b("thumbs")).message(),
        b("No such cache: thumbs")
    );
    assert_eq!(FilterError::IoFailure.message(), b("Input or output failed"));
    assert_eq!(
        FilterError::CannotLogFilter(b("resize")).message(),
        b("Can't log usage of filter resize")
    );
    assert_eq!(
        FilterError::MissingAliasArgument(2).message(),
        b("Missing alias argument 2")
    );
    assert_eq!(
        FilterError::FractionalPixels.message(),
        b("Unit px does not support fractional values.")
    );
}

#[test]
fn size_units_read_their_tokens() {
    assert_eq!(SizeUnit::from_str(b""), Ok(SizeUnit::NoUnit));
    assert_eq!(SizeUnit::from_str(b"hcm"), Ok(SizeUnit::HorizontalCentimeters));
    assert!(SizeUnit::from_str(b"zz").is_err());
}
