use imaginator::filter::{Filter, FilterArg, SizeUnit};
use imaginator::pipeline::{parse, render};
use imaginator::url::UrlParseError;

fn b(s: &str) -> Vec<u8> {
    s.as_bytes().to_vec()
}

#[test]
fn test_simple_filter() {
    assert_eq!(
        parse(b"download(s3:2666/img.jpg)").unwrap(),
        Filter {
            name: b("download"),
            args: vec![FilterArg::Str(b("s3:2666/img.jpg"))],
        }
    );
}

#[test]
fn test_nested_filter() {
    assert_eq!(
        parse(b"resize(download(s3:2666/img.jpg),100,200)").unwrap(),
        Filter {
            name: b("resize"),
            args: vec![
                FilterArg::Img(Filter {
                    name: b("download"),
                    args: vec![FilterArg::Str(b("s3:2666/img.jpg"))],
                }),
                FilterArg::Int(100, SizeUnit::NoUnit),
                FilterArg::Int(200, SizeUnit::NoUnit),
            ],
        }
    );
}

#[test]
fn outer_args_of_nested_tree() {
    let f = parse(b"resize(download(s3:img.jpg),100,200)").unwrap();
    assert_eq!(f.name, b("resize"));
    assert_eq!(f.args.len(), 3);
    assert_eq!(f.args[1], FilterArg::Int(100, SizeUnit::NoUnit));
    assert_eq!(f.args[2], FilterArg::Int(200, SizeUnit::NoUnit));
    match &f.args[0] {
        FilterArg::Img(inner) => {
            assert_eq!(inner.name, b("download"));
            assert_eq!(inner.args, vec![FilterArg::Str(b("s3:img.jpg"))]);
        }
        other => panic!("expected a nested call, got {:?}", other),
    }
}

#[test]
fn chain_nests_left_into_right() {
    assert_eq!(parse(b"a():b():c()").unwrap(), parse(b"c(b(a()))").unwrap());
}

#[test]
fn unbalanced_parenthesis_is_a_parse_error() {
    match parse(b"download(s3:a(b)") {
        Err(UrlParseError::ParseError(_)) => {}
        other => panic!("expected a parse error, got {:?}", other),
    }
}

#[test]
fn close_paren_at_depth_zero_without_text_is_a_parse_error() {
    match parse(b"f(,)") {
        Err(UrlParseError::ParseError(_)) => {}
        other => panic!("expected a parse error, got {:?}", other),
    }
}

#[test]
fn empty_input_is_incomplete() {
    assert_eq!(parse(b""), Err(UrlParseError::IncompleteUrl));
}

#[test]
fn leftover_input_is_remaining_data() {
    assert_eq!(
        parse(b"f()/name/extra"),
        Err(UrlParseError::RemainingData(b("/extra")))
    );
}

#[test]
fn trailing_segment_is_ignored() {
    assert_eq!(parse(b"f()/pretty-name.jpg").unwrap(), parse(b"f()").unwrap());
}

#[test]
fn units_parse_on_ints_and_floats() {
    let f = parse(b"f(1hin,0.5w,2px,3vcm)").unwrap();
    assert_eq!(f.args[0], FilterArg::Int(1, SizeUnit::HorizontalInches));
    match f.args[1] {
        FilterArg::Float(d, SizeUnit::Width) => {
            assert_eq!(d.mantissa, 5);
            assert_eq!(d.scale, 1);
        }
        ref other => panic!("expected a float, got {:?}", other),
    }
    assert_eq!(f.args[2], FilterArg::Int(2, SizeUnit::Px));
    assert_eq!(f.args[3], FilterArg::Int(3, SizeUnit::VerticalCentimeters));
}

#[test]
fn negative_numbers_parse() {
    let f = parse(b"f(-5,-0.25h)").unwrap();
    assert_eq!(f.args[0], FilterArg::Int(-5, SizeUnit::NoUnit));
    match f.args[1] {
        FilterArg::Float(d, SizeUnit::Height) => {
            assert_eq!(d.mantissa, -25);
            assert_eq!(d.scale, 2);
        }
        ref other => panic!("expected a float, got {:?}", other),
    }
}

#[test]
fn strings_keep_nested_parentheses_and_commas() {
    let f = parse(b"f(http://x/a(b,c)d)").unwrap();
    assert_eq!(f.args, vec![FilterArg::Str(b("http://x/a(b,c)d"))]);
}

#[test]
fn render_then_parse_round_trips() {
    let cases: &[&str] = &[
        "download(s3:2666/img.jpg)",
        "resize(download(s3:img.jpg),100,200)",
        "fit-in(download(https:example.com/a.png),100,0)",
        "f(1hin,0.5w,2px,-3,4.25vin)",
        "outer(inner(a:b),x,9w)",
    ];
    for case in cases {
        let parsed = parse(case.as_bytes()).unwrap();
        let text = render(&parsed);
        assert_eq!(text, case.as_bytes().to_vec());
        assert_eq!(parse(&text).unwrap(), parsed);
    }
}
