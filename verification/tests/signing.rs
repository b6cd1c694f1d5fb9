use imaginator::filter::FilterArg;
use imaginator::hashes::{hmac_sha1, sign};
use imaginator::url::{check_signature, parse, percent_decode, sign_then_check, UrlParseError};

fn b(s: &str) -> Vec<u8> {
    s.as_bytes().to_vec()
}

#[test]
fn hmac_sha1_known_vector() {
    // HMAC-SHA1 with key "Jefe" over "what do ya want for nothing?"
    let code = hmac_sha1(b"Jefe", b"what do ya want for nothing?");
    let expected: Vec<u8> = vec![
        0xef, 0xfc, 0xdf, 0x6a, 0xe5, 0xeb, 0x2f, 0xa2, 0xd2, 0x74, 0x16, 0xd5, 0xf1, 0x84,
        0xdf, 0x9c, 0x25, 0x9a, 0x7c, 0x79,
    ];
    assert_eq!(code, expected);
}

#[test]
fn sign_is_base64_of_the_mac() {
    let sig = sign(b"Jefe", b"what do ya want for nothing?");
    assert_eq!(sig, b("7_zfauXrL6LSdBbV8YTfnCWafHk="));
    assert_eq!(sig.len(), 28);
}

#[test]
fn signing_then_checking_accepts() {
    let secret = b("sesame");
    assert!(sign_then_check(&secret, b"resize(download(s3:a.jpg),10,10)"));
}

#[test]
fn flipped_signature_bit_rejects() {
    let secret = b("sesame");
    let rest = b"resize(download(s3:a.jpg),10,10)";
    let mut sig = sign(&secret, rest);
    assert!(check_signature(&sig, rest, Some(&secret)));
    sig[0] ^= 0x04;
    assert!(!check_signature(&sig, rest, Some(&secret)));
}

#[test]
fn flipped_body_bit_rejects() {
    let secret = b("sesame");
    let rest = b"resize(download(s3:a.jpg),10,10)".to_vec();
    let sig = sign(&secret, &rest);
    let mut other = rest.clone();
    other[0] ^= 0x01;
    assert!(!check_signature(&sig, &other, Some(&secret)));
}

#[test]
fn no_secret_accepts_any_wellformed_prefix() {
    let rest = b"f()";
    let sig = sign(b"whatever", rest);
    assert!(check_signature(&sig, rest, None));
}

#[test]
fn signed_url_parses_with_secret() {
    let secret = b("sesame");
    let rest = "resize(download(s3:a.jpg),10,10)";
    let mut input = String::from_utf8(sign(&secret, rest.as_bytes())).unwrap();
    input.push('/');
    input.push_str(rest);
    let parsed = parse(input.as_bytes(), Some(&secret)).unwrap();
    assert_eq!(parsed.name, b("resize"));
}

#[test]
fn bad_signature_is_invalid_signature() {
    let secret = b("sesame");
    let rest = "resize(download(s3:a.jpg),10,10)";
    let mut input = String::from_utf8(sign(b"other-key", rest.as_bytes())).unwrap();
    input.push('/');
    input.push_str(rest);
    assert_eq!(
        parse(input.as_bytes(), Some(&secret)),
        Err(UrlParseError::InvalidSignature)
    );
}

#[test]
fn unsigned_url_parses_without_prefix() {
    let secret = b("sesame");
    let parsed = parse(b"download(s3:a.jpg)", Some(&secret)).unwrap();
    assert_eq!(parsed.name, b("download"));
}

#[test]
fn percent_escapes_decode_before_parsing() {
    // an encoded comma inside parentheses stays inside the argument
    let parsed = parse(b"f(http%3A//x/a(b%2Cc))", None).unwrap();
    assert_eq!(parsed.args, vec![FilterArg::Str(b("http://x/a(b,c)"))]);
}

#[test]
fn truncated_percent_escape_is_a_decoding_error() {
    assert_eq!(percent_decode(b"abc%2"), Err(UrlParseError::UrlDecodingError));
    assert_eq!(percent_decode(b"abc%zz"), Err(UrlParseError::UrlDecodingError));
    assert_eq!(percent_decode(b"a%2Fb").unwrap(), b("a/b"));
}

#[test]
fn url_error_messages_are_fixed() {
    assert_eq!(UrlParseError::IncompleteUrl.message(), b("Incomplete url."));
    assert_eq!(
        UrlParseError::InvalidSignature.message(),
        b("Invalid signature.")
    );
    assert_eq!(
        UrlParseError::RemainingData(b("/x")).message(),
        b("Url parse error. Unparsed data: /x")
    );
}
