use safe_fluent::codec::{decode_headers, encode_frame, Decoded, Header, LanguageServerCodec};
use safe_fluent::error::ParseError;

fn header(name: &str, value: &str) -> Header {
    Header { name: name.to_string(), value: value.as_bytes().to_vec() }
}

#[test]
fn frame_has_length_in_bytes() {
    assert_eq!("Content-Length: 2\r\n\r\n{}", encode_frame("{}"));
    assert_eq!("Content-Length: 4\r\n\r\n\"é\"", encode_frame("\"é\""));
    assert_eq!("Content-Length: 0\r\n\r\n", encode_frame(""));
}

#[test]
fn decode_whole_frame() {
    let mut codec = LanguageServerCodec::new();
    let src = b"Content-Length: 2\r\n\r\n{}";
    let step = codec.decode(src);
    assert_eq!(23, step.advance);
    assert!(matches!(step.decoded, Decoded::Body(21, 23)));
}

#[test]
fn decode_waits_for_headers() {
    let mut codec = LanguageServerCodec::new();
    let step = codec.decode(b"Content-Len");
    assert_eq!(0, step.advance);
    assert!(matches!(step.decoded, Decoded::NeedMore));
}

#[test]
fn decode_waits_for_body_after_headers() {
    let mut codec = LanguageServerCodec::new();
    let step = codec.decode(b"Content-Length: 5\r\n\r\nab");
    assert_eq!(21, step.advance);
    assert!(matches!(step.decoded, Decoded::NeedMore));
    let step = codec.decode(b"ab");
    assert_eq!(0, step.advance);
    assert!(matches!(step.decoded, Decoded::NeedMore));
    let step = codec.decode(b"abcde");
    assert_eq!(5, step.advance);
    assert!(matches!(step.decoded, Decoded::Body(0, 5)));
}

#[test]
fn empty_body_is_no_message() {
    let mut codec = LanguageServerCodec::new();
    let step = codec.decode(b"Content-Length: 0\r\n\r\n");
    assert_eq!(21, step.advance);
    assert!(matches!(step.decoded, Decoded::Empty));
}

#[test]
fn body_must_be_utf8() {
    let mut codec = LanguageServerCodec::new();
    let step = codec.decode(b"Content-Length: 1\r\n\r\n\xff");
    assert_eq!(21, step.advance);
    assert!(matches!(step.decoded, Decoded::Failed(ParseError::Utf8(_))));
    let step = codec.decode(b"\xff");
    assert_eq!(0, step.advance);
    assert!(matches!(step.decoded, Decoded::Failed(ParseError::Utf8(_))));
}

#[test]
fn missing_length_skips_to_next_frame() {
    let mut codec = LanguageServerCodec::new();
    let src = b"Foo: bar\r\n\r\nxxContent-Length: 1\r\n\r\nx";
    let step = codec.decode(src);
    assert!(matches!(step.decoded, Decoded::Failed(ParseError::MissingContentLength)));
    assert_eq!(14, step.advance);
}

#[test]
fn missing_length_without_next_frame() {
    let mut codec = LanguageServerCodec::new();
    let step = codec.decode(b"Foo: bar\r\n\r\n");
    assert!(matches!(step.decoded, Decoded::Failed(ParseError::MissingContentLength)));
    assert_eq!(0, step.advance);
}

#[test]
fn bad_content_type_skips_headers_and_garbage() {
    let mut codec = LanguageServerCodec::new();
    let src = b"Content-Type: text/plain\r\n\r\nzzContent-Length: 1\r\n\r\nx";
    let step = codec.decode(src);
    assert!(matches!(step.decoded, Decoded::Failed(ParseError::InvalidContentType)));
    assert_eq!(28 + 2, step.advance);
}

#[test]
fn bad_length_is_reported() {
    let mut codec = LanguageServerCodec::new();
    let step = codec.decode(b"Content-Length: x1\r\n\r\n");
    assert!(matches!(step.decoded, Decoded::Failed(ParseError::InvalidContentLength(_))));
    assert_eq!(22, step.advance);
}

#[test]
fn too_many_headers_is_a_header_error() {
    let mut codec = LanguageServerCodec::new();
    let step = codec.decode(b"A: 1\r\nB: 2\r\nC: 3\r\n\r\n");
    assert!(matches!(step.decoded, Decoded::Failed(ParseError::Headers(_))));
    assert_eq!(0, step.advance);
}

#[test]
fn headers_give_length() {
    let hs = vec![header("Content-Type", "application/vscode-jsonrpc; charset=utf-8"), header("Content-Length", "42")];
    assert!(matches!(decode_headers(&hs), Ok(42)));
    let plus = vec![header("Content-Length", "+7")];
    assert!(matches!(decode_headers(&plus), Ok(7)));
}

#[test]
fn last_length_wins() {
    let hs = vec![header("Content-Length", "1"), header("Content-Length", "2")];
    assert!(matches!(decode_headers(&hs), Ok(2)));
}

#[test]
fn charset_spellings() {
    let ok = vec![header("Content-Type", "a/b;  charset=utf8 "), header("Content-Length", "1")];
    assert!(matches!(decode_headers(&ok), Ok(1)));
    let first_wins = vec![header("Content-Type", "a/b; charset=latin1; charset=utf-8"), header("Content-Length", "1")];
    assert!(matches!(decode_headers(&first_wins), Err(ParseError::InvalidContentType)));
    let none = vec![header("Content-Type", "charset=utf-8"), header("Content-Length", "1")];
    assert!(matches!(decode_headers(&none), Err(ParseError::InvalidContentType)));
    let upper = vec![header("Content-Type", "a/b; charset=UTF-8")];
    assert!(matches!(decode_headers(&upper), Err(ParseError::InvalidContentType)));
}

#[test]
fn header_errors() {
    assert!(matches!(decode_headers(&vec![]), Err(ParseError::MissingContentLength)));
    assert!(matches!(decode_headers(&vec![header("X", "y")]), Err(ParseError::MissingContentLength)));
    assert!(matches!(decode_headers(&vec![header("Content-Length", "-1")]), Err(ParseError::InvalidContentLength(_))));
    assert!(matches!(decode_headers(&vec![header("Content-Length", "")]), Err(ParseError::InvalidContentLength(_))));
    let bad = Header { name: "Content-Length".to_string(), value: vec![0xff] };
    assert!(matches!(decode_headers(&vec![bad]), Err(ParseError::Utf8(_))));
    let huge = vec![header("Content-Length", "99999999999999999999999")];
    assert!(matches!(decode_headers(&huge), Err(ParseError::InvalidContentLength(_))));
}

#[test]
fn frame_roundtrip() {
    for msg in ["{\"jsonrpc\":\"2.0\",\"method\":\"exit\"}", "\"ünïcode\"", ""] {
        let frame = encode_frame(msg);
        let bytes = frame.as_bytes();
        let mut codec = LanguageServerCodec::new();
        let step = codec.decode(bytes);
        assert_eq!(bytes.len(), step.advance);
        match step.decoded {
            Decoded::Body(s, e) => assert_eq!(msg.as_bytes(), &bytes[s..e]),
            Decoded::Empty => assert!(msg.is_empty()),
            _ => panic!("expected the message back"),
        }
    }
}

#[test]
fn charset_parameter_trims_unicode_white_space() {
    let ideographic = vec![header("Content-Type", "a/b;\u{3000}charset=utf-8\u{a0}"), header("Content-Length", "3")];
    assert!(matches!(decode_headers(&ideographic), Ok(3)));
    let not_space = vec![header("Content-Type", "a/b;\u{200b}charset=utf-8"), header("Content-Length", "3")];
    assert!(matches!(decode_headers(&not_space), Err(ParseError::InvalidContentType)));
}
