use httpr::request::{encode_structured, RequestBody};
use httpr::errors::ErrorKind;
use httpr::headers::CaseInsensitiveHeaderMap;
use httpr::maps::StringMap;
use httpr::response::Response;
use httpr::stream::{LineIterator, StreamError, StreamingResponse};

fn stream_over(chunks: Vec<Vec<u8>>) -> StreamingResponse {
    StreamingResponse::new_buffered(
        200,
        "http://example.test/s".to_string(),
        CaseInsensitiveHeaderMap::new(),
        StringMap::new(),
        chunks,
    )
}

fn buffered(content: Vec<u8>) -> Response {
    Response {
        content,
        cookies: StringMap::new(),
        encoding: String::new(),
        headers: CaseInsensitiveHeaderMap::new(),
        status_code: 200,
        url: "http://example.test/r".to_string(),
    }
}

#[test]
fn chunks_come_back_in_order_then_consume() {
    let mut sr = stream_over(vec![b"ab".to_vec(), b"cd".to_vec()]);
    assert_eq!(sr.next_chunk(), Ok(Some(b"ab".to_vec())));
    assert_eq!(sr.next_chunk(), Ok(Some(b"cd".to_vec())));
    assert_eq!(sr.next_chunk(), Ok(None));
    assert_eq!(sr.next_chunk(), Err(StreamError::Consumed));
}

#[test]
fn read_after_full_iteration_fails_consumed() {
    let mut sr = stream_over(vec![b"ab".to_vec()]);
    while let Ok(Some(_)) = sr.next_chunk() {}
    assert_eq!(sr.read(), Err(StreamError::Consumed));
}

#[test]
fn read_takes_the_whole_body_once() {
    let mut sr = stream_over(vec![b"ab".to_vec(), b"cd".to_vec(), b"e".to_vec()]);
    assert_eq!(sr.read(), Ok(b"abcde".to_vec()));
    assert_eq!(sr.read(), Err(StreamError::Consumed));
    assert_eq!(sr.next_chunk(), Err(StreamError::Consumed));
}

#[test]
fn close_is_idempotent_and_halts_everything() {
    let mut sr = stream_over(vec![b"ab".to_vec()]);
    sr.close();
    sr.close();
    assert_eq!(sr.next_chunk(), Err(StreamError::Closed));
    assert_eq!(sr.read(), Err(StreamError::Closed));
    let mut it = LineIterator::new();
    assert_eq!(it.next_line(&mut sr), Err(StreamError::Closed));
}

#[test]
fn lines_assemble_across_chunk_boundaries() {
    let mut sr = stream_over(vec![b"a\nb".to_vec(), b"c\n".to_vec()]);
    let mut it = LineIterator::new();
    assert_eq!(it.next_line(&mut sr), Ok(Some("a\n".to_string())));
    assert_eq!(it.next_line(&mut sr), Ok(Some("bc\n".to_string())));
    assert_eq!(it.next_line(&mut sr), Ok(None));
}

#[test]
fn final_line_without_newline_is_delivered_once() {
    let mut sr = stream_over(vec![b"one\ntwo".to_vec()]);
    let mut it = LineIterator::new();
    assert_eq!(it.next_line(&mut sr), Ok(Some("one\n".to_string())));
    assert_eq!(it.next_line(&mut sr), Ok(Some("two".to_string())));
    assert_eq!(it.next_line(&mut sr), Ok(None));
    assert_eq!(it.next_line(&mut sr), Ok(None));
}

#[test]
fn text_chunks_decode_with_the_header_charset() {
    let mut headers = CaseInsensitiveHeaderMap::new();
    headers.insert(
        "Content-Type".to_string(),
        "text/plain; charset=windows-1251".to_string(),
    );
    let mut sr = StreamingResponse::new_buffered(
        200,
        "http://example.test/s".to_string(),
        headers,
        StringMap::new(),
        vec![vec![0xE6, 0xE8]],
    );
    assert_eq!(sr.encoding, "windows-1251");
    assert_eq!(sr.next_text(), Ok(Some("жи".to_string())));
    assert_eq!(sr.next_text(), Ok(None));
}

#[test]
fn unknown_charset_falls_back_to_utf8_for_streams() {
    let mut headers = CaseInsensitiveHeaderMap::new();
    headers.insert(
        "Content-Type".to_string(),
        "text/plain; charset=x-no-such-charset".to_string(),
    );
    let mut sr = StreamingResponse::new_buffered(
        200,
        "http://example.test/s".to_string(),
        headers,
        StringMap::new(),
        vec![vec![b'h', b'i', 0xFF]],
    );
    assert_eq!(sr.encoding, "x-no-such-charset");
    assert_eq!(sr.next_text(), Ok(Some("hi\u{FFFD}".to_string())));
}

#[test]
fn response_text_decodes_and_refines_the_encoding() {
    let mut headers = CaseInsensitiveHeaderMap::new();
    headers.insert(
        "Content-Type".to_string(),
        "text/plain; charset=windows-1251".to_string(),
    );
    let mut r = buffered(vec![0xE6]);
    r.headers = headers;
    let text = r.text().unwrap();
    assert_eq!(text, "ж");
    assert_eq!(r.encoding, "windows-1251");
}

#[test]
fn response_text_rejects_an_unsupported_charset() {
    let mut r = buffered(b"abc".to_vec());
    r.encoding = "x-no-such-charset".to_string();
    assert_eq!(r.text(), Err(ErrorKind::DecodingError));
}

#[test]
fn response_encoding_resolution_is_cached() {
    let mut r = buffered(b"<html><meta charset=\"koi8-r\"></html>".to_vec());
    assert_eq!(r.get_encoding(), "koi8-r");
    assert_eq!(r.encoding, "koi8-r");
    let mut plain = buffered(b"no marker here".to_vec());
    assert_eq!(plain.get_encoding(), "utf-8");
    let mut preset = buffered(b"x".to_vec());
    preset.encoding = "latin1".to_string();
    assert_eq!(preset.get_encoding(), "latin1");
}

#[test]
fn json_round_trip_preserves_the_value() {
    let mut inner = serde_json::Map::new();
    inner.insert("s".to_string(), serde_json::Value::String("v".to_string()));
    inner.insert("n".to_string(), serde_json::Value::from(42u64));
    inner.insert(
        "a".to_string(),
        serde_json::Value::Array(vec![
            serde_json::Value::Bool(true),
            serde_json::Value::Null,
        ]),
    );
    let value = serde_json::Value::Object(inner);
    let bytes =
        encode_structured(&RequestBody::Json(value.clone())).expect("a structured body has bytes");
    let r = buffered(bytes);
    let back = r.json().unwrap();
    assert_eq!(back, value);
}

#[test]
fn malformed_json_is_a_decoding_error() {
    let r = buffered(b"{\"open\":".to_vec());
    assert!(matches!(r.json(), Err(ErrorKind::DecodingError)));
}

#[test]
fn html_renderings_extract_the_text() {
    let r = buffered(b"<html><body><p>hello there</p></body></html>".to_vec());
    let md = r.text_markdown().unwrap();
    assert!(md.contains("hello there"));
    assert!(!md.contains("<p>"));
    let plain = r.text_plain().unwrap();
    assert!(plain.contains("hello there"));
    let rich = r.text_rich().unwrap();
    assert!(rich.contains("hello there"));
}

#[test]
fn fed_lines_pop_in_order_with_remainder() {
    let mut it = LineIterator::new();
    assert_eq!(it.pop_line(), None);
    it.feed("a\nb");
    assert_eq!(it.pop_line(), Some("a\n".to_string()));
    assert_eq!(it.pop_line(), None);
    it.feed("c\n");
    assert_eq!(it.pop_line(), Some("bc\n".to_string()));
    assert_eq!(it.pop_line(), None);
    it.feed("tail");
    assert_eq!(it.take_remainder(), Some("tail".to_string()));
    assert_eq!(it.take_remainder(), None);
}

#[test]
fn stream_resolves_encoding_from_headers_only() {
    let sr = stream_over(vec![b"<meta charset=\"koi8-r\">".to_vec()]);
    assert_eq!(sr.encoding, "utf-8");
}
