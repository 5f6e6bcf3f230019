use httpr::encoding::{get_encoding_from_case_insensitive_headers, get_encoding_from_content};
use httpr::headers::CaseInsensitiveHeaderMap;

#[test]
fn test_get_encoding_from_case_insensitive_headers() {
    // Test case: Content-Type header with charset specified
    let mut headers = CaseInsensitiveHeaderMap::create();
    headers.insert(
        String::from("Content-Type"),
        String::from("text/html;charset=UTF-8"),
    );
    assert_eq!(
        get_encoding_from_case_insensitive_headers(&headers),
        Some("utf-8".to_string())
    );

    // Test case: Content-Type header without charset specified
    headers = CaseInsensitiveHeaderMap::create();
    headers.insert(String::from("Content-Type"), String::from("text/plain"));
    assert_eq!(get_encoding_from_case_insensitive_headers(&headers), None);

    // Test case: Missing Content-Type header
    let headers = CaseInsensitiveHeaderMap::create();
    assert_eq!(get_encoding_from_case_insensitive_headers(&headers), None);

    // Test case: Content-Type header with application/json
    let mut headers = CaseInsensitiveHeaderMap::create();
    headers.insert(
        String::from("Content-Type"),
        String::from("application/json"),
    );
    assert_eq!(
        get_encoding_from_case_insensitive_headers(&headers),
        Some("utf-8".to_string())
    );
}

#[test]
fn test_get_encoding_from_content_present_charset() {
    let raw_html = b"<html><head><meta charset=windows1252\"></head></html>";
    assert_eq!(
        get_encoding_from_content(raw_html),
        Some("windows1252".to_string())
    );
}

#[test]
fn test_get_encoding_from_content_present_charset2() {
    let raw_html = b"<html><head><meta charset=\"windows1251\"></head></html>";
    assert_eq!(
        get_encoding_from_content(raw_html),
        Some("windows1251".to_string())
    );
}

#[test]
fn test_get_encoding_from_content_present_charset3() {
    let raw_html =
        b"<html><head><meta charset=\"UTF-8\" src=\"https://www.gstatic.com/\" ></head></html>";
    assert_eq!(
        get_encoding_from_content(raw_html),
        Some("utf-8".to_string())
    );
}

#[test]
fn test_get_encoding_from_content_missing_charset() {
    let raw_html = b"<html><head></head></html>";
    assert_eq!(get_encoding_from_content(raw_html), None);
}

#[test]
fn charset_parameter_is_case_insensitive_and_lowercased() {
    let mut headers = CaseInsensitiveHeaderMap::create();
    headers.insert(
        String::from("content-type"),
        String::from("text/html; CHARSET=UTF-8"),
    );
    assert_eq!(
        get_encoding_from_case_insensitive_headers(&headers),
        Some("utf-8".to_string())
    );
}

#[test]
fn charset_parameter_may_be_quoted() {
    let mut headers = CaseInsensitiveHeaderMap::create();
    headers.insert(
        String::from("Content-Type"),
        String::from("text/html; charset=\"ISO-8859-2\""),
    );
    assert_eq!(
        get_encoding_from_case_insensitive_headers(&headers),
        Some("iso-8859-2".to_string())
    );
}

#[test]
fn content_marker_only_within_first_2048_bytes() {
    let mut body = vec![b' '; 2048];
    body.extend_from_slice(b"charset=koi8-r ");
    assert_eq!(get_encoding_from_content(&body), None);

    let mut early = vec![b' '; 10];
    early.extend_from_slice(b"charset=koi8-r ");
    assert_eq!(get_encoding_from_content(&early), Some("koi8-r".to_string()));
}
