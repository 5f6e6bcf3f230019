use httpr::headers::CaseInsensitiveHeaderMap;
use httpr::maps::{CookiesTraits, StringMap};
use httpr::request::{
    build_request, AuthScheme, BuildError, ClientDefaults, Method, RequestBody,
    RequestDescription,
};

fn base_description(method: &str) -> RequestDescription {
    RequestDescription {
        method: method.to_string(),
        url: "http://example.test/x".to_string(),
        params: None,
        headers: None,
        cookies: None,
        content: None,
        form: None,
        json: None,
        files: None,
        auth: None,
        auth_bearer: None,
        timeout_millis: None,
    }
}

fn sample_json() -> serde_json::Value {
    let mut map = serde_json::Map::new();
    map.insert("k".to_string(), serde_json::Value::String("v".to_string()));
    serde_json::Value::Object(map)
}

#[test]
fn header_lookup_is_case_insensitive() {
    let mut h = CaseInsensitiveHeaderMap::new();
    h.insert("X-Custom-Header".to_string(), "one".to_string());
    assert_eq!(h.get_value("x-custom-header"), Some("one".to_string()));
    assert_eq!(h.get_value("X-CUSTOM-HEADER"), Some("one".to_string()));
    assert_eq!(h.get_value("X-Custom-Header"), Some("one".to_string()));
    assert!(h.contains_key("x-CUSTOM-header"));
    assert_eq!(h.get_value("missing"), None);
    assert_eq!(h.get("missing", Some("fallback".to_string())), "fallback");
    assert_eq!(h.get("missing", None), "");
}

#[test]
fn header_insert_overwrites_in_place_and_keeps_order() {
    let mut h = CaseInsensitiveHeaderMap::new();
    h.insert("Alpha".to_string(), "1".to_string());
    h.insert("Beta".to_string(), "2".to_string());
    h.insert("ALPHA".to_string(), "3".to_string());
    assert_eq!(h.keys(), vec!["ALPHA".to_string(), "Beta".to_string()]);
    assert_eq!(h.values(), vec!["3".to_string(), "2".to_string()]);
    assert_eq!(h.get_value("alpha"), Some("3".to_string()));
    assert_eq!(h.len(), 2);
}

#[test]
fn cookie_map_serializes_in_insertion_order() {
    let mut c = StringMap::new();
    c.insert("ck1".to_string(), "cv1".to_string());
    c.insert("ck2".to_string(), "cv2".to_string());
    assert_eq!(c.to_string(), "ck1=cv1; ck2=cv2");
    let empty = StringMap::new();
    assert_eq!(empty.to_string(), "");
}

#[test]
fn string_map_insert_replaces_exact_keys_only() {
    let mut m = StringMap::new();
    m.insert("a".to_string(), "1".to_string());
    m.insert("A".to_string(), "2".to_string());
    m.insert("a".to_string(), "3".to_string());
    assert_eq!(m.get("a"), Some("3".to_string()));
    assert_eq!(m.get("A"), Some("2".to_string()));
    assert_eq!(m.len(), 2);
}

#[test]
fn method_tokens_parse_exactly() {
    assert_eq!(Method::parse("GET"), Some(Method::Get));
    assert_eq!(Method::parse("POST"), Some(Method::Post));
    assert_eq!(Method::parse("PATCH"), Some(Method::Patch));
    assert_eq!(Method::parse("get"), None);
    assert_eq!(Method::parse("FETCH"), None);
}

#[test]
fn form_beats_json_on_post() {
    let mut desc = base_description("POST");
    let mut form = StringMap::new();
    form.insert("f".to_string(), "1".to_string());
    desc.form = Some(form);
    desc.json = Some(sample_json());
    let t = build_request(desc, ClientDefaults::new()).unwrap();
    match t.body {
        RequestBody::Form(pairs) => {
            assert_eq!(pairs, vec![("f".to_string(), "1".to_string())]);
        }
        _ => panic!("the form map must win over the structured value"),
    }
}

#[test]
fn raw_bytes_beat_everything() {
    let mut desc = base_description("PUT");
    desc.content = Some(b"raw".to_vec());
    let mut form = StringMap::new();
    form.insert("f".to_string(), "1".to_string());
    desc.form = Some(form);
    desc.json = Some(sample_json());
    let t = build_request(desc, ClientDefaults::new()).unwrap();
    assert!(matches!(t.body, RequestBody::Bytes(b) if b == b"raw".to_vec()));
}

#[test]
fn body_fields_are_ignored_on_get() {
    let mut desc = base_description("GET");
    desc.content = Some(b"raw".to_vec());
    desc.json = Some(sample_json());
    let t = build_request(desc, ClientDefaults::new()).unwrap();
    assert!(matches!(t.body, RequestBody::Empty));
}

#[test]
fn json_goes_as_cbor_when_accept_asks_for_it() {
    let mut desc = base_description("POST");
    let mut headers = CaseInsensitiveHeaderMap::new();
    headers.insert("Accept".to_string(), "application/cbor".to_string());
    desc.headers = Some(headers);
    desc.json = Some(sample_json());
    let t = build_request(desc, ClientDefaults::new()).unwrap();
    assert!(matches!(t.body, RequestBody::Cbor(_)));
    let ct: Vec<&(String, String)> = t
        .headers
        .iter()
        .filter(|p| p.0.eq_ignore_ascii_case("content-type"))
        .collect();
    assert_eq!(ct.len(), 1);
    assert_eq!(ct[0].1, "application/cbor");
}

#[test]
fn cbor_body_round_trips_through_the_encoder() {
    let mut desc = base_description("POST");
    let mut headers = CaseInsensitiveHeaderMap::new();
    headers.insert("Accept".to_string(), "application/cbor".to_string());
    desc.headers = Some(headers);
    desc.json = Some(sample_json());
    let t = build_request(desc, ClientDefaults::new()).unwrap();
    let bytes =
        httpr::request::encode_structured(&t.body).expect("a structured body has bytes");
    let back: serde_json::Value = serde_cbor::from_slice(&bytes).unwrap();
    assert_eq!(back, sample_json());
}

#[test]
fn json_goes_as_json_without_cbor_accept() {
    let mut desc = base_description("POST");
    desc.json = Some(sample_json());
    let t = build_request(desc, ClientDefaults::new()).unwrap();
    assert!(matches!(t.body, RequestBody::Json(_)));
}

#[test]
fn unknown_method_is_a_build_error() {
    let desc = base_description("FETCH");
    match build_request(desc, ClientDefaults::new()) {
        Err(BuildError::UnknownMethod) => {}
        _ => panic!("an unrecognized method token must fail the build"),
    }
}

#[test]
fn invalid_header_name_is_a_build_error() {
    let mut desc = base_description("GET");
    let mut headers = CaseInsensitiveHeaderMap::new();
    headers.insert("Bad Header".to_string(), "v".to_string());
    desc.headers = Some(headers);
    match build_request(desc, ClientDefaults::new()) {
        Err(BuildError::InvalidHeaderName(n)) => assert_eq!(n, "Bad Header"),
        _ => panic!("a header name with a space must fail the build"),
    }
}

#[test]
fn invalid_header_value_is_a_build_error() {
    let mut desc = base_description("GET");
    let mut headers = CaseInsensitiveHeaderMap::new();
    headers.insert("X-Ok".to_string(), "bad\nvalue".to_string());
    desc.headers = Some(headers);
    match build_request(desc, ClientDefaults::new()) {
        Err(BuildError::InvalidHeaderValue(n)) => assert_eq!(n, "X-Ok"),
        _ => panic!("a header value with a newline must fail the build"),
    }
}

#[test]
fn request_headers_override_client_headers_case_insensitively() {
    let mut defaults = ClientDefaults::new();
    defaults
        .headers
        .insert("User-Agent".to_string(), "client".to_string());
    defaults
        .headers
        .insert("X-Keep".to_string(), "kept".to_string());
    let mut desc = base_description("GET");
    let mut headers = CaseInsensitiveHeaderMap::new();
    headers.insert("user-agent".to_string(), "request".to_string());
    desc.headers = Some(headers);
    let t = build_request(desc, defaults).unwrap();
    assert_eq!(
        t.headers,
        vec![
            ("user-agent".to_string(), "request".to_string()),
            ("X-Keep".to_string(), "kept".to_string()),
        ]
    );
}

#[test]
fn cookies_become_one_cookie_header() {
    let mut desc = base_description("GET");
    let mut cookies = StringMap::new();
    cookies.insert("ck1".to_string(), "cv1".to_string());
    cookies.insert("ck2".to_string(), "cv2".to_string());
    desc.cookies = Some(cookies);
    let t = build_request(desc, ClientDefaults::new()).unwrap();
    assert_eq!(
        t.headers,
        vec![("Cookie".to_string(), "ck1=cv1; ck2=cv2".to_string())]
    );
}

#[test]
fn basic_auth_wins_over_bearer() {
    let mut desc = base_description("GET");
    desc.auth = Some(("user".to_string(), Some("pw".to_string())));
    desc.auth_bearer = Some("token".to_string());
    let t = build_request(desc, ClientDefaults::new()).unwrap();
    match t.auth {
        AuthScheme::Basic { username, password } => {
            assert_eq!(username, "user");
            assert_eq!(password, Some("pw".to_string()));
        }
        _ => panic!("basic auth must win over bearer"),
    }
}

#[test]
fn request_values_fall_back_to_client_defaults() {
    let mut defaults = ClientDefaults::new();
    let mut params = StringMap::new();
    params.insert("p1k".to_string(), "p1v".to_string());
    defaults.params = Some(params);
    defaults.auth_bearer = Some("client-token".to_string());
    defaults.timeout_millis = Some(10_000);
    let desc = base_description("GET");
    let t = build_request(desc, defaults).unwrap();
    assert_eq!(t.params, vec![("p1k".to_string(), "p1v".to_string())]);
    assert!(matches!(t.auth, AuthScheme::Bearer { token } if token == "client-token"));
    assert_eq!(t.timeout_millis, Some(10_000));
}

#[test]
fn request_timeout_overrides_client_timeout() {
    let mut defaults = ClientDefaults::new();
    defaults.timeout_millis = Some(10_000);
    let mut desc = base_description("GET");
    desc.timeout_millis = Some(500);
    let t = build_request(desc, defaults).unwrap();
    assert_eq!(t.timeout_millis, Some(500));
}
