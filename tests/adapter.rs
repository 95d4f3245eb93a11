use actix_lambda::event::{normalize, EventBody, InvocationEvent, NormalizeError};
use actix_lambda::query::build_path_and_query;
use actix_lambda::response::{
    content_type, encode_body, materialize, respond, settle_body, BinaryMediaTypes,
    InvocationError, ResponseBody, ResponseSource,
};

fn pairs(items: &[(&str, &str)]) -> Vec<(String, String)> {
    items.iter().map(|(k, v)| (k.to_string(), v.to_string())).collect()
}

fn items_event(query: Vec<(String, String)>, body: EventBody) -> InvocationEvent {
    InvocationEvent {
        method: "GET".to_string(),
        scheme: Some("https".to_string()),
        authority: Some("api.example.com".to_string()),
        path: "/items".to_string(),
        query,
        headers: vec![("accept".to_string(), b"text/plain".to_vec())],
        body,
    }
}

#[test]
fn scenario_items_query_uri() {
    let mut event = items_event(pairs(&[("q", "a b"), ("q", "c&d")]), EventBody::Empty);
    let req = normalize(&mut event).ok().expect("request");
    assert_eq!(req.uri, "https://api.example.com/items?q=a%20b&q=c%26d");
    assert_eq!(req.method, "GET");
    assert!(req.payload.is_empty());
}

#[test]
fn no_parameters_no_question_mark() {
    assert_eq!(build_path_and_query("/items", &Vec::new()), "/items");
    let mut event = items_event(Vec::new(), EventBody::Empty);
    let req = normalize(&mut event).ok().expect("request");
    assert_eq!(req.uri, "https://api.example.com/items");
}

#[test]
fn percent_signs_are_encoded_again() {
    let pq = build_path_and_query("/p", &pairs(&[("a%20b", "c=d"), ("k", "%")]));
    assert_eq!(pq, "/p?a%2520b=c%3Dd&k=%25");
}

#[test]
fn non_ascii_and_controls_are_escaped() {
    let pq = build_path_and_query("/p", &pairs(&[("é", "x\ty"), ("<>", "\"#")]));
    assert_eq!(pq, "/p?%C3%A9=x%09y&%3C%3E=%22%23");
}

#[test]
fn unreserved_characters_stay() {
    let pq = build_path_and_query("/p", &pairs(&[("a-b_c.d~e", "f/g?h+i")]));
    assert_eq!(pq, "/p?a-b_c.d~e=f/g?h+i");
}

#[test]
fn encoded_query_decodes_back() {
    let params = pairs(&[("a b", "%41"), ("x=y", "1&2"), ("", "ü")]);
    let pq = build_path_and_query("/", &params);
    let query = &pq[2..];
    let decoded: Vec<(String, String)> = query
        .split('&')
        .map(|seg| {
            let (k, v) = seg.split_once('=').expect("pair");
            (
                percent_encoding::percent_decode_str(k).decode_utf8().unwrap().into_owned(),
                percent_encoding::percent_decode_str(v).decode_utf8().unwrap().into_owned(),
            )
        })
        .collect();
    assert_eq!(decoded, params);
}

#[test]
fn normalize_moves_headers_and_body() {
    let mut event = items_event(Vec::new(), EventBody::Text("héllo".to_string()));
    let req = normalize(&mut event).ok().expect("request");
    assert_eq!(req.payload, "héllo".as_bytes().to_vec());
    assert_eq!(req.headers, vec![("accept".to_string(), b"text/plain".to_vec())]);
    assert!(event.headers.is_empty());
    assert!(matches!(event.body, EventBody::Empty));
    assert_eq!(event.path, "/items");
}

#[test]
fn normalize_binary_body() {
    let mut event = items_event(Vec::new(), EventBody::Binary(vec![0, 255, 7]));
    let req = normalize(&mut event).ok().expect("request");
    assert_eq!(req.payload, vec![0, 255, 7]);
}

#[test]
fn normalize_missing_scheme() {
    let mut event = items_event(Vec::new(), EventBody::Empty);
    event.scheme = None;
    assert!(matches!(normalize(&mut event), Err(NormalizeError::MissingScheme)));
}

#[test]
fn normalize_missing_authority() {
    let mut event = items_event(Vec::new(), EventBody::Empty);
    event.authority = None;
    assert!(matches!(normalize(&mut event), Err(NormalizeError::MissingAuthority)));
}

#[test]
fn normalize_invalid_authority() {
    let mut event = items_event(Vec::new(), EventBody::Empty);
    event.authority = Some("bad host".to_string());
    assert!(matches!(normalize(&mut event), Err(NormalizeError::InvalidUri)));
}

#[test]
fn normalize_twice_same_uri_and_headers() {
    let query = pairs(&[("q", "a b"), ("r", "%")]);
    let mut first = items_event(query.clone(), EventBody::Empty);
    let mut second = items_event(query, EventBody::Empty);
    let a = normalize(&mut first).ok().expect("request");
    let b = normalize(&mut second).ok().expect("request");
    assert_eq!(a.uri, b.uri);
    assert_eq!(a.headers, b.headers);
}

#[test]
fn content_type_present_absent_and_opaque() {
    let hs = vec![
        ("x-a".to_string(), b"1".to_vec()),
        ("content-type".to_string(), b"text/html; charset=utf-8".to_vec()),
        ("content-type".to_string(), b"image/png".to_vec()),
    ];
    assert_eq!(content_type(&hs), "text/html; charset=utf-8");
    assert_eq!(content_type(&vec![("x-a".to_string(), b"1".to_vec())]), "");
    assert_eq!(content_type(&vec![("content-type".to_string(), vec![0xc3, 0xa9])]), "");
}

#[test]
fn materialize_concatenates_in_order() {
    let chunks = vec![b"ab".to_vec(), Vec::new(), b"cde".to_vec()];
    assert_eq!(materialize(&chunks), b"abcde".to_vec());
    assert!(materialize(&Vec::new()).is_empty());
}

#[test]
fn binary_body_keeps_bytes() {
    let bytes = vec![0xff, 0x00, 0xfe];
    match encode_body(bytes.clone(), true) {
        Ok(ResponseBody::Binary(b)) => assert_eq!(b, bytes),
        _ => panic!("expected a binary body"),
    }
}

#[test]
fn text_body_decodes_string() {
    match encode_body("grüße".as_bytes().to_vec(), false) {
        Ok(ResponseBody::Text(s)) => assert_eq!(s, "grüße"),
        _ => panic!("expected a text body"),
    }
}

#[test]
fn text_body_not_utf8_fails() {
    assert!(matches!(encode_body(vec![0x66, 0xff], false), Err(InvocationError::NotUtf8)));
    let r = respond(ResponseSource::Service, 200, Vec::new(), Some(vec![0xc3]), false);
    assert!(matches!(r, Err(InvocationError::NotUtf8)));
}

#[test]
fn failed_service_with_undrainable_error_body() {
    let hs = vec![("content-type".to_string(), b"text/plain".to_vec())];
    let resp = respond(ResponseSource::ErrorRendering, 500, hs.clone(), None, false)
        .ok()
        .expect("response");
    assert_eq!(resp.status, 500);
    assert_eq!(resp.headers, hs);
    match resp.body {
        ResponseBody::Text(s) => assert_eq!(s, ""),
        ResponseBody::Binary(_) => panic!("expected a text body"),
    }
}

#[test]
fn successful_service_with_undrainable_body() {
    let r = respond(ResponseSource::Service, 200, Vec::new(), None, false);
    assert!(matches!(r, Err(InvocationError::BodyUnavailable)));
    assert!(matches!(
        settle_body(ResponseSource::Service, None),
        Err(InvocationError::BodyUnavailable)
    ));
    assert_eq!(settle_body(ResponseSource::ErrorRendering, None).ok(), Some(Vec::new()));
}

#[test]
fn membership_list_classification() {
    let types = BinaryMediaTypes::new(vec!["application/octet-stream".to_string()]);
    assert!(types.is_binary("application/octet-stream"));
    assert!(!types.is_binary("text/plain"));
    assert!(!types.is_binary(""));

    let octet = vec![("content-type".to_string(), b"application/octet-stream".to_vec())];
    let binary = types.is_binary(&content_type(&octet));
    let resp = respond(ResponseSource::Service, 200, octet, Some(vec![1, 2, 0xff]), binary)
        .ok()
        .expect("response");
    assert!(matches!(resp.body, ResponseBody::Binary(ref b) if *b == vec![1, 2, 0xff]));

    let plain = vec![("content-type".to_string(), b"text/plain".to_vec())];
    let binary = types.is_binary(&content_type(&plain));
    let resp = respond(ResponseSource::Service, 201, plain, Some(b"ok".to_vec()), binary)
        .ok()
        .expect("response");
    assert_eq!(resp.status, 201);
    assert!(matches!(resp.body, ResponseBody::Text(ref s) if s == "ok"));
}
