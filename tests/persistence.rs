use apidesk::persistence::request::{decode_request, encode_request, EncodedMethod, EncodedRequest};
use apidesk::persistence::{EncodedKeyValue, Version};
use apidesk::request::{KeyValue, Method, Request, RequestBody};

fn kv(name: &str, value: &str, disabled: bool) -> KeyValue {
    KeyValue { name: name.to_string(), value: value.to_string(), disabled }
}

fn sample() -> Request {
    Request {
        method: Method::POST,
        url: "http://localhost/items".to_string(),
        headers: vec![kv("Accept", "application/json", false), kv("X-Debug", "1", true)],
        body: RequestBody::Empty,
        query_params: vec![kv("page", "2", false)],
        path_params: vec![],
        description: "create an item".to_string(),
    }
}

#[test]
fn encode_keeps_fields_and_tags_version() {
    let enc: EncodedRequest = encode_request(&sample());
    assert_eq!(enc.http.method, EncodedMethod::POST);
    assert_eq!(enc.http.url, "http://localhost/items");
    assert_eq!(enc.http.headers.len(), 2);
    assert_eq!(enc.http.headers[1].name, "X-Debug");
    assert!(enc.http.headers[1].disabled);
    assert_eq!(enc.http.query.len(), 1);
    assert!(enc.http.path_params.is_empty());
    assert_eq!(enc.description, "create an item");
    assert_eq!(enc.version, Version::V1);
}

#[test]
fn encode_keeps_pairs_without_name() {
    let mut req = sample();
    req.headers.insert(0, kv("", "orphan", false));
    req.query_params.push(kv("", "", true));
    let enc = encode_request(&req);
    assert_eq!(enc.http.headers.len(), 3);
    assert_eq!(enc.http.headers[0].name, "");
    assert_eq!(enc.http.headers[0].value, "orphan");
    assert_eq!(enc.http.query.len(), 2);
    let back = decode_request(&enc);
    assert!(back.same_as(&req));
}

#[test]
fn round_trip_gives_back_the_request() {
    let req = sample();
    let back = decode_request(&encode_request(&req));
    assert!(back.same_as(&req));
    assert_eq!(back.url, req.url);
    assert_eq!(back.headers.len(), 2);
}

#[test]
fn decode_empties_the_body() {
    let mut req = sample();
    req.body = RequestBody::Text("payload".to_string());
    let back = decode_request(&encode_request(&req));
    assert!(matches!(back.body, RequestBody::Empty));
    assert!(!back.same_as(&req));
}

#[test]
fn every_method_round_trips() {
    let methods = [
        Method::GET,
        Method::POST,
        Method::PUT,
        Method::DELETE,
        Method::PATCH,
        Method::HEAD,
        Method::OPTIONS,
        Method::CONNECT,
        Method::TRACE,
    ];
    for m in methods {
        let e = EncodedMethod::from(m);
        assert_eq!(Method::from(e), m);
    }
    assert_eq!(EncodedMethod::from(Method::PATCH), EncodedMethod::PATCH);
}

#[test]
fn structural_equality_sees_each_field() {
    let a = sample();
    let mut b = sample();
    assert!(a.same_as(&b));
    b.headers[0].disabled = true;
    assert!(!a.same_as(&b));
    let mut c = sample();
    c.description = String::new();
    assert!(!a.same_as(&c));
    let mut d = sample();
    d.method = Method::GET;
    assert!(!a.same_as(&d));
}

#[test]
fn key_value_conversions_keep_fields() {
    let e = EncodedKeyValue::from(kv("a", "b", true));
    assert_eq!(e.name, "a");
    assert_eq!(e.value, "b");
    assert!(e.disabled);
    let back = KeyValue::from(e);
    assert_eq!(back.name, "a");
    assert!(back.disabled);
}

#[test]
fn only_enabled_named_pairs_are_sent() {
    let pairs = vec![kv("a", "1", false), kv("", "2", false), kv("b", "3", true), kv("c", "4", false)];
    let sent = apidesk::request::sendable_pairs(&pairs);
    assert_eq!(sent.len(), 2);
    assert_eq!(sent[0].name, "a");
    assert_eq!(sent[1].name, "c");
}
