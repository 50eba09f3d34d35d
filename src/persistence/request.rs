//! Persisted form of a single request and the mapping to and from the
//! in-memory model. Every pair is persisted, in order; the body is not part
//! of the persisted form.
use vstd::prelude::*;

use crate::persistence::Version;
use crate::request::{kv_models, BodyModel, KeyValList, KeyValue, KeyValueModel, Method, Request, RequestBody, RequestModel};

verus! {

#[derive(Debug, Clone, Copy, PartialEq, Eq, Structural)]
pub enum EncodedMethod {
    GET,
    POST,
    PUT,
    DELETE,
    PATCH,
    HEAD,
    OPTIONS,
    CONNECT,
    TRACE,
}

pub open spec fn encode_method(m: Method) -> EncodedMethod {
    match m {
        Method::GET => EncodedMethod::GET,
        Method::POST => EncodedMethod::POST,
        Method::PUT => EncodedMethod::PUT,
        Method::DELETE => EncodedMethod::DELETE,
        Method::PATCH => EncodedMethod::PATCH,
        Method::HEAD => EncodedMethod::HEAD,
        Method::OPTIONS => EncodedMethod::OPTIONS,
        Method::CONNECT => EncodedMethod::CONNECT,
        Method::TRACE => EncodedMethod::TRACE,
    }
}

pub open spec fn decode_method(m: EncodedMethod) -> Method {
    match m {
        EncodedMethod::GET => Method::GET,
        EncodedMethod::POST => Method::POST,
        EncodedMethod::PUT => Method::PUT,
        EncodedMethod::DELETE => Method::DELETE,
        EncodedMethod::PATCH => Method::PATCH,
        EncodedMethod::HEAD => Method::HEAD,
        EncodedMethod::OPTIONS => Method::OPTIONS,
        EncodedMethod::CONNECT => Method::CONNECT,
        EncodedMethod::TRACE => Method::TRACE,
    }
}

impl From<Method> for EncodedMethod {
    fn from(value: Method) -> (r: Self) {
        match value {
            Method::GET => EncodedMethod::GET,
            Method::POST => EncodedMethod::POST,
            Method::PUT => EncodedMethod::PUT,
            Method::DELETE => EncodedMethod::DELETE,
            Method::PATCH => EncodedMethod::PATCH,
            Method::HEAD => EncodedMethod::HEAD,
            Method::OPTIONS => EncodedMethod::OPTIONS,
            Method::CONNECT => EncodedMethod::CONNECT,
            Method::TRACE => EncodedMethod::TRACE,
        }
    }
}

impl vstd::std_specs::convert::FromSpecImpl<Method> for EncodedMethod {
    open spec fn obeys_from_spec() -> bool {
        true
    }

    open spec fn from_spec(v: Method) -> Self {
        encode_method(v)
    }
}

impl From<EncodedMethod> for Method {
    fn from(val: EncodedMethod) -> (r: Self) {
        match val {
            EncodedMethod::GET => Method::GET,
            EncodedMethod::POST => Method::POST,
            EncodedMethod::PUT => Method::PUT,
            EncodedMethod::DELETE => Method::DELETE,
            EncodedMethod::PATCH => Method::PATCH,
            EncodedMethod::HEAD => Method::HEAD,
            EncodedMethod::OPTIONS => Method::OPTIONS,
            EncodedMethod::CONNECT => Method::CONNECT,
            EncodedMethod::TRACE => Method::TRACE,
        }
    }
}

impl vstd::std_specs::convert::FromSpecImpl<EncodedMethod> for Method {
    open spec fn obeys_from_spec() -> bool {
        true
    }

    open spec fn from_spec(v: EncodedMethod) -> Self {
        decode_method(v)
    }
}

/// A persisted pair; `disabled` is omitted from the document when false.
#[derive(Debug, Clone)]
pub struct EncodedKeyValue {
    pub name: String,
    pub value: String,
    pub disabled: bool,
}

impl View for EncodedKeyValue {
    type V = KeyValueModel;

    open spec fn view(&self) -> KeyValueModel {
        (self.name@, self.value@, self.disabled)
    }
}

impl<'a> From<&'a KeyValue> for EncodedKeyValue {
    fn from(value: &'a KeyValue) -> (r: Self) {
        EncodedKeyValue { name: value.name.clone(), value: value.value.clone(), disabled: value.disabled }
    }
}

impl<'a> vstd::std_specs::convert::FromSpecImpl<&'a KeyValue> for EncodedKeyValue {
    open spec fn obeys_from_spec() -> bool {
        true
    }

    open spec fn from_spec(v: &'a KeyValue) -> Self {
        EncodedKeyValue { name: v.name, value: v.value, disabled: v.disabled }
    }
}

/// The `http` table of a persisted request; empty lists are omitted.
#[derive(Debug, Clone)]
pub struct HttpRequest {
    pub method: EncodedMethod,
    pub url: String,
    pub headers: Vec<EncodedKeyValue>,
    pub query: Vec<EncodedKeyValue>,
    pub path_params: Vec<EncodedKeyValue>,
}

/// A persisted request document; an empty description is omitted.
#[derive(Debug, Clone)]
pub struct EncodedRequest {
    pub http: HttpRequest,
    pub description: String,
    pub version: Version,
}

pub struct EncodedRequestModel {
    pub method: EncodedMethod,
    pub url: Seq<char>,
    pub headers: Seq<KeyValueModel>,
    pub query: Seq<KeyValueModel>,
    pub path_params: Seq<KeyValueModel>,
    pub description: Seq<char>,
    pub version: Version,
}

pub open spec fn encoded_kv_models(kv: Seq<EncodedKeyValue>) -> Seq<KeyValueModel> {
    kv.map_values(|e: EncodedKeyValue| e@)
}

impl View for EncodedRequest {
    type V = EncodedRequestModel;

    open spec fn view(&self) -> EncodedRequestModel {
        EncodedRequestModel {
            method: self.http.method,
            url: self.http.url@,
            headers: encoded_kv_models(self.http.headers@),
            query: encoded_kv_models(self.http.query@),
            path_params: encoded_kv_models(self.http.path_params@),
            description: self.description@,
            version: self.version,
        }
    }
}

pub open spec fn encode_model(r: RequestModel) -> EncodedRequestModel {
    EncodedRequestModel {
        method: encode_method(r.method),
        url: r.url,
        headers: r.headers,
        query: r.query_params,
        path_params: r.path_params,
        description: r.description,
        version: Version::V1,
    }
}

pub open spec fn decode_model(e: EncodedRequestModel) -> RequestModel {
    RequestModel {
        method: decode_method(e.method),
        url: e.url,
        headers: e.headers,
        body: BodyModel::Empty,
        query_params: e.query,
        path_params: e.path_params,
        description: e.description,
    }
}

/// The persisted pairs of a list: every pair, in order.
pub fn encode_key_values(kv: &KeyValList) -> (r: Vec<EncodedKeyValue>)
    ensures
        encoded_kv_models(r@) == kv_models(kv@),
{
    let mut out: Vec<EncodedKeyValue> = Vec::new();
    let mut i: usize = 0;
    while i < kv.len()
        invariant
            0 <= i <= kv.len(),
            encoded_kv_models(out@) =~= kv_models(kv@).take(i as int),
        decreases kv.len() - i,
    {
        let item = &kv[i];
        let e = EncodedKeyValue::from(item);
        let ghost before = out@;
        out.push(e);
        proof {
            assert(encoded_kv_models(out@) =~= encoded_kv_models(before).push(e@));
            assert(kv_models(kv@).take(i + 1) =~= kv_models(kv@).take(i as int).push(item@));
        }
        i = i + 1;
    }
    out
}

/// The persisted form of a request.
pub fn encode_request(req: &Request) -> (r: EncodedRequest)
    ensures
        r@ == encode_model(req@),
{
    EncodedRequest {
        http: HttpRequest {
            method: EncodedMethod::from(req.method),
            url: req.url.clone(),
            headers: encode_key_values(&req.headers),
            query: encode_key_values(&req.query_params),
            path_params: encode_key_values(&req.path_params),
        },
        description: req.description.clone(),
        version: Version::V1,
    }
}

/// The in-memory pairs of a persisted list, in order.
pub fn decode_key_values(kv: &[EncodedKeyValue]) -> (r: KeyValList)
    ensures
        kv_models(r@) == encoded_kv_models(kv@),
{
    let mut list: KeyValList = Vec::new();
    let mut i: usize = 0;
    while i < kv.len()
        invariant
            0 <= i <= kv.len(),
            kv_models(list@) =~= encoded_kv_models(kv@).take(i as int),
        decreases kv.len() - i,
    {
        let v = &kv[i];
        let ghost before = list@;
        list.push(KeyValue { name: v.name.clone(), value: v.value.clone(), disabled: v.disabled });
        proof {
            assert(kv_models(list@) =~= kv_models(before).push(v@));
            assert(encoded_kv_models(kv@).take(i + 1) =~= encoded_kv_models(kv@).take(i as int).push(v@));
        }
        i = i + 1;
    }
    list
}

/// The in-memory request that a persisted document describes; its body is empty.
pub fn decode_request(req: &EncodedRequest) -> (r: Request)
    ensures
        r@ == decode_model(req@),
{
    Request {
        method: Method::from(req.http.method),
        url: req.http.url.clone(),
        headers: decode_key_values(req.http.headers.as_slice()),
        body: RequestBody::Empty,
        query_params: decode_key_values(req.http.query.as_slice()),
        path_params: decode_key_values(req.http.path_params.as_slice()),
        description: req.description.clone(),
    }
}

/// Decoding the persisted form of a request gives back the request, field by
/// field, whenever its body is empty (the body is not persisted).
pub proof fn lemma_encode_decode_round_trip(r: RequestModel)
    requires
        r.body == BodyModel::Empty,
    ensures
        decode_model(encode_model(r)) == r,
{
    assert(decode_method(encode_method(r.method)) == r.method);
}

/// Encoding the decoded form of a document gives back the document.
pub proof fn lemma_decode_encode_round_trip(e: EncodedRequestModel)
    requires
        e.version == Version::V1,
    ensures
        encode_model(decode_model(e)) == e,
{
    assert(encode_method(decode_method(e.method)) == e.method);
}

} // verus!
