//! In-memory request model, compared structurally.
use vstd::prelude::*;

verus! {

/// The standard HTTP verbs.
#[derive(Debug, Clone, Copy, PartialEq, Eq, Structural)]
pub enum Method {
    GET,
    POST,
    PUT,
    DELETE,
    PATCH,
    HEAD,
    OPTIONS,
    CONNECT,
    TRACE,
}

/// One header, query parameter or path parameter.
#[derive(Debug, Clone)]
pub struct KeyValue {
    pub name: String,
    pub value: String,
    pub disabled: bool,
}

/// Ordered list of key/value pairs.
pub type KeyValList = Vec<KeyValue>;

/// Body of a request being edited.
#[derive(Debug, Clone)]
pub enum RequestBody {
    Empty,
    Text(String),
    Json(String),
}

/// A decoded request.
#[derive(Debug, Clone)]
pub struct Request {
    pub method: Method,
    pub url: String,
    pub headers: KeyValList,
    pub body: RequestBody,
    pub query_params: KeyValList,
    pub path_params: KeyValList,
    pub description: String,
}

/// Mathematical form of a key/value pair: name, value, disabled.
pub type KeyValueModel = (Seq<char>, Seq<char>, bool);

pub enum BodyModel {
    Empty,
    Text(Seq<char>),
    Json(Seq<char>),
}

pub struct RequestModel {
    pub method: Method,
    pub url: Seq<char>,
    pub headers: Seq<KeyValueModel>,
    pub body: BodyModel,
    pub query_params: Seq<KeyValueModel>,
    pub path_params: Seq<KeyValueModel>,
    pub description: Seq<char>,
}

impl View for KeyValue {
    type V = KeyValueModel;

    open spec fn view(&self) -> KeyValueModel {
        (self.name@, self.value@, self.disabled)
    }
}

impl View for RequestBody {
    type V = BodyModel;

    open spec fn view(&self) -> BodyModel {
        match self {
            RequestBody::Empty => BodyModel::Empty,
            RequestBody::Text(s) => BodyModel::Text(s@),
            RequestBody::Json(s) => BodyModel::Json(s@),
        }
    }
}

/// The models of a list of pairs, in order.
pub open spec fn kv_models(kv: Seq<KeyValue>) -> Seq<KeyValueModel> {
    kv.map_values(|e: KeyValue| e@)
}

impl View for Request {
    type V = RequestModel;

    open spec fn view(&self) -> RequestModel {
        RequestModel {
            method: self.method,
            url: self.url@,
            headers: kv_models(self.headers@),
            body: self.body@,
            query_params: kv_models(self.query_params@),
            path_params: kv_models(self.path_params@),
            description: self.description@,
        }
    }
}

fn same_text(a: &String, b: &String) -> (r: bool)
    ensures
        r == (a@ == b@),
{
    let r = *a == *b;
    r
}

/// Field-wise equality of two pair lists.
pub fn same_key_values(a: &KeyValList, b: &KeyValList) -> (r: bool)
    ensures
        r == (kv_models(a@) == kv_models(b@)),
{
    if a.len() != b.len() {
        assert(kv_models(a@).len() != kv_models(b@).len());
        return false;
    }
    let mut i: usize = 0;
    while i < a.len()
        invariant
            a.len() == b.len(),
            0 <= i <= a.len(),
            forall|j: int| 0 <= j < i ==> a@[j]@ == b@[j]@,
        decreases a.len() - i,
    {
        let x = &a[i];
        let y = &b[i];
        if !(same_text(&x.name, &y.name) && same_text(&x.value, &y.value) && x.disabled == y.disabled) {
            assert(kv_models(a@)[i as int] != kv_models(b@)[i as int]);
            return false;
        }
        i = i + 1;
    }
    assert(kv_models(a@) =~= kv_models(b@));
    true
}

/// A copy of a pair list, pair by pair.
pub fn copy_key_values(kv: &KeyValList) -> (r: KeyValList)
    ensures
        kv_models(r@) == kv_models(kv@),
{
    let mut out: KeyValList = Vec::new();
    let mut i: usize = 0;
    while i < kv.len()
        invariant
            0 <= i <= kv.len(),
            kv_models(out@) =~= kv_models(kv@).take(i as int),
        decreases kv.len() - i,
    {
        let x = &kv[i];
        let ghost before = out@;
        out.push(KeyValue { name: x.name.clone(), value: x.value.clone(), disabled: x.disabled });
        proof {
            assert(kv_models(out@) =~= kv_models(before).push(x@));
            assert(kv_models(kv@).take(i + 1) =~= kv_models(kv@).take(i as int).push(x@));
        }
        i = i + 1;
    }
    out
}

/// Whether a pair is sent: it is enabled and has a name.
pub open spec fn is_sent(p: KeyValueModel) -> bool {
    !p.2 && p.0.len() > 0
}

/// The pairs that a send carries: the enabled pairs with a name, in order.
pub fn sendable_pairs(kv: &KeyValList) -> (r: KeyValList)
    ensures
        kv_models(r@) == kv_models(kv@).filter(|p: KeyValueModel| is_sent(p)),
{
    let mut out: KeyValList = Vec::new();
    let mut i: usize = 0;
    while i < kv.len()
        invariant
            0 <= i <= kv.len(),
            kv_models(out@) == kv_models(kv@).take(i as int).filter(|p: KeyValueModel| is_sent(p)),
        decreases kv.len() - i,
    {
        let x = &kv[i];
        proof {
            let s = kv_models(kv@);
            assert(s.take(i + 1).drop_last() =~= s.take(i as int));
            assert(s.take(i + 1).last() == x@);
            reveal(Seq::filter);
            assert(s.take(i + 1).filter(|p: KeyValueModel| is_sent(p)) == if is_sent(x@) {
                s.take(i as int).filter(|p: KeyValueModel| is_sent(p)).push(x@)
            } else {
                s.take(i as int).filter(|p: KeyValueModel| is_sent(p))
            });
        }
        if !x.disabled && !x.name.as_str().is_empty() {
            let ghost before = out@;
            out.push(KeyValue { name: x.name.clone(), value: x.value.clone(), disabled: x.disabled });
            proof {
                assert(kv_models(out@) =~= kv_models(before).push(x@));
            }
        }
        i = i + 1;
    }
    proof {
        assert(kv_models(kv@).take(kv.len() as int) =~= kv_models(kv@));
    }
    out
}

impl RequestBody {
    /// A copy with the same content.
    pub fn duplicate(&self) -> (r: RequestBody)
        ensures
            r@ == self@,
    {
        match self {
            RequestBody::Empty => RequestBody::Empty,
            RequestBody::Text(s) => RequestBody::Text(s.clone()),
            RequestBody::Json(s) => RequestBody::Json(s.clone()),
        }
    }

    /// Field-wise equality of two bodies.
    pub fn same_as(&self, other: &RequestBody) -> (r: bool)
        ensures
            r == (self@ == other@),
    {
        match (self, other) {
            (RequestBody::Empty, RequestBody::Empty) => true,
            (RequestBody::Text(a), RequestBody::Text(b)) => same_text(a, b),
            (RequestBody::Json(a), RequestBody::Json(b)) => same_text(a, b),
            _ => false,
        }
    }
}

impl Request {
    /// A copy, equal field by field.
    pub fn duplicate(&self) -> (r: Request)
        ensures
            r@ == self@,
    {
        Request {
            method: self.method,
            url: self.url.clone(),
            headers: copy_key_values(&self.headers),
            body: self.body.duplicate(),
            query_params: copy_key_values(&self.query_params),
            path_params: copy_key_values(&self.path_params),
            description: self.description.clone(),
        }
    }

    /// Structural equality: every field compared by value, independent of
    /// how either request was serialised.
    pub fn same_as(&self, other: &Request) -> (r: bool)
        ensures
            r == (self@ == other@),
    {
        self.method == other.method && same_text(&self.url, &other.url)
            && same_key_values(&self.headers, &other.headers)
            && self.body.same_as(&other.body)
            && same_key_values(&self.query_params, &other.query_params)
            && same_key_values(&self.path_params, &other.path_params)
            && same_text(&self.description, &other.description)
    }
}

} // verus!
