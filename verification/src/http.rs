//! Requests to and responses from third-party HTTP services, and a fake
//! client that records requests and answers from a queue.
use vstd::prelude::*;
use crate::text::{eq_ignore_ascii_case, eq_ignore_case_exec};

verus! {

broadcast use vstd::string::group_string_axioms;

/// Largest upstream response body kept in memory.
pub const MAX_HTTP_RESPONSE_BYTES: usize = 10485760;

/// A header list as plain text pairs.
pub open spec fn header_views(h: Seq<(String, String)>) -> Seq<(Seq<char>, Seq<char>)> {
    h.map_values(|p: (String, String)| (p.0@, p.1@))
}

/// An HTTP request.
pub struct HttpRequest {
    /// Uppercase method such as `GET` or `POST`.
    pub method: String,
    /// Absolute upstream URL.
    pub url: String,
    pub headers: Vec<(String, String)>,
    pub body: Vec<u8>,
}

impl HttpRequest {
    /// A request with no headers and no body.
    pub fn new(method: &str, url: &str) -> (r: Self)
        ensures
            r.method@ == method@,
            r.url@ == url@,
            r.headers@.len() == 0,
            r.body@.len() == 0,
    {
        HttpRequest { method: method.to_string(), url: url.to_string(), headers: Vec::new(), body: Vec::new() }
    }

    /// Adds one header after those already there.
    pub fn header(self, name: &str, value: &str) -> (r: Self)
        ensures
            header_views(r.headers@) == header_views(self.headers@).push((name@, value@)),
            r.method == self.method,
            r.url == self.url,
            r.body@ == self.body@,
    {
        let mut r = self;
        let ghost before = r.headers@;
        r.headers.push((name.to_string(), value.to_string()));
        assert(header_views(r.headers@) =~= header_views(before).push((name@, value@)));
        r
    }

    /// Replaces the body.
    pub fn body(self, body: &[u8]) -> (r: Self)
        ensures
            r.body@ == body@,
            r.method == self.method,
            r.url == self.url,
            r.headers@ == self.headers@,
    {
        let mut r = self;
        r.body = copy_slice(body);
        r
    }
}

/// An HTTP response.
pub struct HttpResponse {
    pub status: u16,
    pub headers: Vec<(String, String)>,
    pub body: Vec<u8>,
}

/// The value of the first header named `Content-Type`, in any ASCII case.
pub open spec fn content_type_of(h: Seq<(Seq<char>, Seq<char>)>) -> Option<Seq<char>>
    decreases h.len(),
{
    if h.len() == 0 {
        None
    } else if eq_ignore_ascii_case(h[0].0, "content-type"@) {
        Some(h[0].1)
    } else {
        content_type_of(h.drop_first())
    }
}

impl HttpResponse {
    /// A response with the status and no headers or body.
    pub fn new(status: u16) -> (r: Self)
        ensures
            r.status == status,
            r.headers@.len() == 0,
            r.body@.len() == 0,
    {
        HttpResponse { status, headers: Vec::new(), body: Vec::new() }
    }

    /// Adds one header after those already there.
    pub fn header(self, name: &str, value: &str) -> (r: Self)
        ensures
            header_views(r.headers@) == header_views(self.headers@).push((name@, value@)),
            r.status == self.status,
            r.body@ == self.body@,
    {
        let mut r = self;
        let ghost before = r.headers@;
        r.headers.push((name.to_string(), value.to_string()));
        assert(header_views(r.headers@) =~= header_views(before).push((name@, value@)));
        r
    }

    /// Replaces the body.
    pub fn body(self, body: &[u8]) -> (r: Self)
        ensures
            r.body@ == body@,
            r.status == self.status,
            r.headers@ == self.headers@,
    {
        let mut r = self;
        r.body = copy_slice(body);
        r
    }

    /// The response's content type, if the service sent one.
    pub fn content_type(&self) -> (t: Option<&str>)
        ensures
            match t {
                Some(v) => content_type_of(header_views(self.headers@)) == Some(v@),
                None => content_type_of(header_views(self.headers@)) is None,
            },
    {
        let ghost hv = header_views(self.headers@);
        let mut i: usize = 0;
        assert(hv.skip(0) =~= hv);
        while i < self.headers.len()
            invariant
                i <= self.headers.len(),
                hv == header_views(self.headers@),
                content_type_of(hv) == content_type_of(hv.skip(i as int)),
            decreases self.headers.len() - i,
        {
            assert(hv.skip(i as int).drop_first() =~= hv.skip(i + 1));
            if eq_ignore_case_exec(self.headers[i].0.as_str(), "content-type") {
                return Some(self.headers[i].1.as_str());
            }
            i = i + 1;
        }
        None
    }
}

/// Why an upstream request failed.
pub enum HttpError {
    /// The method is not one an HTTP client accepts.
    InvalidMethod,
    /// Building, sending or reading the request failed.
    Request(String),
    /// The body exceeded `MAX_HTTP_RESPONSE_BYTES`.
    ResponseTooLarge,
    /// The fake client ran out of configured responses.
    FakeExhausted,
}

impl HttpError {
    pub open spec fn message_spec(&self) -> Seq<char> {
        match self {
            HttpError::InvalidMethod => "invalid upstream HTTP method"@,
            HttpError::Request(_) => "upstream request failed"@,
            HttpError::ResponseTooLarge => "upstream response body is too large"@,
            HttpError::FakeExhausted => "fake HTTP client has no response configured"@,
        }
    }

    /// The error's display text.
    pub fn message(&self) -> (m: String)
        ensures
            m@ == self.message_spec(),
    {
        match self {
            HttpError::InvalidMethod => "invalid upstream HTTP method".to_string(),
            HttpError::Request(_) => "upstream request failed".to_string(),
            HttpError::ResponseTooLarge => "upstream response body is too large".to_string(),
            HttpError::FakeExhausted => "fake HTTP client has no response configured".to_string(),
        }
    }
}

/// Whether a declared `Content-Length` already rules the body out.
pub fn declared_length_too_large(length: Option<u64>) -> (b: bool)
    ensures
        b == (match length {
            Some(n) => n > MAX_HTTP_RESPONSE_BYTES,
            None => false,
        }),
{
    match length {
        Some(n) => n > 10485760u64,
        None => false,
    }
}

/// Appends one received chunk to a body being read, refusing a body that
/// would grow past `MAX_HTTP_RESPONSE_BYTES`; on refusal the body is unchanged.
pub fn accept_body_chunk(body: &mut Vec<u8>, chunk: &[u8]) -> (r: Result<(), HttpError>)
    ensures
        (old(body)@.len() + chunk@.len() > MAX_HTTP_RESPONSE_BYTES) ==> (r is Err && r->Err_0 is ResponseTooLarge
            && final(body)@ == old(body)@),
        (old(body)@.len() + chunk@.len() <= MAX_HTTP_RESPONSE_BYTES) ==> (r is Ok && final(body)@ == old(body)@ + chunk@),
{
    if chunk.len() > MAX_HTTP_RESPONSE_BYTES || body.len() > MAX_HTTP_RESPONSE_BYTES - chunk.len() {
        return Err(HttpError::ResponseTooLarge);
    }
    let ghost start = body@;
    let mut i: usize = 0;
    while i < chunk.len()
        invariant
            i <= chunk@.len(),
            body@ == start + chunk@.take(i as int),
        decreases chunk.len() - i,
    {
        body.push(chunk[i]);
        assert(chunk@.take(i + 1) =~= chunk@.take(i as int).push(chunk@[i as int]));
        assert(body@ =~= start + chunk@.take(i + 1));
        i = i + 1;
    }
    assert(chunk@.take(chunk.len() as int) =~= chunk@);
    Ok(())
}

/// A client for tests: it records every request and answers with the
/// configured responses, first to last.
pub struct FakeHttpClient {
    responses: Vec<HttpResponse>,
    requests: Vec<HttpRequest>,
}

impl FakeHttpClient {
    /// The responses not handed out yet, in the order they will be.
    pub closed spec fn pending(&self) -> Seq<HttpResponse> {
        self.responses@
    }

    /// The requests sent so far, in order.
    pub closed spec fn sent(&self) -> Seq<HttpRequest> {
        self.requests@
    }

    pub fn new(responses: Vec<HttpResponse>) -> (c: Self)
        ensures
            c.pending() == responses@,
            c.sent().len() == 0,
    {
        FakeHttpClient { responses, requests: Vec::new() }
    }

    /// The requests sent so far, in order.
    pub fn requests(&self) -> (r: Vec<HttpRequest>)
        ensures
            r@.len() == self.sent().len(),
            forall|i: int| 0 <= i < r@.len() ==> same_request(#[trigger] r@[i], self.sent()[i]),
    {
        let mut r: Vec<HttpRequest> = Vec::new();
        let mut i: usize = 0;
        while i < self.requests.len()
            invariant
                i <= self.requests.len(),
                r@.len() == i,
                forall|j: int| 0 <= j < i ==> same_request(#[trigger] r@[j], self.requests@[j]),
            decreases self.requests.len() - i,
        {
            r.push(copy_request(&self.requests[i]));
            i = i + 1;
        }
        r
    }

    /// Records `request` and answers with the next configured response, or
    /// `FakeExhausted` once none is left.
    pub fn send(&mut self, request: HttpRequest) -> (r: Result<HttpResponse, HttpError>)
        ensures
            final(self).sent() == old(self).sent().push(request),
            old(self).pending().len() > 0 ==> r == Ok::<HttpResponse, HttpError>(old(self).pending()[0])
                && final(self).pending() == old(self).pending().drop_first(),
            old(self).pending().len() == 0 ==> r is Err && r->Err_0 is FakeExhausted
                && final(self).pending() == old(self).pending(),
    {
        self.requests.push(request);
        if self.responses.len() > 0 {
            let resp = self.responses.remove(0);
            assert(self.responses@ =~= old(self).responses@.drop_first());
            Ok(resp)
        } else {
            Err(HttpError::FakeExhausted)
        }
    }
}

/// Whether two requests carry the same method, URL, headers and body.
pub open spec fn same_request(a: HttpRequest, b: HttpRequest) -> bool {
    &&& a.method@ == b.method@
    &&& a.url@ == b.url@
    &&& header_views(a.headers@) == header_views(b.headers@)
    &&& a.body@ == b.body@
}

fn copy_slice(b: &[u8]) -> (c: Vec<u8>)
    ensures
        c@ == b@,
{
    let mut c: Vec<u8> = Vec::new();
    let mut i: usize = 0;
    while i < b.len()
        invariant
            i <= b@.len(),
            c@ == b@.take(i as int),
        decreases b.len() - i,
    {
        c.push(b[i]);
        assert(b@.take(i + 1) =~= b@.take(i as int).push(b@[i as int]));
        i = i + 1;
    }
    assert(b@.take(b@.len() as int) =~= b@);
    c
}

fn copy_request(q: &HttpRequest) -> (c: HttpRequest)
    ensures
        same_request(c, *q),
{
    let mut headers: Vec<(String, String)> = Vec::new();
    let mut i: usize = 0;
    while i < q.headers.len()
        invariant
            i <= q.headers.len(),
            header_views(headers@) == header_views(q.headers@.take(i as int)),
        decreases q.headers.len() - i,
    {
        let ghost before = headers@;
        let name = q.headers[i].0.clone();
        let value = q.headers[i].1.clone();
        headers.push((name, value));
        proof {
            assert(q.headers@.take(i + 1) =~= q.headers@.take(i as int).push(q.headers@[i as int]));
            assert(header_views(headers@) =~= header_views(before).push((name@, value@)));
            assert(header_views(q.headers@.take(i + 1)) =~= header_views(q.headers@.take(i as int)).push((name@, value@)));
        }
        i = i + 1;
    }
    assert(q.headers@.take(q.headers.len() as int) =~= q.headers@);
    HttpRequest { method: q.method.clone(), url: q.url.clone(), headers, body: copy_slice(q.body.as_slice()) }
}

} // verus!
