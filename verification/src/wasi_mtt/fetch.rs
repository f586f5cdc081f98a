use crate::wasi_mtt::ctx::{key_after, next_free, Context, Resource, ResourceKind, Response};
use crate::wasi_mtt::error::{Cause, Error, ErrorExt, ErrorKind};
use crate::wasi_mtt::pledge::{permits, Promises};
use vstd::prelude::*;
use vstd::string::StringExecFns;

verus! {

/// How long to wait for an answer, as the extension may give it.
#[derive(Debug, Clone, Copy, PartialEq, Eq, Structural)]
pub enum Timeout {
    /// Seconds and nanoseconds.
    Duration(Duration),
    /// Milliseconds.
    U64(u64),
}

/// A span of time in seconds and nanoseconds.
#[derive(Debug, Clone, Copy, PartialEq, Eq, Structural)]
pub struct Duration {
    pub secs: u64,
    pub nanos: u32,
}

/// What the body of the answer is expected to be.
#[derive(Debug, Clone, Copy, PartialEq, Eq, Structural)]
pub enum ResponseType {
    Json,
    Text,
    Binary,
}

/// What an extension can say about a request besides its address.
#[derive(Debug, Clone, PartialEq, Eq)]
pub struct FetchOptions {
    pub method: String,
    pub timeout: Option<Timeout>,
    pub headers: Option<Vec<(String, String)>>,
    pub query: Option<Vec<(String, String)>>,
    pub response_type: Option<ResponseType>,
    pub body: Option<Vec<u8>>,
}

/// A network request, ready to be sent.
#[derive(Debug, Clone, PartialEq, Eq)]
pub struct Request {
    pub method: String,
    pub url: String,
    /// The time to wait, with less than a second of nanoseconds.
    pub timeout: Option<Duration>,
    pub headers: Vec<(String, String)>,
    pub query: Vec<(String, String)>,
    pub response_type: Option<ResponseType>,
    pub body: Option<Vec<u8>>,
}

/// The nanoseconds of a second.
pub const NANOS_PER_SEC: u32 = 1_000_000_000;

/// The milliseconds of a second.
pub const MILLIS_PER_SEC: u64 = 1_000;

/// The nanoseconds of a millisecond.
pub const NANOS_PER_MILLI: u32 = 1_000_000;

/// The time that `timeout` stands for, in nanoseconds.
pub open spec fn timeout_nanos(timeout: Timeout) -> nat {
    match timeout {
        Timeout::Duration(d) => (d.secs as nat) * 1_000_000_000 + d.nanos as nat,
        Timeout::U64(ms) => (ms as nat) * 1_000_000,
    }
}

impl Duration {
    /// The span in nanoseconds.
    pub open spec fn total_nanos(&self) -> nat {
        (self.secs as nat) * 1_000_000_000 + self.nanos as nat
    }
}

/// The span of time that `timeout` stands for, with the whole seconds of
/// its nanoseconds carried over. Fails with an overflow where the seconds do
/// not fit 64 bits.
pub fn timeout_duration(timeout: Timeout) -> (r: Result<Duration, Error>)
    ensures
        r.is_ok() <==> timeout_nanos(timeout) < 0x1_0000_0000_0000_0000 * 1_000_000_000,
        match r {
            Ok(d) => d.nanos < NANOS_PER_SEC && d.total_nanos() == timeout_nanos(timeout),
            Err(e) => e.cause == Cause::Kind(ErrorKind::Overflow),
        },
{
    match timeout {
        Timeout::Duration(d) => {
            let carry: u64 = (d.nanos / NANOS_PER_SEC) as u64;
            let nanos: u32 = d.nanos % NANOS_PER_SEC;
            match d.secs.checked_add(carry) {
                Some(secs) => Ok(Duration { secs, nanos }),
                None => Err(Error::from_cause(Cause::Kind(ErrorKind::Overflow))),
            }
        },
        Timeout::U64(ms) => {
            let secs: u64 = ms / MILLIS_PER_SEC;
            let rest: u32 = (ms % MILLIS_PER_SEC) as u32;
            Ok(Duration { secs, nanos: rest * NANOS_PER_MILLI })
        },
    }
}

/// The pairs of `v`, each string by its characters.
pub open spec fn pairs_view(v: Seq<(String, String)>) -> Seq<(Seq<char>, Seq<char>)> {
    v.map_values(|p: (String, String)| (p.0@, p.1@))
}

/// What `build_request` makes of an address and the options given with it.
pub open spec fn request_matches(request: Request, url: Seq<char>, opts: Option<FetchOptions>) -> bool {
    &&& request.url@ == url
    &&& match opts {
        None => {
            &&& request.method@ == "Get"@
            &&& request.timeout.is_none()
            &&& request.headers@.len() == 0
            &&& request.query@.len() == 0
            &&& request.response_type.is_none()
            &&& request.body.is_none()
        },
        Some(o) => {
            &&& request.method@ == o.method@
            &&& match o.timeout {
                None => request.timeout.is_none(),
                Some(t) => request.timeout matches Some(d) && d.nanos < NANOS_PER_SEC
                    && d.total_nanos() == timeout_nanos(t),
            }
            &&& pairs_view(request.headers@) == match o.headers {
                None => Seq::empty(),
                Some(h) => pairs_view(h@),
            }
            &&& pairs_view(request.query@) == match o.query {
                None => Seq::empty(),
                Some(q) => pairs_view(q@),
            }
            &&& request.response_type == o.response_type
            &&& match o.body {
                None => request.body.is_none(),
                Some(b) => request.body matches Some(rb) && rb@ == b@,
            }
        },
    }
}

/// Whether the time that the options ask to wait can be held in seconds of
/// 64 bits.
pub open spec fn timeout_fits(opts: Option<FetchOptions>) -> bool {
    match opts {
        Some(o) => match o.timeout {
            Some(t) => timeout_nanos(t) < 0x1_0000_0000_0000_0000 * 1_000_000_000,
            None => true,
        },
        None => true,
    }
}

/// The request for `url` that `opts` describe: a plain `Get` where there
/// are none.
pub fn build_request(url: String, opts: Option<FetchOptions>) -> (r: Result<Request, Error>)
    ensures
        r.is_ok() <==> timeout_fits(opts),
        match r {
            Ok(request) => request_matches(request, url@, opts),
            Err(e) => e.cause == Cause::Kind(ErrorKind::Overflow),
        },
{
    proof {
        assert(pairs_view(Seq::<(String, String)>::empty()) =~= Seq::empty());
    }
    match opts {
        None => Ok(
            Request {
                method: String::from_str("Get"),
                url,
                timeout: None,
                headers: Vec::new(),
                query: Vec::new(),
                response_type: None,
                body: None,
            },
        ),
        Some(opts) => {
            let timeout = match opts.timeout {
                None => None,
                Some(timeout) => match timeout_duration(timeout) {
                    Ok(duration) => Some(duration),
                    Err(e) => {
                        return Err(e);
                    },
                },
            };
            let headers = match opts.headers {
                None => Vec::new(),
                Some(headers) => headers,
            };
            let query = match opts.query {
                None => Vec::new(),
                Some(query) => query,
            };
            Ok(
                Request {
                    method: opts.method,
                    url,
                    timeout,
                    headers,
                    query,
                    response_type: opts.response_type,
                    body: opts.body,
                },
            )
        },
    }
}

/// The texts of a list of headers, or nothing where a value has no text.
pub open spec fn header_texts(headers: Seq<(String, Option<String>)>) -> Option<
    Seq<(Seq<char>, Seq<char>)>,
> {
    if forall|i: int| 0 <= i < headers.len() ==> (#[trigger] headers[i]).1.is_some() {
        Some(headers.map_values(|h: (String, Option<String>)| (h.0@, h.1.unwrap()@)))
    } else {
        None
    }
}

impl Context {
    /// Whether an accessor may read the answer behind `response`, and the
    /// error that it fails with where it may not.
    pub open spec fn response_readable(&self, response: u32) -> bool {
        &&& permits(self.promises, Promises::fetch())
        &&& self.resource_table@.contains_key(response)
        &&& self.resource_table@[response] is Response
    }

    /// The answer behind `response`.
    pub open spec fn spec_response(&self, response: u32) -> Response {
        self.resource_table@[response]->Response_0
    }

    /// What an accessor fails with on `response`: permission denied
    /// without the fetch permission, and a bad file descriptor where the
    /// handle stands for no answer.
    pub open spec fn response_error(&self, response: u32, e: Error) -> bool {
        if !permits(self.promises, Promises::fetch()) {
            e.cause == Cause::Kind(ErrorKind::Perm)
        } else {
            e.cause == Cause::Kind(ErrorKind::Badf)
        }
    }

    /// The answer behind the handle `response`. Needs the fetch permission.
    pub fn response(&self, response: u32) -> (r: Result<&Response, Error>)
        ensures
            match r {
                Ok(resp) => self.response_readable(response) && *resp == self.spec_response(
                    response,
                ),
                Err(e) => !self.response_readable(response) && self.response_error(response, e),
            },
    {
        self.require(Promises::fetch())?;
        match self.resource_table.get(response, ResourceKind::Response)? {
            Resource::Response(resp) => Ok(resp),
            Resource::Stdio(_) => Err(Error::badf()),
        }
    }

    /// The first half of a fetch: the request that the host is to send.
    /// Needs the fetch permission.
    pub fn fetch(&mut self, url: String, opts: Option<FetchOptions>) -> (r: Result<Request, Error>)
        ensures
            *final(self) == *old(self),
            r.is_ok() <==> permits(old(self).promises, Promises::fetch()) && timeout_fits(opts),
            match r {
                Ok(request) => request_matches(request, url@, opts),
                Err(e) => if !permits(old(self).promises, Promises::fetch()) {
                    e.cause == Cause::Kind(ErrorKind::Perm)
                } else {
                    e.cause == Cause::Kind(ErrorKind::Overflow)
                },
            },
    {
        self.require(Promises::fetch())?;
        build_request(url, opts)
    }

    /// The second half of a fetch: keeps the answer that came back and
    /// returns the handle under which the accessors find it.
    pub fn fetch_complete(&mut self, response: Response) -> (r: Result<u32, Error>)
        ensures
            final(self).promises == old(self).promises,
            r.is_ok() <==> old(self).resource_table@.dom().len() < u32::MAX,
            match r {
                Ok(key) => {
                    &&& key == next_free(
                        old(self).resource_table@,
                        old(self).resource_table.next_key(),
                    )
                    &&& !old(self).resource_table@.contains_key(key)
                    &&& final(self).resource_table@ == old(self).resource_table@.insert(
                        key,
                        Resource::Response(response),
                    )
                    &&& final(self).resource_table.next_key() == key_after(key, 1)
                },
                Err(e) => {
                    &&& final(self).resource_table@ == old(self).resource_table@
                    &&& final(self).resource_table.next_key() == old(
                        self,
                    ).resource_table.next_key()
                    &&& e.cause == Cause::Trap
                },
            },
    {
        self.resource_table.push(Resource::Response(response))
    }

    /// The body of an answer.
    pub fn body(&mut self, response: u32) -> (r: Result<Vec<u8>, Error>)
        ensures
            *final(self) == *old(self),
            match r {
                Ok(bytes) => old(self).response_readable(response) && bytes@ == old(
                    self,
                ).spec_response(response).body@,
                Err(e) => !old(self).response_readable(response) && old(self).response_error(
                    response,
                    e,
                ),
            },
    {
        Ok(self.response(response)?.body.clone())
    }

    /// The headers of an answer, names and values as text. Fails with an
    /// illegal byte sequence where a value has no text.
    pub fn headers(&mut self, response: u32) -> (r: Result<Vec<(String, String)>, Error>)
        ensures
            *final(self) == *old(self),
            match r {
                Ok(out) => {
                    &&& old(self).response_readable(response)
                    &&& header_texts(old(self).spec_response(response).headers@) == Some(
                        pairs_view(out@),
                    )
                },
                Err(e) => if old(self).response_readable(response) {
                    &&& header_texts(old(self).spec_response(response).headers@).is_none()
                    &&& e.cause == Cause::Kind(ErrorKind::Ilseq)
                } else {
                    old(self).response_error(response, e)
                },
            },
    {
        let headers = &self.response(response)?.headers;
        let mut out: Vec<(String, String)> = Vec::new();
        let mut i: usize = 0;
        while i < headers.len()
            invariant
                *self == *old(self),
                old(self).response_readable(response),
                headers@ == old(self).spec_response(response).headers@,
                i <= headers.len(),
                out@.len() == i,
                forall|j: int| 0 <= j < i ==> (#[trigger] headers@[j]).1.is_some(),
                forall|j: int|
                    0 <= j < i ==> (#[trigger] out@[j]).0@ == headers@[j].0@ && out@[j].1@
                        == headers@[j].1.unwrap()@,
            decreases headers.len() - i,
        {
            match &headers[i].1 {
                Some(value) => {
                    out.push((headers[i].0.clone(), value.clone()));
                },
                None => {
                    assert(headers@[i as int].1.is_none());
                    return Err(Error::from_cause(Cause::Kind(ErrorKind::Ilseq)));
                },
            }
            i += 1;
        }
        proof {
            assert(pairs_view(out@) =~= headers@.map_values(
                |h: (String, Option<String>)| (h.0@, h.1.unwrap()@),
            ));
        }
        Ok(out)
    }

    /// Whether the status of an answer is a success: in the range 200-299.
    pub fn ok(&mut self, response: u32) -> (r: Result<bool, Error>)
        ensures
            *final(self) == *old(self),
            match r {
                Ok(b) => old(self).response_readable(response) && b == (200 <= old(
                    self,
                ).spec_response(response).status < 300),
                Err(e) => !old(self).response_readable(response) && old(self).response_error(
                    response,
                    e,
                ),
            },
    {
        let status = self.response(response)?.status;
        Ok(200 <= status && status < 300)
    }

    /// Whether the status of an answer is a redirection: in the range
    /// 300-399.
    pub fn redirected(&mut self, response: u32) -> (r: Result<bool, Error>)
        ensures
            *final(self) == *old(self),
            match r {
                Ok(b) => old(self).response_readable(response) && b == (300 <= old(
                    self,
                ).spec_response(response).status < 400),
                Err(e) => !old(self).response_readable(response) && old(self).response_error(
                    response,
                    e,
                ),
            },
    {
        let status = self.response(response)?.status;
        Ok(300 <= status && status < 400)
    }

    /// The status code of an answer.
    pub fn status(&mut self, response: u32) -> (r: Result<u16, Error>)
        ensures
            *final(self) == *old(self),
            match r {
                Ok(code) => old(self).response_readable(response) && code == old(
                    self,
                ).spec_response(response).status,
                Err(e) => !old(self).response_readable(response) && old(self).response_error(
                    response,
                    e,
                ),
            },
    {
        Ok(self.response(response)?.status)
    }

    /// The status of an answer as text: the code and its reason phrase.
    pub fn status_text(&mut self, response: u32) -> (r: Result<String, Error>)
        ensures
            *final(self) == *old(self),
            match r {
                Ok(text) => old(self).response_readable(response) && text@ == old(
                    self,
                ).spec_response(response).status_text@,
                Err(e) => !old(self).response_readable(response) && old(self).response_error(
                    response,
                    e,
                ),
            },
    {
        Ok(self.response(response)?.status_text.clone())
    }
}

} // verus!
