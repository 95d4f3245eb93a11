//! Invocation events and their normalization into service requests.
use vstd::prelude::*;
use vstd::slice::slice_to_vec;
use vstd::utf8::*;
use crate::query::{build_path_and_query, path_and_query};

verus! {

/// The body of an invocation event.
pub enum EventBody {
    Empty,
    Text(String),
    Binary(Vec<u8>),
}

/// One invocation as the serverless host delivers it. Header names are held
/// in lower case, as the host's header map holds them.
pub struct InvocationEvent {
    pub method: String,
    pub scheme: Option<String>,
    pub authority: Option<String>,
    pub path: String,
    pub query: Vec<(String, String)>,
    pub headers: Vec<(String, Vec<u8>)>,
    pub body: EventBody,
}

/// The request handed to the service.
pub struct NormalizedRequest {
    pub method: String,
    pub uri: String,
    pub headers: Vec<(String, Vec<u8>)>,
    pub payload: Vec<u8>,
}

/// Why an event could not be turned into a request.
#[derive(Debug, PartialEq, Eq, Structural)]
pub enum NormalizeError {
    /// The event's URI has no scheme.
    MissingScheme,
    /// The event's URI has no authority.
    MissingAuthority,
    /// The URI builder refused the reconstructed parts.
    InvalidUri,
}

/// The URI text that the URI builder makes of a scheme, an authority and a
/// path with its query, or `None` where it refuses them.
pub uninterp spec fn built_uri(
    scheme: Seq<char>,
    authority: Seq<char>,
    path_and_query: Seq<char>,
) -> Option<Seq<char>>;

/// Relies on http's `uri::Builder` (`scheme`, `authority`, `path_and_query`,
/// `build`) and on `Uri`'s text form: the result depends on the three parts
/// alone, and is `None` where the builder refuses them.
#[verifier::external_body]
fn build_uri(scheme: &str, authority: &str, path_and_query: &str) -> (r: Option<String>)
    ensures
        match r {
            Some(u) => built_uri(scheme@, authority@, path_and_query@) == Some(u@),
            None => built_uri(scheme@, authority@, path_and_query@) is None,
        },
{
    let mut builder = lambda_http::http::uri::Builder::new();
    builder.scheme(scheme).authority(authority).path_and_query(path_and_query);
    builder.build().ok().map(|u| u.to_string())
}

/// The bytes that a body carries.
pub open spec fn body_bytes(b: EventBody) -> Seq<u8> {
    match b {
        EventBody::Empty => seq![],
        EventBody::Text(t) => encode_utf8(t@),
        EventBody::Binary(v) => v@,
    }
}

/// The text of an optional string.
pub open spec fn opt_view(o: Option<String>) -> Option<Seq<char>> {
    match o {
        Some(s) => Some(s@),
        None => None,
    }
}

/// The parts of an event that its request URI is made of.
pub open spec fn origin_of(e: InvocationEvent) -> (
    Option<Seq<char>>,
    Option<Seq<char>>,
    Seq<char>,
    Seq<(Seq<char>, Seq<char>)>,
) {
    (
        opt_view(e.scheme),
        opt_view(e.authority),
        e.path@,
        e.query@.map_values(|p: (String, String)| (p.0@, p.1@)),
    )
}

/// The URI of the request that an event with a scheme and an authority is
/// normalized into.
pub open spec fn request_uri(e: InvocationEvent) -> Option<Seq<char>>
    recommends
        e.scheme is Some,
        e.authority is Some,
{
    built_uri(e.scheme->Some_0@, e.authority->Some_0@, path_and_query(e.path@, e.query@))
}

/// What `normalize` returns for an event, given as its conditions.
pub open spec fn normalized(e: InvocationEvent, r: Result<NormalizedRequest, NormalizeError>) -> bool {
    if e.scheme is None {
        r == Err::<NormalizedRequest, NormalizeError>(NormalizeError::MissingScheme)
    } else if e.authority is None {
        r == Err::<NormalizedRequest, NormalizeError>(NormalizeError::MissingAuthority)
    } else {
        match request_uri(e) {
            None => r == Err::<NormalizedRequest, NormalizeError>(NormalizeError::InvalidUri),
            Some(u) => match r {
                Ok(req) => req.uri@ == u && req.method@ == e.method@ && req.headers@ == e.headers@
                    && req.payload@ == body_bytes(e.body),
                Err(_) => false,
            },
        }
    }
}

/// Turns an event into the request for the service: method and headers as
/// they are, the body's bytes as the payload, and the URI rebuilt from the
/// scheme, the authority, the path and the re-encoded query parameters. The
/// headers and the body move out of the event, which is left with none.
pub fn normalize(event: &mut InvocationEvent) -> (r: Result<NormalizedRequest, NormalizeError>)
    ensures
        normalized(*old(event), r),
        final(event).headers@.len() == 0,
        final(event).body is Empty,
        final(event).method == old(event).method,
        final(event).scheme == old(event).scheme,
        final(event).authority == old(event).authority,
        final(event).path == old(event).path,
        final(event).query == old(event).query,
{
    let mut body = EventBody::Empty;
    core::mem::swap(&mut event.body, &mut body);
    let mut headers: Vec<(String, Vec<u8>)> = Vec::new();
    core::mem::swap(&mut event.headers, &mut headers);
    let scheme = match &event.scheme {
        Some(s) => s.as_str(),
        None => return Err(NormalizeError::MissingScheme),
    };
    let authority = match &event.authority {
        Some(a) => a.as_str(),
        None => return Err(NormalizeError::MissingAuthority),
    };
    let pq = build_path_and_query(event.path.as_str(), &event.query);
    let uri = match build_uri(scheme, authority, pq.as_str()) {
        Some(u) => u,
        None => return Err(NormalizeError::InvalidUri),
    };
    let payload = match body {
        EventBody::Empty => Vec::new(),
        EventBody::Text(t) => slice_to_vec(t.as_str().as_bytes()),
        EventBody::Binary(b) => b,
    };
    let method = event.method.clone();
    Ok(NormalizedRequest { method, uri, headers, payload })
}

/// Normalizing two events that agree on their scheme, authority, path and
/// query parameters yields the same request URI: re-running normalization on
/// a copy of an event gives the URI of the first run, and the headers
/// handed over are the event's own each time.
pub proof fn lemma_normalize_repeatable(
    a: InvocationEvent,
    b: InvocationEvent,
    ra: Result<NormalizedRequest, NormalizeError>,
    rb: Result<NormalizedRequest, NormalizeError>,
)
    requires
        origin_of(a) == origin_of(b),
        a.headers@ == b.headers@,
        normalized(a, ra),
        normalized(b, rb),
    ensures
        ra is Ok <==> rb is Ok,
        ra is Ok ==> ra->Ok_0.uri@ == rb->Ok_0.uri@ && ra->Ok_0.headers@ == rb->Ok_0.headers@,
        ra is Err ==> ra == rb,
{
    assert(a.path@ == b.path@);
    assert(origin_of(a).3.len() == a.query@.len());
    assert(origin_of(b).3.len() == b.query@.len());
    assert forall|i: int| 0 <= i < a.query@.len() implies #[trigger] a.query@[i].0@ == b.query@[i].0@
        && a.query@[i].1@ == b.query@[i].1@ by {
        assert(origin_of(a).3[i] == (a.query@[i].0@, a.query@[i].1@));
        assert(origin_of(b).3[i] == (b.query@[i].0@, b.query@[i].1@));
    }
    assert(crate::query::param_bytes(a.query@) =~= crate::query::param_bytes(b.query@));
    if a.scheme is Some && a.authority is Some {
        assert(opt_view(a.scheme) == opt_view(b.scheme));
        assert(opt_view(a.authority) == opt_view(b.authority));
        assert(path_and_query(a.path@, a.query@) == path_and_query(b.path@, b.query@));
        assert(request_uri(a) == request_uri(b));
    }
}

} // verus!
