//! Turning the service's response into the invocation response: draining
//! the body, choosing between text and binary transmission, and the
//! fallback when the service failed.
use vstd::prelude::*;
use vstd::utf8::*;
use crate::text::{all_ascii, ascii_chars, ascii_text, text_from_utf8};

verus! {

broadcast use group_utf8_lib;

/// The body of an invocation response.
pub enum ResponseBody {
    Text(String),
    Binary(Vec<u8>),
}

/// The response handed back to the serverless host.
pub struct InvocationResponse {
    pub status: u16,
    pub headers: Vec<(String, Vec<u8>)>,
    pub body: ResponseBody,
}

/// Why an invocation failed.
#[derive(Debug, PartialEq, Eq, Structural)]
pub enum InvocationError {
    /// The body of a successful response could not be drained.
    BodyUnavailable,
    /// A body to be sent as text is not valid UTF-8.
    NotUtf8,
}

/// Where a response came from.
#[derive(Debug, Clone, Copy, PartialEq, Eq, Structural)]
pub enum ResponseSource {
    /// The service answered.
    Service,
    /// The service failed, and this is the response its failure renders.
    ErrorRendering,
}

/// The bytes of a header value that read as text: visible ASCII and tab.
pub open spec fn is_text_byte(b: u8) -> bool {
    (32 <= b && b < 127) || b == 9
}

/// Whether a header value reads as text.
pub open spec fn is_text_value(v: Seq<u8>) -> bool {
    forall|i: int| 0 <= i < v.len() ==> is_text_byte(#[trigger] v[i])
}

/// The name of the content-type header, as header maps hold it.
pub open spec fn content_type_name() -> Seq<char> {
    seq!['c', 'o', 'n', 't', 'e', 'n', 't', '-', 't', 'y', 'p', 'e']
}

/// The content type of a response: the first `content-type` header's value
/// when it reads as text, else the empty string.
pub open spec fn content_type_of(headers: Seq<(String, Vec<u8>)>) -> Seq<char>
    decreases headers.len(),
{
    if headers.len() == 0 {
        seq![]
    } else if headers[0].0@ == content_type_name() {
        if is_text_value(headers[0].1@) {
            ascii_chars(headers[0].1@)
        } else {
            seq![]
        }
    } else {
        content_type_of(headers.drop_first())
    }
}

/// Whether a header value reads as text.
pub fn header_value_is_text(v: &Vec<u8>) -> (r: bool)
    ensures
        r == is_text_value(v@),
{
    let mut i: usize = 0;
    while i < v.len()
        invariant
            i <= v@.len(),
            forall|j: int| 0 <= j < i ==> is_text_byte(#[trigger] v@[j]),
        decreases v@.len() - i,
    {
        let b = v[i];
        if !((32 <= b && b < 127) || b == 9) {
            return false;
        }
        i = i + 1;
    }
    true
}

/// The content type of a response, or the empty string where it has no
/// `content-type` header or its value does not read as text.
pub fn content_type(headers: &Vec<(String, Vec<u8>)>) -> (r: String)
    ensures
        r@ == content_type_of(headers@),
{
    let name = String::from_str("content-type");
    proof {
        reveal_strlit("content-type");
        assert(name@ =~= content_type_name());
        assert(headers@.subrange(0, headers@.len() as int) =~= headers@);
    }
    let mut i: usize = 0;
    while i < headers.len()
        invariant
            i <= headers@.len(),
            name@ == content_type_name(),
            content_type_of(headers@) == content_type_of(headers@.subrange(i as int, headers@.len() as int)),
        decreases headers@.len() - i,
    {
        proof {
            let rest = headers@.subrange(i as int, headers@.len() as int);
            assert(rest.drop_first() =~= headers@.subrange(i + 1, headers@.len() as int));
            assert(rest[0] == headers@[i as int]);
        }
        if headers[i].0 == name {
            if header_value_is_text(&headers[i].1) {
                let v = headers[i].1.clone();
                proof {
                    assert(v@ == headers@[i as int].1@);
                    assert(all_ascii(v@));
                }
                return ascii_text(v);
            } else {
                return String::new();
            }
        }
        i = i + 1;
    }
    assert(headers@.subrange(i as int, headers@.len() as int) =~= Seq::<(String, Vec<u8>)>::empty());
    String::new()
}

/// The concatenation of a sequence of chunks.
pub open spec fn concat_chunks(chunks: Seq<Vec<u8>>) -> Seq<u8>
    decreases chunks.len(),
{
    if chunks.len() == 0 {
        seq![]
    } else {
        concat_chunks(chunks.drop_last()) + chunks.last()@
    }
}

/// Folds the chunks of a response body, in order, into one buffer.
pub fn materialize(chunks: &Vec<Vec<u8>>) -> (r: Vec<u8>)
    ensures
        r@ == concat_chunks(chunks@),
{
    let mut acc: Vec<u8> = Vec::new();
    let mut i: usize = 0;
    while i < chunks.len()
        invariant
            i <= chunks@.len(),
            acc@ == concat_chunks(chunks@.subrange(0, i as int)),
        decreases chunks@.len() - i,
    {
        let mut c = chunks[i].clone();
        proof {
            let sub = chunks@.subrange(0, i + 1);
            assert(sub.drop_last() =~= chunks@.subrange(0, i as int));
        }
        acc.append(&mut c);
        i = i + 1;
    }
    assert(chunks@.subrange(0, i as int) =~= chunks@);
    acc
}

/// A binary body that carries exactly the given bytes.
pub open spec fn is_binary_body(body: ResponseBody, bytes: Seq<u8>) -> bool {
    match body {
        ResponseBody::Binary(b) => b@ == bytes,
        ResponseBody::Text(_) => false,
    }
}

/// A text body whose UTF-8 encoding is exactly the given bytes.
pub open spec fn is_text_body(body: ResponseBody, bytes: Seq<u8>) -> bool {
    match body {
        ResponseBody::Text(s) => s@ == decode_utf8(bytes) && encode_utf8(s@) == bytes,
        ResponseBody::Binary(_) => false,
    }
}

/// Encodes a drained body: as binary, its bytes unchanged; as text, the
/// string its bytes spell, or `NotUtf8` where they are not valid UTF-8.
pub fn encode_body(bytes: Vec<u8>, binary: bool) -> (r: Result<ResponseBody, InvocationError>)
    ensures
        binary ==> (r matches Ok(body) && is_binary_body(body, bytes@)),
        !binary && valid_utf8(bytes@) ==> (r matches Ok(body) && is_text_body(body, bytes@)),
        !binary && !valid_utf8(bytes@) ==> r == Err::<ResponseBody, InvocationError>(InvocationError::NotUtf8),
{
    if binary {
        Ok(ResponseBody::Binary(bytes))
    } else {
        match text_from_utf8(bytes) {
            Some(s) => Ok(ResponseBody::Text(s)),
            None => Err(InvocationError::NotUtf8),
        }
    }
}

/// The body to send, from what draining the response's body gave (`None`
/// where it failed): a failed drain fails the invocation for the service's
/// own response, and leaves an empty body for a rendered error response.
pub fn settle_body(source: ResponseSource, drained: Option<Vec<u8>>) -> (r: Result<Vec<u8>, InvocationError>)
    ensures
        drained matches Some(d) ==> (r matches Ok(b) && b@ == d@),
        drained is None && source == ResponseSource::Service ==> r == Err::<Vec<u8>, InvocationError>(
            InvocationError::BodyUnavailable,
        ),
        drained is None && source == ResponseSource::ErrorRendering ==> (r matches Ok(b) && b@.len() == 0),
{
    match drained {
        Some(d) => Ok(d),
        None => match source {
            ResponseSource::Service => Err(InvocationError::BodyUnavailable),
            ResponseSource::ErrorRendering => Ok(Vec::new()),
        },
    }
}

/// What `respond` returns, given as its conditions.
pub open spec fn responded(
    source: ResponseSource,
    status: u16,
    headers: Seq<(String, Vec<u8>)>,
    drained: Option<Seq<u8>>,
    binary: bool,
    r: Result<InvocationResponse, InvocationError>,
) -> bool {
    let bytes = match drained {
        Some(d) => d,
        None => Seq::<u8>::empty(),
    };
    if drained is None && source == ResponseSource::Service {
        r == Err::<InvocationResponse, InvocationError>(InvocationError::BodyUnavailable)
    } else if binary {
        r matches Ok(resp) && resp.status == status && resp.headers@ == headers
            && is_binary_body(resp.body, bytes)
    } else if valid_utf8(bytes) {
        r matches Ok(resp) && resp.status == status && resp.headers@ == headers
            && is_text_body(resp.body, bytes)
    } else {
        r == Err::<InvocationResponse, InvocationError>(InvocationError::NotUtf8)
    }
}

/// The view of an optional buffer.
pub open spec fn drained_view(d: Option<Vec<u8>>) -> Option<Seq<u8>> {
    match d {
        Some(v) => Some(v@),
        None => None,
    }
}

/// Builds the invocation response from a response's status and headers,
/// what draining its body gave, and whether its content type is sent as
/// binary: the body settled as `settle_body` does, then encoded as
/// `encode_body` does; status and headers are carried over unchanged.
pub fn respond(
    source: ResponseSource,
    status: u16,
    headers: Vec<(String, Vec<u8>)>,
    drained: Option<Vec<u8>>,
    binary: bool,
) -> (r: Result<InvocationResponse, InvocationError>)
    ensures
        responded(source, status, headers@, drained_view(drained), binary, r),
{
    let ghost dv = drained_view(drained);
    let bytes = match settle_body(source, drained) {
        Ok(b) => b,
        Err(e) => return Err(e),
    };
    proof {
        if dv is None {
            assert(bytes@ =~= Seq::<u8>::empty());
        }
    }
    match encode_body(bytes, binary) {
        Ok(body) => Ok(InvocationResponse { status, headers, body }),
        Err(e) => Err(e),
    }
}

/// A response whose content type is classified as binary carries the
/// drained bytes exactly, whatever they are.
pub proof fn lemma_binary_body_exact(
    source: ResponseSource,
    status: u16,
    headers: Seq<(String, Vec<u8>)>,
    bytes: Seq<u8>,
    r: Result<InvocationResponse, InvocationError>,
)
    requires
        responded(source, status, headers, Some(bytes), true, r),
    ensures
        r matches Ok(resp) && is_binary_body(resp.body, bytes),
{
}

/// A response classified as text whose drained bytes are the UTF-8 encoding
/// of a string carries exactly that string.
pub proof fn lemma_text_body_exact(
    source: ResponseSource,
    status: u16,
    headers: Seq<(String, Vec<u8>)>,
    text: Seq<char>,
    r: Result<InvocationResponse, InvocationError>,
)
    requires
        responded(source, status, headers, Some(encode_utf8(text)), false, r),
    ensures
        r matches Ok(resp) && resp.body matches ResponseBody::Text(s) && s@ == text,
{
}

/// A response classified as text whose drained bytes are not valid UTF-8
/// fails the invocation with `NotUtf8`, rather than carrying altered text.
pub proof fn lemma_text_body_not_utf8(
    source: ResponseSource,
    status: u16,
    headers: Seq<(String, Vec<u8>)>,
    bytes: Seq<u8>,
    r: Result<InvocationResponse, InvocationError>,
)
    requires
        responded(source, status, headers, Some(bytes), false, r),
        !valid_utf8(bytes),
    ensures
        r == Err::<InvocationResponse, InvocationError>(InvocationError::NotUtf8),
{
}

/// A set of content types whose responses are sent as binary.
pub struct BinaryMediaTypes {
    types: Vec<String>,
}

impl View for BinaryMediaTypes {
    type V = Seq<Seq<char>>;

    closed spec fn view(&self) -> Seq<Seq<char>> {
        self.types@.map_values(|t: String| t@)
    }
}

impl BinaryMediaTypes {
    /// The set of the given content types.
    pub fn new(types: Vec<String>) -> (r: Self)
        ensures
            r@ == types@.map_values(|t: String| t@),
    {
        BinaryMediaTypes { types }
    }

    /// Whether a content type is one of the set's, compared exactly.
    pub fn is_binary(&self, content_type: &str) -> (r: bool)
        ensures
            r == self@.contains(content_type@),
    {
        let ct = String::from_str(content_type);
        let mut i: usize = 0;
        while i < self.types.len()
            invariant
                i <= self.types@.len(),
                ct@ == content_type@,
                forall|j: int| 0 <= j < i ==> self.types@[j]@ != content_type@,
            decreases self.types@.len() - i,
        {
            if self.types[i] == ct {
                proof {
                    assert(self@[i as int] == content_type@);
                }
                return true;
            }
            i = i + 1;
        }
        proof {
            if self@.contains(content_type@) {
                let k = choose|k: int| 0 <= k < self@.len() && self@[k] == content_type@;
                assert(self.types@[k]@ == content_type@);
            }
        }
        false
    }
}

} // verus!
