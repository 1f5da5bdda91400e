//! What a handler answers, and the response that is made of it.

use vstd::prelude::*;
use vstd::string::*;

use crate::header::{header_name_ok, header_value_ok, status_ok, valid_header_name, valid_header_value, valid_status};
use crate::pairs::pairs_view;
use crate::readable_stream::ReadableStream;

verus! {

/// The body of a handler's answer: the bytes themselves, or the handle of a
/// read callable from which they will come.
#[derive(Debug, PartialEq, Eq)]
pub enum StreamOrBytes {
    Bytes(Vec<u8>),
    Stream(usize),
}

/// A handler's answer.
#[derive(Debug, PartialEq, Eq)]
pub struct HandlerRes {
    pub status: Option<u16>,
    pub body: Option<StreamOrBytes>,
    pub headers: Option<Vec<(String, String)>>,
}

impl Default for HandlerRes {
    /// The answer of a handler that says nothing: status 200, no body, no
    /// headers.
    fn default() -> (res: Self)
        ensures
            res.status == Some(200u16),
            res.body is None,
            res.headers is None,
    {
        HandlerRes { status: Some(200), body: None, headers: None }
    }
}

/// The body of a response.
#[derive(Debug)]
pub enum Body<W> {
    Bytes(Vec<u8>),
    Stream(ReadableStream<W>),
}

/// A response, ready to be sent.
#[derive(Debug)]
pub struct Response<W> {
    pub status: u16,
    pub headers: Vec<(String, String)>,
    pub body: Body<W>,
}

/// Why no response could be made of a handler's answer.
#[derive(Debug, Clone, Copy, PartialEq, Eq, Structural)]
pub enum ResponseError {
    /// The status is not one that a response can carry.
    InvalidStatus(u16),
}

/// The status of the server-error response.
pub const SERVER_ERROR_STATUS: u16 = 500;

/// The status that an answer asks for: 200 where it names none.
pub open spec fn status_of(status: Option<u16>) -> u16 {
    match status {
        Some(code) => code,
        None => 200,
    }
}

/// The headers that an answer lists: none where it has no list.
pub open spec fn listed(headers: Option<Vec<(String, String)>>) -> Seq<(Seq<char>, Seq<char>)> {
    match headers {
        Some(list) => pairs_view(list@),
        None => Seq::empty(),
    }
}

/// A header that goes out: both its name and its value are valid.
pub open spec fn goes_out(header: (Seq<char>, Seq<char>)) -> bool {
    valid_header_name(header.0) && valid_header_value(header.1)
}

/// The headers that go out, in the order in which they were listed.
pub open spec fn kept(headers: Seq<(Seq<char>, Seq<char>)>) -> Seq<(Seq<char>, Seq<char>)> {
    headers.filter(|header: (Seq<char>, Seq<char>)| goes_out(header))
}

/// The response body that is made of an answer's body: nothing gives no
/// bytes, bytes go out as they are, and a read handle becomes a stream on
/// which nothing is read yet.
pub open spec fn body_of<W>(body: Option<StreamOrBytes>, made: Body<W>) -> bool {
    match body {
        None => made matches Body::Bytes(bytes) && bytes@ == Seq::<u8>::empty(),
        Some(StreamOrBytes::Bytes(given)) => made == Body::<W>::Bytes(given),
        Some(StreamOrBytes::Stream(read_fn)) => {
            &&& made matches Body::Stream(stream)
            &&& stream.read_handle() == read_fn
            &&& stream.active() is None
            &&& !stream.finished()
        },
    }
}

/// What `into_response` makes of an answer: an error for a status that no
/// response can carry, and otherwise the response with that status, the
/// headers that go out, and the body.
pub open spec fn made_of<W>(res: HandlerRes, r: Result<Response<W>, ResponseError>) -> bool {
    match r {
        Ok(response) => {
            &&& valid_status(status_of(res.status))
            &&& response.status == status_of(res.status)
            &&& pairs_view(response.headers@) == kept(listed(res.headers))
            &&& body_of(res.body, response.body)
        },
        Err(e) => !valid_status(status_of(res.status)) && e == ResponseError::InvalidStatus(
            status_of(res.status),
        ),
    }
}

/// The text of the server-error response.
pub open spec fn server_error_text() -> Seq<char> {
    "An internal server error ocurred."@
}

/// The one response that stands for every failure on the foreign side:
/// status 500, a plain-text content type, and a fixed text.
pub open spec fn is_server_error<W>(response: Response<W>) -> bool {
    &&& response.status == SERVER_ERROR_STATUS
    &&& pairs_view(response.headers@) == seq![("content-type"@, "text/plain; charset=utf-8"@)]
    &&& response.body matches Body::Bytes(bytes)
    &&& bytes@ == vstd::utf8::encode_utf8(server_error_text())
}

/// What one more header at the end of the list adds to those that go out.
pub proof fn lemma_kept_push(headers: Seq<(Seq<char>, Seq<char>)>, header: (Seq<char>, Seq<char>))
    ensures
        kept(headers.push(header)) == if goes_out(header) {
            kept(headers).push(header)
        } else {
            kept(headers)
        },
{
    reveal(Seq::filter);
    assert(headers.push(header).drop_last() =~= headers);
}

/// Every header that goes out was listed and is valid, and every valid
/// header that was listed goes out; where all are valid, the list goes out
/// as it is.
pub proof fn lemma_kept(headers: Seq<(Seq<char>, Seq<char>)>)
    ensures
        forall|k: int| 0 <= k < kept(headers).len() ==> goes_out(#[trigger] kept(headers)[k]),
        forall|k: int| 0 <= k < kept(headers).len() ==> headers.contains(#[trigger] kept(headers)[k]),
        forall|i: int| 0 <= i < headers.len() && goes_out(headers[i]) ==> kept(headers).contains(#[trigger] headers[i]),
        (forall|i: int| 0 <= i < headers.len() ==> goes_out(#[trigger] headers[i])) ==> kept(headers) == headers,
    decreases headers.len(),
{
    if headers.len() == 0 {
        reveal(Seq::filter);
    } else {
        let front = headers.drop_last();
        let last = headers.last();
        lemma_kept(front);
        lemma_kept_push(front, last);
        assert(front.push(last) =~= headers);
        let out = kept(headers);
        let before = kept(front);
        assert forall|k: int| 0 <= k < out.len() implies goes_out(#[trigger] out[k]) && headers.contains(out[k]) by {
            if k < before.len() {
                assert(out[k] == before[k]);
                let i = choose|i: int| 0 <= i < front.len() && front[i] == before[k];
                assert(headers[i] == out[k]);
            } else {
                assert(headers[headers.len() - 1] == out[k]);
            }
        }
        assert forall|i: int| 0 <= i < headers.len() && goes_out(headers[i]) implies out.contains(
            #[trigger] headers[i],
        ) by {
            if i < front.len() {
                assert(front[i] == headers[i]);
                let k = choose|k: int| 0 <= k < before.len() && before[k] == front[i];
                assert(out[k] == headers[i]);
            } else {
                assert(out[out.len() - 1] == headers[i]);
            }
        }
        if forall|i: int| 0 <= i < headers.len() ==> goes_out(#[trigger] headers[i]) {
            assert forall|i: int| 0 <= i < front.len() implies goes_out(#[trigger] front[i]) by {
                assert(front[i] == headers[i]);
            }
            assert(goes_out(headers[headers.len() - 1]));
        }
    }
}

/// Drops every header whose name or value is not valid; the others stay as
/// they are, in their order.
pub fn filter_headers(headers: Vec<(String, String)>) -> (out: Vec<(String, String)>)
    ensures
        pairs_view(out@) == kept(pairs_view(headers@)),
{
    let ghost before = headers@;
    let mut out: Vec<(String, String)> = Vec::new();
    proof {
        reveal(Seq::filter);
        assert(pairs_view(before.take(0)) =~= Seq::empty());
        assert(pairs_view(out@) =~= Seq::empty());
    }
    for header in it: headers
        invariant
            it.seq() == before,
            pairs_view(out@) == kept(pairs_view(before.take(it.index() as int))),
    {
        let ghost i = it.index() as int;
        let ghost seen = pairs_view(before.take(i));
        let ghost shown = (header.0@, header.1@);
        proof {
            assert(pairs_view(before.take(i + 1)) =~= seen.push(shown));
            lemma_kept_push(seen, shown);
        }
        let ghost kept_before = pairs_view(out@);
        if header_name_ok(header.0.as_str()) && header_value_ok(header.1.as_str()) {
            out.push(header);
            proof {
                assert(pairs_view(out@) =~= kept_before.push(shown));
            }
        }
    }
    proof {
        assert(before.take(before.len() as int) =~= before);
    }
    out
}

/// The server-error response.
pub fn server_error<W>() -> (response: Response<W>)
    ensures
        is_server_error(response),
{
    let mut headers: Vec<(String, String)> = Vec::new();
    headers.push((String::from_str("content-type"), String::from_str("text/plain; charset=utf-8")));
    let response = Response {
        status: SERVER_ERROR_STATUS,
        headers,
        body: Body::Bytes("An internal server error ocurred.".as_bytes_vec()),
    };
    proof {
        assert(pairs_view(response.headers@) =~= seq![("content-type"@, "text/plain; charset=utf-8"@)]);
    }
    response
}

impl HandlerRes {
    /// Makes the response of this answer.
    ///
    /// The status is the answer's, or 200 where it names none; an answer
    /// whose status no response can carry gives an error. Headers whose name
    /// or value is not valid are dropped without a word. The body is as
    /// `body_of` says.
    pub fn into_response<W>(self) -> (r: Result<Response<W>, ResponseError>)
        ensures
            made_of(self, r),
    {
        let status = match self.status {
            Some(code) => code,
            None => 200,
        };
        if !status_ok(status) {
            return Err(ResponseError::InvalidStatus(status));
        }
        let headers = match self.headers {
            Some(list) => filter_headers(list),
            None => {
                proof {
                    reveal(Seq::filter);
                }
                let none: Vec<(String, String)> = Vec::new();
                assert(pairs_view(none@) =~= Seq::empty());
                none
            },
        };
        let body = match self.body {
            None => Body::Bytes(Vec::new()),
            Some(StreamOrBytes::Bytes(bytes)) => Body::Bytes(bytes),
            Some(StreamOrBytes::Stream(read_fn)) => Body::Stream(ReadableStream::new(read_fn)),
        };
        Ok(Response { status, headers, body })
    }
}

} // verus!
