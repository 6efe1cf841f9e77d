//! The wire message model: the in-memory shape of a request and a response,
//! their mathematical models, and the byte-level encoding of a response.
//!
//! A message is a first line, an ordered list of header pairs in insertion
//! order, and a raw byte body. Lines are separated by carriage-return plus
//! line-feed pairs, and one blank line separates the headers from the body.

use crate::bytes::append_bytes;
use crate::bytes::is_trimmed;
use vstd::prelude::*;

verus! {

/// The mathematical model of a parsed request.
#[verifier::ext_equal]
pub ghost struct ReqModel {
    /// The verbatim first line: verb, path and protocol version.
    pub line: Seq<u8>,
    /// The header pairs, in insertion order, names not case-normalized.
    pub headers: Seq<(Seq<u8>, Seq<u8>)>,
    /// The raw body bytes.
    pub body: Seq<u8>,
}

/// The mathematical model of a response.
#[verifier::ext_equal]
pub ghost struct RespModel {
    /// The status line; empty only in the sentinel that `Response::empty`
    /// builds, which is never written to the wire.
    pub status: Seq<u8>,
    /// The header pairs, in insertion order.
    pub headers: Seq<(Seq<u8>, Seq<u8>)>,
    /// The raw body bytes.
    pub body: Seq<u8>,
}

/// The model of a request with nothing in it: the safe fallback that makes
/// every handler decline.
pub open spec fn req_model_empty() -> ReqModel {
    ReqModel { line: Seq::empty(), headers: Seq::empty(), body: Seq::empty() }
}

/// The model of a response with nothing in it: the decline sentinel.
pub open spec fn resp_model_empty() -> RespModel {
    RespModel { status: Seq::empty(), headers: Seq::empty(), body: Seq::empty() }
}

/// One request read off a connection. The request line is non-empty for any
/// successfully parsed request; the empty request is the parse-failure
/// fallback.
pub struct Request {
    /// Verb, path and protocol version, verbatim.
    pub request_line: Vec<u8>,
    /// Header pairs in insertion order, each part trimmed of surrounding
    /// whitespace.
    pub headers: Vec<(Vec<u8>, Vec<u8>)>,
    /// The raw body bytes, possibly empty.
    pub body: Vec<u8>,
}

impl View for Request {
    type V = ReqModel;

    open spec fn view(&self) -> ReqModel {
        ReqModel {
            line: self.request_line@,
            headers: self.headers.deep_view(),
            body: self.body@,
        }
    }
}

impl Request {
    /// The empty request: the fallback when nothing could be parsed.
    pub fn empty() -> (r: Request)
        ensures
            r@ == req_model_empty(),
    {
        let r = Request { request_line: Vec::new(), headers: Vec::new(), body: Vec::new() };
        proof {
            assert(r@ =~= req_model_empty());
        }
        r
    }
}

/// One response produced by a handler or by the fallback of the dispatcher.
pub struct Response {
    /// The status line; empty means "this handler declined".
    pub status_line: Vec<u8>,
    /// Header pairs in insertion order.
    pub headers: Vec<(Vec<u8>, Vec<u8>)>,
    /// The raw body bytes.
    pub body: Vec<u8>,
}

impl View for Response {
    type V = RespModel;

    open spec fn view(&self) -> RespModel {
        RespModel {
            status: self.status_line@,
            headers: self.headers.deep_view(),
            body: self.body@,
        }
    }
}

/// The two-byte line terminator.
pub open spec fn crlf() -> Seq<u8> {
    seq![13u8, 10u8]
}

/// The two bytes written between a header name and its value.
pub open spec fn colon_space() -> Seq<u8> {
    seq![58u8, 32u8]
}

/// One encoded header line: name, colon and space, value, terminator.
pub open spec fn header_line(h: (Seq<u8>, Seq<u8>)) -> Seq<u8> {
    h.0 + colon_space() + h.1 + crlf()
}

/// The encoded header section: every header line, in order.
pub open spec fn header_lines(hs: Seq<(Seq<u8>, Seq<u8>)>) -> Seq<u8>
    decreases hs.len(),
{
    if hs.len() == 0 {
        Seq::empty()
    } else {
        header_line(hs[0]) + header_lines(hs.drop_first())
    }
}

/// The wire bytes of a response: status line, terminator, each header line
/// in insertion order, one more terminator, then the body verbatim.
pub open spec fn encode_spec(r: RespModel) -> Seq<u8> {
    r.status + crlf() + header_lines(r.headers) + crlf() + r.body
}

/// Encoding one more header appends one more line.
pub proof fn lemma_header_lines_push(hs: Seq<(Seq<u8>, Seq<u8>)>, h: (Seq<u8>, Seq<u8>))
    ensures
        header_lines(hs.push(h)) == header_lines(hs) + header_line(h),
    decreases hs.len(),
{
    if hs.len() == 0 {
        assert(hs.push(h)[0] == h);
        assert(hs.push(h).drop_first() =~= hs);
        assert(header_lines(hs.push(h)) == header_line(h) + header_lines(hs));
        assert(header_lines(hs) =~= Seq::<u8>::empty());
        assert(header_line(h) + header_lines(hs) =~= header_lines(hs) + header_line(h));
    } else {
        lemma_header_lines_push(hs.drop_first(), h);
        assert(hs.push(h).drop_first() =~= hs.drop_first().push(h));
        assert(hs.push(h)[0] == hs[0]);
        assert(header_line(hs[0]) + (header_lines(hs.drop_first()) + header_line(h))
            =~= (header_line(hs[0]) + header_lines(hs.drop_first())) + header_line(h));
    }
}

impl Response {
    /// The empty response: the sentinel a handler returns to decline.
    pub fn empty() -> (r: Response)
        ensures
            r@ == resp_model_empty(),
    {
        let r = Response { status_line: Vec::new(), headers: Vec::new(), body: Vec::new() };
        proof {
            assert(r@ =~= resp_model_empty());
        }
        r
    }

    /// Serializes the response into its wire bytes. The body is written
    /// verbatim; no `Content-Length` header is inspected or rewritten.
    pub fn as_bytes(&self) -> (buf: Vec<u8>)
        ensures
            buf@ == encode_spec(self@),
    {
        let mut buf: Vec<u8> = Vec::new();
        append_bytes(&mut buf, self.status_line.as_slice());
        buf.push(13);
        buf.push(10);
        proof {
            assert(buf@ =~= self.status_line@ + crlf() + header_lines(
                self.headers.deep_view().take(0),
            ));
        }
        let mut i: usize = 0;
        while i < self.headers.len()
            invariant
                0 <= i <= self.headers@.len(),
                buf@ == self.status_line@ + crlf() + header_lines(
                    self.headers.deep_view().take(i as int),
                ),
            decreases self.headers@.len() - i,
        {
            let h = &self.headers[i];
            append_bytes(&mut buf, h.0.as_slice());
            buf.push(58);
            buf.push(32);
            append_bytes(&mut buf, h.1.as_slice());
            buf.push(13);
            buf.push(10);
            proof {
                let hs = self.headers.deep_view();
                lemma_header_lines_push(hs.take(i as int), hs[i as int]);
                assert(hs.take(i + 1) =~= hs.take(i as int).push(hs[i as int]));
                assert(buf@ =~= self.status_line@ + crlf() + header_lines(hs.take(i + 1)));
            }
            i = i + 1;
        }
        buf.push(13);
        buf.push(10);
        append_bytes(&mut buf, self.body.as_slice());
        proof {
            assert(self.headers.deep_view().take(self.headers@.len() as int)
                =~= self.headers.deep_view());
            assert(buf@ =~= encode_spec(self@));
        }
        buf
    }
}

} // verus!
