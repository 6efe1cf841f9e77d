//! The request parser: a total function from a raw byte buffer to a
//! structured message or a parse error.
//!
//! The buffer is split at carriage-return/line-feed pairs. The first line,
//! which must start at offset zero and be non-empty, is the message's first
//! line, taken verbatim. Every following non-empty line up to the first
//! blank line is split at its first colon into a whitespace-trimmed header
//! pair; a line with no colon is an error. The blank line marks the
//! header/body boundary. A request body is read only when a
//! `Content-Length` header declares it, and a declared length that reaches
//! beyond the buffer is an error rather than a read out of bounds.

use crate::bytes::all_digits;
use crate::bytes::bytes_eq;
use crate::bytes::copy_range;
use crate::bytes::digits_val;
use crate::bytes::parse_decimal;
use crate::bytes::trim_range;
use crate::bytes::trim_spec;
use crate::message::ReqModel;
use crate::message::RespModel;
use crate::message::Request;
use crate::message::Response;
use crate::tokens::content_length_name;
use crate::tokens::content_length_name_vec;
use vstd::prelude::*;

verus! {

/// Why a buffer failed to parse.
#[derive(Clone, Copy, PartialEq, Eq, Structural, Debug)]
pub enum ParseError {
    /// No request line could be identified: the buffer holds no line
    /// terminator at all, or its first line is empty.
    InvalidData,
    /// A header line holds no colon, so no name/value pair can be split
    /// from it.
    HeaderWithoutColon,
    /// A `Content-Length` value is empty, holds a non-digit, or names a
    /// value too large for this machine.
    BadContentLength,
    /// The declared body length reaches beyond the bytes available in the
    /// buffer.
    BodyOutOfRange,
}

/// The position of the first carriage-return/line-feed pair at or after
/// `from`, or the buffer length when there is none.
pub open spec fn find_crlf(s: Seq<u8>, from: int) -> int
    decreases s.len() - from,
{
    if from < 0 {
        s.len() as int
    } else if from + 1 >= s.len() {
        s.len() as int
    } else if s[from] == 13 && s[from + 1] == 10 {
        from
    } else {
        find_crlf(s, from + 1)
    }
}

/// The position of the first occurrence of `b` at or after `from`, or the
/// buffer length when there is none.
pub open spec fn find_byte(s: Seq<u8>, from: int, b: u8) -> int
    decreases s.len() - from,
{
    if from < 0 || from >= s.len() {
        s.len() as int
    } else if s[from] == b {
        from
    } else {
        find_byte(s, from + 1, b)
    }
}

/// What `find_crlf` returns: the first terminator pair at or after `from`,
/// with nothing but terminator-free bytes before it.
pub proof fn lemma_find_crlf_props(s: Seq<u8>, from: int)
    requires
        0 <= from <= s.len(),
    ensures
        from <= find_crlf(s, from) <= s.len(),
        find_crlf(s, from) < s.len() ==> find_crlf(s, from) + 1 < s.len() && s[find_crlf(s, from)]
            == 13 && s[find_crlf(s, from) + 1] == 10,
        forall|k: int|
            from <= k < find_crlf(s, from) ==> !(k + 1 < s.len() && (#[trigger] s[k]) == 13 && s[k
                + 1] == 10),
    decreases s.len() - from,
{
    if from + 1 >= s.len() {
    } else if s[from] == 13 && s[from + 1] == 10 {
    } else {
        lemma_find_crlf_props(s, from + 1);
    }
}

/// What `find_byte` returns: the first occurrence of `b` at or after
/// `from`, with no occurrence before it.
pub proof fn lemma_find_byte_props(s: Seq<u8>, from: int, b: u8)
    requires
        0 <= from <= s.len(),
    ensures
        from <= find_byte(s, from, b) <= s.len(),
        find_byte(s, from, b) < s.len() ==> s[find_byte(s, from, b)] == b,
        forall|k: int| from <= k < find_byte(s, from, b) ==> s[k] != b,
    decreases s.len() - from,
{
    if from >= s.len() {
    } else if s[from] == b {
    } else {
        lemma_find_byte_props(s, from + 1, b);
    }
}

/// Splits one header line at its first colon into a trimmed name and a
/// trimmed value; a line with no colon yields nothing.
pub open spec fn split_header(line: Seq<u8>) -> Option<(Seq<u8>, Seq<u8>)> {
    let c = find_byte(line, 0, 58);
    if c >= line.len() {
        None
    } else {
        Some((trim_spec(line.take(c)), trim_spec(line.skip(c + 1))))
    }
}

/// Parses header lines from `pos` on. Yields the header pairs in order and
/// the body start position: the offset just past the blank terminator line,
/// or nothing when the buffer ends before a blank line.
pub open spec fn parse_headers_from(s: Seq<u8>, pos: int) -> Result<
    (Seq<(Seq<u8>, Seq<u8>)>, Option<int>),
    ParseError,
>
    decreases s.len() - pos,
    via parse_headers_from_dec
{
    let e = find_crlf(s, pos);
    if e >= s.len() {
        Ok((Seq::empty(), None))
    } else if e == pos {
        Ok((Seq::empty(), Some(pos + 2)))
    } else {
        match split_header(s.subrange(pos, e)) {
            None => Err(ParseError::HeaderWithoutColon),
            Some(h) => match parse_headers_from(s, e + 2) {
                Ok((hs, b)) => Ok((seq![h] + hs, b)),
                Err(er) => Err(er),
            },
        }
    }
}

#[via_fn]
proof fn parse_headers_from_dec(s: Seq<u8>, pos: int) {
    if 0 <= pos <= s.len() {
        lemma_find_crlf_props(s, pos);
    }
}

/// The value of the first header named `name`, if any.
pub open spec fn first_value(hs: Seq<(Seq<u8>, Seq<u8>)>, name: Seq<u8>) -> Option<Seq<u8>>
    decreases hs.len(),
{
    if hs.len() == 0 {
        None
    } else if hs[0].0 == name {
        Some(hs[0].1)
    } else {
        first_value(hs.drop_first(), name)
    }
}

/// Attaches the body that the headers declare. With no `Content-Length`
/// header, or a declared length of zero, the body is empty. Otherwise
/// exactly the declared number of bytes is read from the body start, and a
/// length that is malformed, that cannot be represented, or that reaches
/// beyond the buffer is an error.
pub open spec fn request_with_body(
    s: Seq<u8>,
    line: Seq<u8>,
    hs: Seq<(Seq<u8>, Seq<u8>)>,
    bstart: Option<int>,
) -> Result<ReqModel, ParseError> {
    match first_value(hs, content_length_name()) {
        None => Ok(ReqModel { line, headers: hs, body: Seq::empty() }),
        Some(v) => if v.len() == 0 || !all_digits(v) || digits_val(v) > usize::MAX as nat {
            Err(ParseError::BadContentLength)
        } else {
            let n = digits_val(v) as int;
            if n == 0 {
                Ok(ReqModel { line, headers: hs, body: Seq::empty() })
            } else {
                match bstart {
                    None => Err(ParseError::BodyOutOfRange),
                    Some(b) => if b + n <= s.len() {
                        Ok(ReqModel { line, headers: hs, body: s.subrange(b, b + n) })
                    } else {
                        Err(ParseError::BodyOutOfRange)
                    },
                }
            }
        },
    }
}

/// The whole request parse: first line, headers, declared body.
pub open spec fn parse_request(s: Seq<u8>) -> Result<ReqModel, ParseError> {
    let e = find_crlf(s, 0);
    if e >= s.len() || e == 0 {
        Err(ParseError::InvalidData)
    } else {
        match parse_headers_from(s, e + 2) {
            Err(er) => Err(er),
            Ok((hs, bstart)) => request_with_body(s, s.subrange(0, e), hs, bstart),
        }
    }
}

/// Reads a buffer back as a response, with the same line-splitting rule as
/// the request parser. The body is everything past the blank terminator
/// line, verbatim; no `Content-Length` is consulted.
pub open spec fn parse_response(s: Seq<u8>) -> Result<RespModel, ParseError> {
    let e = find_crlf(s, 0);
    if e >= s.len() || e == 0 {
        Err(ParseError::InvalidData)
    } else {
        match parse_headers_from(s, e + 2) {
            Err(er) => Err(er),
            Ok((hs, bstart)) => Ok(
                RespModel {
                    status: s.subrange(0, e),
                    headers: hs,
                    body: match bstart {
                        None => Seq::empty(),
                        Some(b) => s.subrange(b, s.len() as int),
                    },
                },
            ),
        }
    }
}

/// Finds the first terminator pair at or after `from`, or the buffer
/// length when there is none.
fn find_crlf_exec(s: &[u8], from: usize) -> (r: usize)
    requires
        from <= s@.len(),
    ensures
        r == find_crlf(s@, from as int),
        from <= r <= s@.len(),
{
    proof {
        lemma_find_crlf_props(s@, from as int);
    }
    if s.len() == 0 {
        return 0;
    }
    let mut i: usize = from;
    while i < s.len() - 1
        invariant
            from <= i <= s@.len(),
            s@.len() > 0,
            find_crlf(s@, from as int) == find_crlf(s@, i as int),
        decreases s@.len() - i,
    {
        if s[i] == 13 && s[i + 1] == 10 {
            return i;
        }
        i = i + 1;
    }
    s.len()
}

/// Finds the first colon in `s` between `lo` and `hi`, as an absolute
/// position; `hi` when there is none.
fn find_colon(s: &[u8], lo: usize, hi: usize) -> (r: usize)
    requires
        lo <= hi <= s@.len(),
    ensures
        r == lo + find_byte(s@.subrange(lo as int, hi as int), 0, 58),
        lo <= r <= hi,
{
    let ghost line = s@.subrange(lo as int, hi as int);
    proof {
        lemma_find_byte_props(line, 0, 58);
    }
    let mut i: usize = lo;
    while i < hi
        invariant
            lo <= i <= hi <= s@.len(),
            line == s@.subrange(lo as int, hi as int),
            find_byte(line, 0, 58) == find_byte(line, i - lo, 58),
        decreases hi - i,
    {
        if s[i] == 58 {
            proof {
                assert(line[i - lo] == s@[i as int]);
            }
            return i;
        }
        proof {
            assert(line[i - lo] == s@[i as int]);
        }
        i = i + 1;
    }
    hi
}

/// `Ok` results gain `pre` in front of their headers; errors pass through.
pub open spec fn prepend_headers(
    pre: Seq<(Seq<u8>, Seq<u8>)>,
    r: Result<(Seq<(Seq<u8>, Seq<u8>)>, Option<int>), ParseError>,
) -> Result<(Seq<(Seq<u8>, Seq<u8>)>, Option<int>), ParseError> {
    match r {
        Ok((hs, b)) => Ok((pre + hs, b)),
        Err(er) => Err(er),
    }
}

/// The body start as a mathematical value.
pub open spec fn opt_int(b: Option<usize>) -> Option<int> {
    match b {
        Some(x) => Some(x as int),
        None => None,
    }
}

/// Collects the header lines from `start` on, as `parse_headers_from`
/// describes them.
fn parse_headers(s: &[u8], start: usize) -> (r: Result<
    (Vec<(Vec<u8>, Vec<u8>)>, Option<usize>),
    ParseError,
>)
    requires
        start <= s@.len(),
    ensures
        match r {
            Ok(p) => parse_headers_from(s@, start as int) == Ok::<_, ParseError>(
                (p.0.deep_view(), opt_int(p.1)),
            ) && (p.1 matches Some(b) ==> b <= s@.len()),
            Err(er) => parse_headers_from(s@, start as int) == Err::<
                (Seq<(Seq<u8>, Seq<u8>)>, Option<int>),
                ParseError,
            >(er),
        },
{
    let mut acc: Vec<(Vec<u8>, Vec<u8>)> = Vec::new();
    let mut pos: usize = start;
    loop
        invariant
            start <= pos <= s@.len(),
            parse_headers_from(s@, start as int) == prepend_headers(
                acc.deep_view(),
                parse_headers_from(s@, pos as int),
            ),
        decreases s@.len() - pos,
    {
        let e = find_crlf_exec(s, pos);
        proof {
            lemma_find_crlf_props(s@, pos as int);
        }
        if e >= s.len() {
            proof {
                assert(parse_headers_from(s@, pos as int) == Ok::<_, ParseError>((
                    Seq::<(Seq<u8>, Seq<u8>)>::empty(),
                    None::<int>,
                )));
                assert(acc.deep_view() + Seq::<(Seq<u8>, Seq<u8>)>::empty() =~= acc.deep_view());
            }
            return Ok((acc, None));
        }
        if e == pos {
            proof {
                assert(parse_headers_from(s@, pos as int) == Ok::<_, ParseError>((
                    Seq::<(Seq<u8>, Seq<u8>)>::empty(),
                    Some(pos + 2 as int),
                )));
                assert(acc.deep_view() + Seq::<(Seq<u8>, Seq<u8>)>::empty() =~= acc.deep_view());
            }
            return Ok((acc, Some(pos + 2)));
        }
        let ghost line = s@.subrange(pos as int, e as int);
        let c = find_colon(s, pos, e);
        if c == e {
            proof {
                assert(find_byte(line, 0, 58) == line.len());
                assert(split_header(line) is None);
            }
            return Err(ParseError::HeaderWithoutColon);
        }
        let name = trim_range(s, pos, c);
        let value = trim_range(s, c + 1, e);
        proof {
            assert(find_byte(line, 0, 58) == c - pos);
            assert(line.take(c - pos) =~= s@.subrange(pos as int, c as int));
            assert(line.skip(c - pos + 1) =~= s@.subrange(c + 1 as int, e as int));
            assert(split_header(line) == Some((name@, value@)));
        }
        let ghost old_acc = acc.deep_view();
        let ghost nv = (name@, value@);
        acc.push((name, value));
        proof {
            assert(acc.deep_view() =~~= old_acc.push(nv));
            let rest = parse_headers_from(s@, e + 2 as int);
            assert(parse_headers_from(s@, pos as int) == (match rest {
                Ok((hs, b)) => Ok::<_, ParseError>((seq![nv] + hs, b)),
                Err(er) => Err(er),
            }));
            if rest is Ok {
                let (hs, b) = rest->Ok_0;
                assert(old_acc + (seq![nv] + hs) =~~= old_acc.push(nv) + hs);
            }
        }
        pos = e + 2;
    }
}

/// The position of the first header named `Content-Length`, if any.
fn find_content_length(headers: &Vec<(Vec<u8>, Vec<u8>)>) -> (r: Option<usize>)
    ensures
        match r {
            Some(i) => i < headers@.len() && headers.deep_view()[i as int].0
                == content_length_name() && first_value(headers.deep_view(), content_length_name())
                == Some(headers.deep_view()[i as int].1),
            None => first_value(headers.deep_view(), content_length_name()) is None,
        },
{
    let ghost hs = headers.deep_view();
    let needle = content_length_name_vec();
    proof {
        assert(hs.skip(0) =~= hs);
    }
    let mut i: usize = 0;
    while i < headers.len()
        invariant
            0 <= i <= headers@.len(),
            hs == headers.deep_view(),
            needle@ == content_length_name(),
            first_value(hs, content_length_name()) == first_value(
                hs.skip(i as int),
                content_length_name(),
            ),
        decreases headers@.len() - i,
    {
        let h = &headers[i];
        proof {
            assert(hs.skip(i as int)[0] == hs[i as int]);
            assert(hs.skip(i as int).drop_first() =~= hs.skip(i + 1));
            assert(hs[i as int] == (h.0@, h.1@)) by {
                assert(hs[i as int] == headers@[i as int].deep_view());
                assert(h.0.deep_view() =~= h.0@);
                assert(h.1.deep_view() =~= h.1@);
            }
        }
        if bytes_eq(h.0.as_slice(), needle.as_slice()) {
            return Some(i);
        }
        i = i + 1;
    }
    proof {
        assert(hs.skip(hs.len() as int) =~= Seq::<(Seq<u8>, Seq<u8>)>::empty());
    }
    None
}

impl Request {
    /// Parses one raw buffer, as read off a socket in one shot, into a
    /// request. Unused tail bytes (for instance a NUL fill) do not corrupt
    /// the parse: scanning stops at the blank terminator line and the body
    /// takes only the declared number of bytes.
    pub fn from_utf8(bytes: &[u8]) -> (r: Result<Request, ParseError>)
        ensures
            match r {
                Ok(req) => parse_request(bytes@) == Ok::<ReqModel, ParseError>(req@),
                Err(er) => parse_request(bytes@) == Err::<ReqModel, ParseError>(er),
            },
    {
        let e = find_crlf_exec(bytes, 0);
        proof {
            lemma_find_crlf_props(bytes@, 0);
        }
        if e >= bytes.len() || e == 0 {
            return Err(ParseError::InvalidData);
        }
        let line = copy_range(bytes, 0, e);
        let (headers, bstart) = match parse_headers(bytes, e + 2) {
            Ok(p) => p,
            Err(er) => { return Err(er) },
        };
        let ghost hs = headers.deep_view();
        let ghost lineseq = bytes@.subrange(0, e as int);
        let cl = find_content_length(&headers);
        match cl {
            None => {
                let req = Request { request_line: line, headers, body: Vec::new() };
                proof {
                    let m = ReqModel { line: lineseq, headers: hs, body: Seq::empty() };
                    assert(parse_request(bytes@) == Ok::<ReqModel, ParseError>(m));
                    assert(req@ =~~= m);
                }
                Ok(req)
            },
            Some(i) => {
                let v = &headers[i].1;
                proof {
                    assert(v@.subrange(0, v@.len() as int) =~= v@);
                    assert(v.deep_view() =~= v@);
                    assert(first_value(hs, content_length_name()) == Some(v@));
                }
                let n = match parse_decimal(v.as_slice(), 0, v.len()) {
                    None => {
                        return Err(ParseError::BadContentLength);
                    },
                    Some(n) => n,
                };
                if n == 0 {
                    let req = Request { request_line: line, headers, body: Vec::new() };
                    proof {
                        let m = ReqModel { line: lineseq, headers: hs, body: Seq::empty() };
                        assert(parse_request(bytes@) == Ok::<ReqModel, ParseError>(m));
                        assert(req@ =~~= m);
                    }
                    return Ok(req);
                }
                match bstart {
                    None => Err(ParseError::BodyOutOfRange),
                    Some(b) => {
                        if n <= bytes.len() - b {
                            let body = copy_range(bytes, b, b + n);
                            let req = Request { request_line: line, headers, body };
                            proof {
                                let m = ReqModel {
                                    line: lineseq,
                                    headers: hs,
                                    body: bytes@.subrange(b as int, b + n),
                                };
                                assert(parse_request(bytes@) == Ok::<ReqModel, ParseError>(m));
                                assert(req@ =~~= m);
                            }
                            Ok(req)
                        } else {
                            Err(ParseError::BodyOutOfRange)
                        }
                    },
                }
            },
        }
    }
}

/// Reads a buffer back as a response, with the same line-splitting rule as
/// the request parser: the exact inverse of `Response::as_bytes` on
/// wire-clean responses.
pub fn parse_as_response(bytes: &[u8]) -> (r: Result<Response, ParseError>)
    ensures
        match r {
            Ok(resp) => parse_response(bytes@) == Ok::<RespModel, ParseError>(resp@),
            Err(er) => parse_response(bytes@) == Err::<RespModel, ParseError>(er),
        },
{
    let e = find_crlf_exec(bytes, 0);
    proof {
        lemma_find_crlf_props(bytes@, 0);
    }
    if e >= bytes.len() || e == 0 {
        return Err(ParseError::InvalidData);
    }
    let status = copy_range(bytes, 0, e);
    let (headers, bstart) = match parse_headers(bytes, e + 2) {
        Ok(p) => p,
        Err(er) => { return Err(er) },
    };
    let ghost hs = headers.deep_view();
    let ghost bodyseq = match opt_int(bstart) {
        None => Seq::<u8>::empty(),
        Some(b) => bytes@.subrange(b, bytes@.len() as int),
    };
    let body = match bstart {
        None => Vec::new(),
        Some(b) => copy_range(bytes, b, bytes.len()),
    };
    let resp = Response { status_line: status, headers, body };
    proof {
        let m = RespModel { status: bytes@.subrange(0, e as int), headers: hs, body: bodyseq };
        assert(parse_response(bytes@) == Ok::<RespModel, ParseError>(m));
        assert(resp@ =~~= m);
    }
    Ok(resp)
}

} // verus!
