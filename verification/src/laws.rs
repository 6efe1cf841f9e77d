//! The library's cross-cutting laws: the encode/parse round trip, the
//! parser's total-ness, and the body-length contract.

use crate::bytes::all_digits;
use crate::bytes::digits_val;
use crate::bytes::is_trimmed;
use crate::bytes::is_ws;
use crate::bytes::lemma_trim_of_trimmed;
use crate::bytes::trim_spec;
use crate::bytes::trim_start_spec;
use crate::message::RespModel;
use crate::message::ReqModel;
use crate::message::colon_space;
use crate::message::crlf;
use crate::message::encode_spec;
use crate::message::header_line;
use crate::message::header_lines;
use crate::parse::ParseError;
use crate::parse::find_byte;
use crate::parse::find_crlf;
use crate::parse::first_value;
use crate::parse::lemma_find_crlf_props;
use crate::parse::parse_headers_from;
use crate::parse::parse_request;
use crate::parse::parse_response;
use crate::parse::split_header;
use crate::tokens::content_length_name;
use vstd::prelude::*;

verus! {

/// Bytes that may stand inside one wire line: no carriage return, no line
/// feed.
pub open spec fn wire_clean(s: Seq<u8>) -> bool {
    forall|i: int| 0 <= i < s.len() ==> s[i] != 13 && s[i] != 10
}

/// No colon anywhere: what a header name must satisfy so that the line
/// splits back at the same place.
pub open spec fn no_colon(s: Seq<u8>) -> bool {
    forall|i: int| 0 <= i < s.len() ==> s[i] != 58
}

/// A header pair that survives the wire: both parts free of line
/// terminators, the name free of colons, and both already trimmed.
pub open spec fn wf_header(h: (Seq<u8>, Seq<u8>)) -> bool {
    wire_clean(h.0) && no_colon(h.0) && is_trimmed(h.0) && wire_clean(h.1) && is_trimmed(h.1)
}

/// A response that survives the wire: a non-empty, terminator-free status
/// line and well-formed headers. The body is arbitrary.
pub open spec fn wf_response(r: RespModel) -> bool {
    r.status.len() > 0 && wire_clean(r.status) && (forall|i: int|
        0 <= i < r.headers.len() ==> wf_header(#[trigger] r.headers[i]))
}

/// When the bytes from `from` up to `t` hold no terminator pair and one
/// starts at `t`, the scan finds exactly `t`.
proof fn lemma_find_crlf_unique(s: Seq<u8>, from: int, t: int)
    requires
        0 <= from <= t,
        t + 1 < s.len(),
        s[t] == 13,
        s[t + 1] == 10,
        forall|k: int| from <= k < t ==> !((#[trigger] s[k]) == 13 && s[k + 1] == 10),
    ensures
        find_crlf(s, from) == t,
    decreases t - from,
{
    if from < t {
        lemma_find_crlf_unique(s, from + 1, t);
    }
}

/// When the bytes from `from` up to `t` avoid `b` and byte `t` is `b`, the
/// scan finds exactly `t`.
proof fn lemma_find_byte_unique(s: Seq<u8>, from: int, t: int, b: u8)
    requires
        0 <= from <= t < s.len(),
        s[t] == b,
        forall|k: int| from <= k < t ==> (#[trigger] s[k]) != b,
    ensures
        find_byte(s, from, b) == t,
    decreases t - from,
{
    if from < t {
        lemma_find_byte_unique(s, from + 1, t, b);
    }
}

/// Trimming a value that gained one leading space gives the value back.
proof fn lemma_trim_space_value(v: Seq<u8>)
    requires
        is_trimmed(v),
    ensures
        trim_spec(seq![32u8] + v) == v,
{
    let s = seq![32u8] + v;
    assert(is_ws(s[0]));
    assert(s.drop_first() =~= v);
    assert(trim_start_spec(s) == trim_start_spec(v));
    if v.len() > 0 {
        assert(!is_ws(v[0]));
    }
    assert(trim_start_spec(v) == v);
    lemma_trim_of_trimmed(v);
}

/// One encoded header line holds no terminator pair before its own
/// terminator, and splits back into its pair.
proof fn lemma_header_line_splits(h: (Seq<u8>, Seq<u8>))
    requires
        wf_header(h),
    ensures
        split_header(h.0 + colon_space() + h.1) == Some(h),
{
    let line = h.0 + colon_space() + h.1;
    let c = h.0.len() as int;
    assert(line[c] == 58);
    assert(forall|k: int| 0 <= k < c ==> (#[trigger] line[k]) == h.0[k] && line[k] != 58);
    lemma_find_byte_unique(line, 0, c, 58);
    assert(line.take(c) =~= h.0);
    assert(line.skip(c + 1) =~= seq![32u8] + h.1);
    lemma_trim_of_trimmed(h.0);
    lemma_trim_space_value(h.1);
}

/// An encoded header section parses back to exactly its headers, with the
/// body boundary just past the blank line.
proof fn lemma_parse_headers_inverse(s: Seq<u8>, pos: int, hs: Seq<(Seq<u8>, Seq<u8>)>, tail: Seq<
    u8,
>)
    requires
        0 <= pos <= s.len(),
        s.skip(pos) == header_lines(hs) + crlf() + tail,
        forall|i: int| 0 <= i < hs.len() ==> wf_header(#[trigger] hs[i]),
    ensures
        parse_headers_from(s, pos) == Ok::<_, ParseError>(
            (hs, Some(pos + header_lines(hs).len() + 2)),
        ),
    decreases hs.len(),
{
    let rest = s.skip(pos);
    if hs.len() == 0 {
        assert(rest == crlf() + tail);
        assert(rest.len() == s.len() - pos);
        assert(pos + 1 < s.len());
        assert(s[pos] == rest[0] && s[pos + 1] == rest[1]);
        assert(s[pos] == 13 && s[pos + 1] == 10);
        assert(find_crlf(s, pos) == pos);
        assert(header_lines(hs).len() == 0);
        assert(hs =~= Seq::<(Seq<u8>, Seq<u8>)>::empty());
        assert(parse_headers_from(s, pos) == Ok::<_, ParseError>((hs, Some(pos + 2))));
    } else {
        let h = hs[0];
        let line = h.0 + colon_space() + h.1;
        let ll = line.len() as int;
        assert(header_lines(hs) == header_line(h) + header_lines(hs.drop_first()));
        assert(header_line(h) == line + crlf());
        let tail2 = header_lines(hs.drop_first()) + crlf() + tail;
        assert(rest =~= line + crlf() + tail2);
        assert(forall|k: int| 0 <= k < ll ==> (#[trigger] rest[k]) == line[k]);
        assert(forall|k: int|
            0 <= k < ll ==> (#[trigger] line[k]) != 13 && line[k] != 10) by {
            assert(forall|k: int|
                0 <= k < h.0.len() ==> (#[trigger] line[k]) == h.0[k] && line[k] != 13 && line[k]
                    != 10);
            assert(line[h.0.len() as int] == 58);
            assert(line[h.0.len() as int + 1] == 32);
            assert(forall|k: int|
                h.0.len() + 2 <= k < ll ==> (#[trigger] line[k]) == h.1[k - h.0.len() - 2]
                    && line[k] != 13 && line[k] != 10);
        }
        assert(rest[ll] == 13 && rest[ll + 1] == 10);
        assert forall|k: int| pos <= k < pos + ll implies !((#[trigger] s[k]) == 13 && s[k + 1]
            == 10) by {
            let j = k - pos;
            assert(rest[j] == s[k]);
            assert(rest[j] == line[j]);
        }
        assert(s[pos + ll] == rest[ll] && s[pos + ll + 1] == rest[ll + 1]);
        lemma_find_crlf_unique(s, pos, pos + ll);
        let e = pos + ll;
        assert(ll >= 2);
        assert(s.subrange(pos, e) =~= line);
        lemma_header_line_splits(h);
        assert(split_header(s.subrange(pos, e)) == Some(h));
        assert(s.skip(e + 2).len() == tail2.len());
        assert forall|j: int| 0 <= j < tail2.len() implies s.skip(e + 2)[j] == tail2[j] by {
            assert(s.skip(e + 2)[j] == s[e + 2 + j]);
            assert(rest[ll + 2 + j] == s[e + 2 + j]);
            assert(rest[ll + 2 + j] == tail2[j]);
        }
        assert(s.skip(e + 2) =~= tail2);
        assert(forall|i: int|
            0 <= i < hs.drop_first().len() ==> wf_header(#[trigger] hs.drop_first()[i])) by {
            assert(forall|i: int|
                0 <= i < hs.drop_first().len() ==> #[trigger] hs.drop_first()[i] == hs[i + 1]);
        }
        lemma_parse_headers_inverse(s, e + 2, hs.drop_first(), tail);
        assert(seq![h] + hs.drop_first() =~= hs);
        assert(header_lines(hs).len() == ll + 2 + header_lines(hs.drop_first()).len());
        assert(parse_headers_from(s, pos) == Ok::<_, ParseError>(
            (hs, Some(pos + header_lines(hs).len() + 2)),
        ));
    }
}

/// Round-trip law: reading the encoded bytes of any wire-clean response
/// back with the parser's line-splitting rule reconstructs the status
/// line, the header pairs in their original order, and the body bytes
/// exactly.
pub proof fn lemma_response_round_trip(r: RespModel)
    requires
        wf_response(r),
    ensures
        parse_response(encode_spec(r)) == Ok::<RespModel, ParseError>(r),
{
    let s = encode_spec(r);
    let sl = r.status.len() as int;
    assert(forall|k: int| 0 <= k < sl ==> (#[trigger] s[k]) == r.status[k] && s[k] != 13);
    assert(s[sl] == 13 && s[sl + 1] == 10);
    assert(forall|k: int| 0 <= k < sl ==> !((#[trigger] s[k]) == 13 && s[k + 1] == 10));
    lemma_find_crlf_unique(s, 0, sl);
    assert(find_crlf(s, 0) == sl);
    assert(s.subrange(0, sl) =~= r.status);
    assert(s.skip(sl + 2) =~= header_lines(r.headers) + crlf() + r.body);
    lemma_parse_headers_inverse(s, sl + 2, r.headers, r.body);
    let b = sl + 2 + header_lines(r.headers).len() + 2;
    assert(s.subrange(b, s.len() as int) =~= r.body);
    assert(parse_response(s) == Ok::<RespModel, ParseError>(
        RespModel {
            status: s.subrange(0, sl),
            headers: r.headers,
            body: s.subrange(b, s.len() as int),
        },
    ));
    assert(RespModel {
        status: s.subrange(0, sl),
        headers: r.headers,
        body: s.subrange(b, s.len() as int),
    } =~~= r);
}

/// Parser total-ness law: whenever parsing succeeds, the request line is
/// non-empty; a request with an empty request line is never produced.
pub proof fn lemma_parsed_request_line_nonempty(s: Seq<u8>)
    ensures
        parse_request(s) matches Ok(m) ==> m.line.len() > 0,
{
    lemma_find_crlf_props(s, 0);
    if parse_request(s) is Ok {
        let e = find_crlf(s, 0);
        assert(0 < e < s.len());
        assert(s.subrange(0, e).len() == e);
    }
}

/// Headers handed out by the header parser start no earlier than the
/// buffer start, and a reported body boundary lies within the buffer.
proof fn lemma_parse_headers_bstart(s: Seq<u8>, pos: int)
    requires
        0 <= pos <= s.len(),
    ensures
        parse_headers_from(s, pos) matches Ok((hs, Some(b))) ==> 0 <= b <= s.len(),
    decreases s.len() - pos,
{
    lemma_find_crlf_props(s, pos);
    let e = find_crlf(s, pos);
    if e < s.len() && e != pos {
        lemma_parse_headers_bstart(s, e + 2);
    }
}

/// Body-length law: when a parsed request carries a `Content-Length`
/// header, its body holds exactly the declared number of bytes.
pub proof fn lemma_body_length(s: Seq<u8>, m: ReqModel, v: Seq<u8>)
    requires
        parse_request(s) == Ok::<ReqModel, ParseError>(m),
        first_value(m.headers, content_length_name()) == Some(v),
    ensures
        v.len() > 0 && all_digits(v) && digits_val(v) <= usize::MAX as nat,
        m.body.len() == digits_val(v),
{
    lemma_find_crlf_props(s, 0);
    let e = find_crlf(s, 0);
    lemma_parse_headers_bstart(s, e + 2);
}

} // verus!
