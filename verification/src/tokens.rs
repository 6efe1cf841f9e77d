//! The ASCII byte sequences that the wire protocol and the game's JSON
//! bodies are made of, each as a spec-level sequence beside an executable
//! constructor proved to produce exactly that sequence.

use vstd::prelude::*;

verus! {

/// Bytes of `GET / HTTP/1.1`: request line of the status query.
pub open spec fn get_root_line() -> Seq<u8> {
    seq![71u8, 69u8, 84u8, 32u8, 47u8, 32u8, 72u8, 84u8, 84u8, 80u8, 47u8, 49u8, 46u8, 49u8]
}

/// Builds the bytes of `GET / HTTP/1.1` as a vector.
pub fn get_root_line_vec() -> (v: Vec<u8>)
    ensures
        v@ == get_root_line(),
{
    let a: [u8; 14] = [71u8, 69u8, 84u8, 32u8, 47u8, 32u8, 72u8, 84u8, 84u8, 80u8, 47u8, 49u8, 46u8, 49u8];
    let v: Vec<u8> = vstd::slice::slice_to_vec(a.as_slice());
    proof {
        assert(v@ =~= get_root_line());
    }
    v
}

/// Bytes of `POST /move HTTP/1.1`: request line of the move submission.
pub open spec fn post_move_line() -> Seq<u8> {
    seq![80u8, 79u8, 83u8, 84u8, 32u8, 47u8, 109u8, 111u8, 118u8, 101u8, 32u8, 72u8, 84u8, 84u8, 80u8, 47u8, 49u8, 46u8, 49u8]
}

/// Builds the bytes of `POST /move HTTP/1.1` as a vector.
pub fn post_move_line_vec() -> (v: Vec<u8>)
    ensures
        v@ == post_move_line(),
{
    let a: [u8; 19] = [80u8, 79u8, 83u8, 84u8, 32u8, 47u8, 109u8, 111u8, 118u8, 101u8, 32u8, 72u8, 84u8, 84u8, 80u8, 47u8, 49u8, 46u8, 49u8];
    let v: Vec<u8> = vstd::slice::slice_to_vec(a.as_slice());
    proof {
        assert(v@ =~= post_move_line());
    }
    v
}

/// Bytes of `Content-Length`: header name that declares the body length.
pub open spec fn content_length_name() -> Seq<u8> {
    seq![67u8, 111u8, 110u8, 116u8, 101u8, 110u8, 116u8, 45u8, 76u8, 101u8, 110u8, 103u8, 116u8, 104u8]
}

/// Builds the bytes of `Content-Length` as a vector.
pub fn content_length_name_vec() -> (v: Vec<u8>)
    ensures
        v@ == content_length_name(),
{
    let a: [u8; 14] = [67u8, 111u8, 110u8, 116u8, 101u8, 110u8, 116u8, 45u8, 76u8, 101u8, 110u8, 103u8, 116u8, 104u8];
    let v: Vec<u8> = vstd::slice::slice_to_vec(a.as_slice());
    proof {
        assert(v@ =~= content_length_name());
    }
    v
}

/// Bytes of `HTTP/1.1 200 OK`: status line of a successful response.
pub open spec fn status_ok() -> Seq<u8> {
    seq![72u8, 84u8, 84u8, 80u8, 47u8, 49u8, 46u8, 49u8, 32u8, 50u8, 48u8, 48u8, 32u8, 79u8, 75u8]
}

/// Builds the bytes of `HTTP/1.1 200 OK` as a vector.
pub fn status_ok_vec() -> (v: Vec<u8>)
    ensures
        v@ == status_ok(),
{
    let a: [u8; 15] = [72u8, 84u8, 84u8, 80u8, 47u8, 49u8, 46u8, 49u8, 32u8, 50u8, 48u8, 48u8, 32u8, 79u8, 75u8];
    let v: Vec<u8> = vstd::slice::slice_to_vec(a.as_slice());
    proof {
        assert(v@ =~= status_ok());
    }
    v
}

/// Bytes of `HTTP/1.1 400 BAD REQUEST`: status line of a rejected request.
pub open spec fn status_bad_request() -> Seq<u8> {
    seq![72u8, 84u8, 84u8, 80u8, 47u8, 49u8, 46u8, 49u8, 32u8, 52u8, 48u8, 48u8, 32u8, 66u8, 65u8, 68u8, 32u8, 82u8, 69u8, 81u8, 85u8, 69u8, 83u8, 84u8]
}

/// Builds the bytes of `HTTP/1.1 400 BAD REQUEST` as a vector.
pub fn status_bad_request_vec() -> (v: Vec<u8>)
    ensures
        v@ == status_bad_request(),
{
    let a: [u8; 24] = [72u8, 84u8, 84u8, 80u8, 47u8, 49u8, 46u8, 49u8, 32u8, 52u8, 48u8, 48u8, 32u8, 66u8, 65u8, 68u8, 32u8, 82u8, 69u8, 81u8, 85u8, 69u8, 83u8, 84u8];
    let v: Vec<u8> = vstd::slice::slice_to_vec(a.as_slice());
    proof {
        assert(v@ =~= status_bad_request());
    }
    v
}

/// Bytes of `HTTP/1.1 404 NOT FOUND`: status line of the fallback response.
pub open spec fn status_not_found() -> Seq<u8> {
    seq![72u8, 84u8, 84u8, 80u8, 47u8, 49u8, 46u8, 49u8, 32u8, 52u8, 48u8, 52u8, 32u8, 78u8, 79u8, 84u8, 32u8, 70u8, 79u8, 85u8, 78u8, 68u8]
}

/// Builds the bytes of `HTTP/1.1 404 NOT FOUND` as a vector.
pub fn status_not_found_vec() -> (v: Vec<u8>)
    ensures
        v@ == status_not_found(),
{
    let a: [u8; 22] = [72u8, 84u8, 84u8, 80u8, 47u8, 49u8, 46u8, 49u8, 32u8, 52u8, 48u8, 52u8, 32u8, 78u8, 79u8, 84u8, 32u8, 70u8, 79u8, 85u8, 78u8, 68u8];
    let v: Vec<u8> = vstd::slice::slice_to_vec(a.as_slice());
    proof {
        assert(v@ =~= status_not_found());
    }
    v
}

/// Bytes of `HTTP/1.1 500 INTERNAL SERVER ERROR`: status line sent when no state is mounted.
pub open spec fn status_server_error() -> Seq<u8> {
    seq![72u8, 84u8, 84u8, 80u8, 47u8, 49u8, 46u8, 49u8, 32u8, 53u8, 48u8, 48u8, 32u8, 73u8, 78u8, 84u8, 69u8, 82u8, 78u8, 65u8, 76u8, 32u8, 83u8, 69u8, 82u8, 86u8, 69u8, 82u8, 32u8, 69u8, 82u8, 82u8, 79u8, 82u8]
}

/// Builds the bytes of `HTTP/1.1 500 INTERNAL SERVER ERROR` as a vector.
pub fn status_server_error_vec() -> (v: Vec<u8>)
    ensures
        v@ == status_server_error(),
{
    let a: [u8; 34] = [72u8, 84u8, 84u8, 80u8, 47u8, 49u8, 46u8, 49u8, 32u8, 53u8, 48u8, 48u8, 32u8, 73u8, 78u8, 84u8, 69u8, 82u8, 78u8, 65u8, 76u8, 32u8, 83u8, 69u8, 82u8, 86u8, 69u8, 82u8, 32u8, 69u8, 82u8, 82u8, 79u8, 82u8];
    let v: Vec<u8> = vstd::slice::slice_to_vec(a.as_slice());
    proof {
        assert(v@ =~= status_server_error());
    }
    v
}

/// Bytes of `Content-Type`: header name for the media type.
pub open spec fn content_type_name() -> Seq<u8> {
    seq![67u8, 111u8, 110u8, 116u8, 101u8, 110u8, 116u8, 45u8, 84u8, 121u8, 112u8, 101u8]
}

/// Builds the bytes of `Content-Type` as a vector.
pub fn content_type_name_vec() -> (v: Vec<u8>)
    ensures
        v@ == content_type_name(),
{
    let a: [u8; 12] = [67u8, 111u8, 110u8, 116u8, 101u8, 110u8, 116u8, 45u8, 84u8, 121u8, 112u8, 101u8];
    let v: Vec<u8> = vstd::slice::slice_to_vec(a.as_slice());
    proof {
        assert(v@ =~= content_type_name());
    }
    v
}

/// Bytes of `application/json`: media type of the JSON bodies.
pub open spec fn content_type_json() -> Seq<u8> {
    seq![97u8, 112u8, 112u8, 108u8, 105u8, 99u8, 97u8, 116u8, 105u8, 111u8, 110u8, 47u8, 106u8, 115u8, 111u8, 110u8]
}

/// Builds the bytes of `application/json` as a vector.
pub fn content_type_json_vec() -> (v: Vec<u8>)
    ensures
        v@ == content_type_json(),
{
    let a: [u8; 16] = [97u8, 112u8, 112u8, 108u8, 105u8, 99u8, 97u8, 116u8, 105u8, 111u8, 110u8, 47u8, 106u8, 115u8, 111u8, 110u8];
    let v: Vec<u8> = vstd::slice::slice_to_vec(a.as_slice());
    proof {
        assert(v@ =~= content_type_json());
    }
    v
}

/// Bytes of `{"board":[`: opening of the encoded board object.
pub open spec fn json_board_open() -> Seq<u8> {
    seq![123u8, 34u8, 98u8, 111u8, 97u8, 114u8, 100u8, 34u8, 58u8, 91u8]
}

/// Builds the bytes of `{"board":[` as a vector.
pub fn json_board_open_vec() -> (v: Vec<u8>)
    ensures
        v@ == json_board_open(),
{
    let a: [u8; 10] = [123u8, 34u8, 98u8, 111u8, 97u8, 114u8, 100u8, 34u8, 58u8, 91u8];
    let v: Vec<u8> = vstd::slice::slice_to_vec(a.as_slice());
    proof {
        assert(v@ =~= json_board_open());
    }
    v
}

/// Bytes of `],"turn":`: separator between the cells and the turn field.
pub open spec fn json_board_mid() -> Seq<u8> {
    seq![93u8, 44u8, 34u8, 116u8, 117u8, 114u8, 110u8, 34u8, 58u8]
}

/// Builds the bytes of `],"turn":` as a vector.
pub fn json_board_mid_vec() -> (v: Vec<u8>)
    ensures
        v@ == json_board_mid(),
{
    let a: [u8; 9] = [93u8, 44u8, 34u8, 116u8, 117u8, 114u8, 110u8, 34u8, 58u8];
    let v: Vec<u8> = vstd::slice::slice_to_vec(a.as_slice());
    proof {
        assert(v@ =~= json_board_mid());
    }
    v
}

/// Bytes of `}`: closing brace of an encoded object.
pub open spec fn json_close() -> Seq<u8> {
    seq![125u8]
}

/// Builds the bytes of `}` as a vector.
pub fn json_close_vec() -> (v: Vec<u8>)
    ensures
        v@ == json_close(),
{
    let a: [u8; 1] = [125u8];
    let v: Vec<u8> = vstd::slice::slice_to_vec(a.as_slice());
    proof {
        assert(v@ =~= json_close());
    }
    v
}

/// Bytes of `,`: separator between encoded cells.
pub open spec fn json_comma() -> Seq<u8> {
    seq![44u8]
}

/// Builds the bytes of `,` as a vector.
pub fn json_comma_vec() -> (v: Vec<u8>)
    ensures
        v@ == json_comma(),
{
    let a: [u8; 1] = [44u8];
    let v: Vec<u8> = vstd::slice::slice_to_vec(a.as_slice());
    proof {
        assert(v@ =~= json_comma());
    }
    v
}

/// Bytes of `"X"`: encoding of the X mark.
pub open spec fn json_x() -> Seq<u8> {
    seq![34u8, 88u8, 34u8]
}

/// Builds the bytes of `"X"` as a vector.
pub fn json_x_vec() -> (v: Vec<u8>)
    ensures
        v@ == json_x(),
{
    let a: [u8; 3] = [34u8, 88u8, 34u8];
    let v: Vec<u8> = vstd::slice::slice_to_vec(a.as_slice());
    proof {
        assert(v@ =~= json_x());
    }
    v
}

/// Bytes of `"O"`: encoding of the O mark.
pub open spec fn json_o() -> Seq<u8> {
    seq![34u8, 79u8, 34u8]
}

/// Builds the bytes of `"O"` as a vector.
pub fn json_o_vec() -> (v: Vec<u8>)
    ensures
        v@ == json_o(),
{
    let a: [u8; 3] = [34u8, 79u8, 34u8];
    let v: Vec<u8> = vstd::slice::slice_to_vec(a.as_slice());
    proof {
        assert(v@ =~= json_o());
    }
    v
}

/// Bytes of `"Empty"`: encoding of an empty cell.
pub open spec fn json_empty() -> Seq<u8> {
    seq![34u8, 69u8, 109u8, 112u8, 116u8, 121u8, 34u8]
}

/// Builds the bytes of `"Empty"` as a vector.
pub fn json_empty_vec() -> (v: Vec<u8>)
    ensures
        v@ == json_empty(),
{
    let a: [u8; 7] = [34u8, 69u8, 109u8, 112u8, 116u8, 121u8, 34u8];
    let v: Vec<u8> = vstd::slice::slice_to_vec(a.as_slice());
    proof {
        assert(v@ =~= json_empty());
    }
    v
}

/// Bytes of `{"index":`: opening of an encoded move object.
pub open spec fn json_move_open() -> Seq<u8> {
    seq![123u8, 34u8, 105u8, 110u8, 100u8, 101u8, 120u8, 34u8, 58u8]
}

/// Builds the bytes of `{"index":` as a vector.
pub fn json_move_open_vec() -> (v: Vec<u8>)
    ensures
        v@ == json_move_open(),
{
    let a: [u8; 9] = [123u8, 34u8, 105u8, 110u8, 100u8, 101u8, 120u8, 34u8, 58u8];
    let v: Vec<u8> = vstd::slice::slice_to_vec(a.as_slice());
    proof {
        assert(v@ =~= json_move_open());
    }
    v
}

/// Bytes of `,"id":`: separator between the index and the id field.
pub open spec fn json_move_mid() -> Seq<u8> {
    seq![44u8, 34u8, 105u8, 100u8, 34u8, 58u8]
}

/// Builds the bytes of `,"id":` as a vector.
pub fn json_move_mid_vec() -> (v: Vec<u8>)
    ensures
        v@ == json_move_mid(),
{
    let a: [u8; 6] = [44u8, 34u8, 105u8, 100u8, 34u8, 58u8];
    let v: Vec<u8> = vstd::slice::slice_to_vec(a.as_slice());
    proof {
        assert(v@ =~= json_move_mid());
    }
    v
}

} // verus!
