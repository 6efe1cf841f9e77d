//! The example application: a two-player game served over the library's
//! handler protocol.
//!
//! The board is nine cells and a turn marker. Two handlers are mounted: one
//! answers a status query with the board encoded as JSON, the other applies
//! a submitted move when it is legal. The JSON bodies follow two fixed
//! shapes — the encoded board object and the encoded move object — which
//! are this application's wire contract; both are specified byte for byte.

use crate::bytes::append_bytes;
use crate::bytes::bytes_eq;
use crate::dispatch::Handler;
use crate::message::ReqModel;
use crate::message::RespModel;
use crate::message::Request;
use crate::message::Response;
use crate::tokens::content_type_json;
use crate::tokens::content_type_json_vec;
use crate::tokens::content_type_name;
use crate::tokens::content_type_name_vec;
use crate::tokens::json_board_mid;
use crate::tokens::json_board_mid_vec;
use crate::tokens::json_board_open;
use crate::tokens::json_board_open_vec;
use crate::tokens::json_close;
use crate::tokens::json_close_vec;
use crate::tokens::json_comma;
use crate::tokens::json_comma_vec;
use crate::tokens::json_empty;
use crate::tokens::json_empty_vec;
use crate::tokens::json_move_mid;
use crate::tokens::json_move_mid_vec;
use crate::tokens::json_move_open;
use crate::tokens::json_move_open_vec;
use crate::tokens::json_o;
use crate::tokens::json_o_vec;
use crate::tokens::json_x;
use crate::tokens::json_x_vec;
use crate::tokens::get_root_line;
use crate::tokens::get_root_line_vec;
use crate::tokens::post_move_line;
use crate::tokens::post_move_line_vec;
use crate::tokens::status_bad_request;
use crate::tokens::status_bad_request_vec;
use crate::tokens::status_ok;
use crate::tokens::status_ok_vec;
use crate::tokens::status_server_error;
use crate::tokens::status_server_error_vec;
use vstd::prelude::*;

verus! {

/// What one cell holds, and whose turn it is.
#[derive(Clone, Copy, PartialEq, Eq, Structural, Debug)]
pub enum Values {
    X,
    O,
    Empty,
}

/// The mathematical model of a board: nine cells and the turn marker.
#[verifier::ext_equal]
pub ghost struct BoardModel {
    pub cells: Seq<Values>,
    pub turn: Values,
}

/// The game state: a fixed row of nine cells and whose turn it is.
#[derive(Clone, Copy)]
pub struct Board {
    /// The cells, indexed zero through eight.
    pub board: [Values; 9],
    /// The mark that moves next.
    pub turn: Values,
}

impl View for Board {
    type V = BoardModel;

    open spec fn view(&self) -> BoardModel {
        BoardModel { cells: self.board@, turn: self.turn }
    }
}

impl Board {
    /// A fresh board: all cells empty, X to move.
    pub fn new() -> (b: Board)
        ensures
            b@.turn == Values::X,
            b@.cells.len() == 9,
            forall|i: int| 0 <= i < 9 ==> b@.cells[i] == Values::Empty,
    {
        Board { board: [Values::Empty;9], turn: Values::X }
    }
}

/// One submitted move: which cell, and which mark claims it.
#[derive(Clone, Copy, PartialEq, Eq, Structural, Debug)]
pub struct Move {
    /// The cell index; the board has cells zero through eight.
    pub index: usize,
    /// The mark making the move.
    pub id: Values,
}

/// The JSON encoding of one mark.
pub open spec fn values_json(v: Values) -> Seq<u8> {
    match v {
        Values::X => json_x(),
        Values::O => json_o(),
        Values::Empty => json_empty(),
    }
}

/// The JSON encoding of the whole board object, byte for byte.
pub open spec fn board_json(b: BoardModel) -> Seq<u8> {
    json_board_open() + values_json(b.cells[0]) + json_comma() + values_json(b.cells[1])
        + json_comma() + values_json(b.cells[2]) + json_comma() + values_json(b.cells[3])
        + json_comma() + values_json(b.cells[4]) + json_comma() + values_json(b.cells[5])
        + json_comma() + values_json(b.cells[6]) + json_comma() + values_json(b.cells[7])
        + json_comma() + values_json(b.cells[8]) + json_board_mid() + values_json(b.turn)
        + json_close()
}

/// The JSON encoding of one move object, byte for byte; the cell index is a
/// single decimal digit, as the board has only nine cells.
pub open spec fn move_json(m: Move) -> Seq<u8> {
    json_move_open() + seq![(48 + m.index) as u8] + json_move_mid() + values_json(m.id)
        + json_close()
}

/// What a move body parses to: the unique move whose encoding the body is,
/// if there is one.
pub open spec fn spec_parse_move(body: Seq<u8>) -> Option<Move> {
    if exists|m: Move| m.index <= 9 && body == move_json(m) {
        Some(choose|m: Move| m.index <= 9 && body == move_json(m))
    } else {
        None
    }
}

/// A move is legal when the cell exists, the mark is the one whose turn it
/// is, and the cell is still empty.
pub open spec fn move_legal(b: BoardModel, m: Move) -> bool {
    m.index < 9 && m.id == b.turn && b.cells[m.index as int] == Values::Empty
}

/// The other mark.
pub open spec fn flip(v: Values) -> Values {
    if v == Values::X {
        Values::O
    } else {
        Values::X
    }
}

/// The board after a legal move: the claimed cell set, the turn flipped.
pub open spec fn board_after(b: BoardModel, m: Move) -> BoardModel {
    BoardModel { cells: b.cells.update(m.index as int, m.id), turn: flip(b.turn) }
}

/// Appends the JSON encoding of one mark.
fn append_value_json(buf: &mut Vec<u8>, v: Values)
    ensures
        final(buf)@ == old(buf)@ + values_json(v),
{
    match v {
        Values::X => {
            let t = json_x_vec();
            append_bytes(buf, t.as_slice());
        },
        Values::O => {
            let t = json_o_vec();
            append_bytes(buf, t.as_slice());
        },
        Values::Empty => {
            let t = json_empty_vec();
            append_bytes(buf, t.as_slice());
        },
    }
}

/// Encodes the board as its JSON object.
pub fn board_to_json(b: &Board) -> (v: Vec<u8>)
    ensures
        v@ == board_json(b@),
{
    let mut v: Vec<u8> = Vec::new();
    let open = json_board_open_vec();
    append_bytes(&mut v, open.as_slice());
    append_value_json(&mut v, b.board[0]);
    let comma = json_comma_vec();
    let mut i: usize = 1;
    while i < 9
        invariant
            1 <= i <= 9,
            comma@ == json_comma(),
            v@ == board_json_prefix(b@, i as int),
        decreases 9 - i,
    {
        append_bytes(&mut v, comma.as_slice());
        append_value_json(&mut v, b.board[i]);
        i = i + 1;
    }
    let mid = json_board_mid_vec();
    append_bytes(&mut v, mid.as_slice());
    append_value_json(&mut v, b.turn);
    let close = json_close_vec();
    append_bytes(&mut v, close.as_slice());
    proof {
        lemma_board_json_prefix_full(b@);
        assert(v@ =~= board_json(b@));
    }
    v
}

/// The encoded board up to cell `i`: the open bracket and the first `i`
/// cells with their separators.
pub open spec fn board_json_prefix(b: BoardModel, i: int) -> Seq<u8>
    decreases i,
{
    if i <= 1 {
        json_board_open() + values_json(b.cells[0])
    } else {
        board_json_prefix(b, i - 1) + json_comma() + values_json(b.cells[i - 1])
    }
}

/// The full board encoding is the nine-cell prefix plus the turn field.
proof fn lemma_board_json_prefix_full(b: BoardModel)
    ensures
        board_json(b) == board_json_prefix(b, 9) + json_board_mid() + values_json(b.turn)
            + json_close(),
{
    reveal_with_fuel(board_json_prefix, 10);
    assert(board_json_prefix(b, 9) + json_board_mid() + values_json(b.turn) + json_close()
        =~= board_json(b));
}

/// Encodes one move as its JSON object.
pub fn move_to_json(m: &Move) -> (v: Vec<u8>)
    requires
        m.index <= 9,
    ensures
        v@ == move_json(*m),
{
    let mut v: Vec<u8> = Vec::new();
    let open = json_move_open_vec();
    append_bytes(&mut v, open.as_slice());
    v.push(48 + (m.index as u8));
    let mid = json_move_mid_vec();
    append_bytes(&mut v, mid.as_slice());
    append_value_json(&mut v, m.id);
    let close = json_close_vec();
    append_bytes(&mut v, close.as_slice());
    proof {
        assert(v@ =~= move_json(*m));
    }
    v
}

/// The length of an encoded move: twenty bytes, or twenty-four when the
/// mark is the long-named empty one.
proof fn lemma_move_json_len(m: Move)
    requires
        m.index <= 9,
    ensures
        m.id is Empty ==> move_json(m).len() == 24,
        !(m.id is Empty) ==> move_json(m).len() == 20,
{
}

/// The two positions of an encoded move that identify it: the digit byte
/// and, for the short encodings, the mark byte.
proof fn lemma_move_json_bytes(m: Move)
    requires
        m.index <= 9,
    ensures
        move_json(m)[9] == (48 + m.index) as u8,
        48 <= move_json(m)[9] <= 57,
        m.id is X ==> move_json(m)[17] == 88,
        m.id is O ==> move_json(m)[17] == 79,
{
    assert(move_json(m)[9] == seq![(48 + m.index) as u8][0]);
    if m.id is X {
        assert(move_json(m)[17] == json_x()[1]);
    }
    if m.id is O {
        assert(move_json(m)[17] == json_o()[1]);
    }
}

/// No two distinct moves share an encoding.
pub proof fn lemma_move_json_inj(m1: Move, m2: Move)
    requires
        m1.index <= 9,
        m2.index <= 9,
        move_json(m1) == move_json(m2),
    ensures
        m1 == m2,
{
    lemma_move_json_len(m1);
    lemma_move_json_len(m2);
    lemma_move_json_bytes(m1);
    lemma_move_json_bytes(m2);
    assert((48 + m1.index) as u8 == (48 + m2.index) as u8);
    assert(m1.index == m2.index);
    if m1.id is Empty {
        assert(m2.id is Empty);
    } else {
        assert(!(m2.id is Empty));
        if m1.id is X {
            assert(m2.id is X);
        } else {
            assert(m2.id is O);
        }
    }
}

/// Decodes a move body. Succeeds exactly on the bodies that are the
/// encoding of some move, and yields that move.
pub fn parse_move(body: &[u8]) -> (r: Option<Move>)
    ensures
        r == spec_parse_move(body@),
{
    if body.len() != 20 && body.len() != 24 {
        proof {
            assert forall|m: Move| m.index <= 9 implies body@ != move_json(m) by {
                lemma_move_json_len(m);
            }
        }
        return None;
    }
    let d = body[9];
    if d < 48 || d > 57 {
        proof {
            assert forall|m: Move| m.index <= 9 implies body@ != move_json(m) by {
                lemma_move_json_bytes(m);
            }
        }
        return None;
    }
    let id: Values = if body.len() == 24 {
        Values::Empty
    } else if body[17] == 88 {
        Values::X
    } else if body[17] == 79 {
        Values::O
    } else {
        proof {
            assert forall|m: Move| m.index <= 9 implies body@ != move_json(m) by {
                lemma_move_json_len(m);
                lemma_move_json_bytes(m);
            }
        }
        return None;
    };
    let mv = Move { index: (d - 48) as usize, id };
    let enc = move_to_json(&mv);
    if bytes_eq(body, enc.as_slice()) {
        proof {
            assert(mv.index <= 9 && body@ == move_json(mv));
            let m0 = choose|m: Move| m.index <= 9 && body@ == move_json(m);
            lemma_move_json_inj(m0, mv);
        }
        Some(mv)
    } else {
        proof {
            assert forall|m: Move| m.index <= 9 implies body@ != move_json(m) by {
                if body@ == move_json(m) {
                    lemma_move_json_len(m);
                    lemma_move_json_bytes(m);
                    assert(m.index == mv.index);
                    if body@.len() == 24 {
                        assert(m.id is Empty);
                    } else if body@[17] == 88 {
                        assert(m.id is X);
                    } else {
                        assert(m.id is O);
                    }
                    assert(m == mv);
                }
            }
        }
        None
    }
}

/// Builds a response with the given status line, no headers and an empty
/// body.
fn plain_response(status: Vec<u8>) -> (r: Response)
    ensures
        r@ == (RespModel { status: status@, headers: Seq::empty(), body: Seq::empty() }),
{
    let r = Response { status_line: status, headers: Vec::new(), body: Vec::new() };
    proof {
        assert(r@ =~~= (RespModel {
            status: r.status_line@,
            headers: Seq::empty(),
            body: Seq::empty(),
        }));
    }
    r
}

/// Builds a response with the given status line, a JSON content type
/// header, and the given body.
fn json_response(status: Vec<u8>, body: Vec<u8>) -> (r: Response)
    ensures
        r@ == (RespModel {
            status: status@,
            headers: seq![(content_type_name(), content_type_json())],
            body: body@,
        }),
{
    let mut headers: Vec<(Vec<u8>, Vec<u8>)> = Vec::new();
    headers.push((content_type_name_vec(), content_type_json_vec()));
    let r = Response { status_line: status, headers, body };
    proof {
        assert(r@.headers =~~= seq![(content_type_name(), content_type_json())]);
    }
    r
}

/// The two handlers of the example application, mounted in this order:
/// the board query first, the move submission second.
#[derive(Clone, Copy, PartialEq, Eq, Structural, Debug)]
pub enum GameHandler {
    /// Answers `GET / HTTP/1.1` with the board as JSON.
    Index,
    /// Answers `POST /move HTTP/1.1` by applying the submitted move.
    PostMove,
}

impl Handler<Board> for GameHandler {
    open spec fn accepts(&self, req: ReqModel) -> bool {
        match self {
            GameHandler::Index => req.line == get_root_line(),
            GameHandler::PostMove => req.line == post_move_line(),
        }
    }

    open spec fn reply(&self, req: ReqModel, state: Option<BoardModel>) -> (
        RespModel,
        Option<BoardModel>,
    ) {
        match self {
            GameHandler::Index => match state {
                None => (
                    RespModel {
                        status: status_server_error(),
                        headers: Seq::empty(),
                        body: Seq::empty(),
                    },
                    None,
                ),
                Some(b) => (
                    RespModel {
                        status: status_ok(),
                        headers: seq![(content_type_name(), content_type_json())],
                        body: board_json(b),
                    },
                    Some(b),
                ),
            },
            GameHandler::PostMove => match state {
                None => (
                    RespModel {
                        status: status_server_error(),
                        headers: Seq::empty(),
                        body: Seq::empty(),
                    },
                    None,
                ),
                Some(b) => match spec_parse_move(req.body) {
                    None => (
                        RespModel {
                            status: status_bad_request(),
                            headers: Seq::empty(),
                            body: Seq::empty(),
                        },
                        Some(b),
                    ),
                    Some(m) => if move_legal(b, m) {
                        (
                            RespModel {
                                status: status_ok(),
                                headers: seq![(content_type_name(), content_type_json())],
                                body: board_json(board_after(b, m)),
                            },
                            Some(board_after(b, m)),
                        )
                    } else {
                        (
                            RespModel {
                                status: status_bad_request(),
                                headers: Seq::empty(),
                                body: Seq::empty(),
                            },
                            Some(b),
                        )
                    },
                },
            },
        }
    }

    fn handle(&self, req: &Request, state: &mut Option<Board>) -> (r: Option<Response>) {
        match self {
            GameHandler::Index => {
                let line = get_root_line_vec();
                if !bytes_eq(req.request_line.as_slice(), line.as_slice()) {
                    return None;
                }
                let cur: Option<Board> = *state;
                match cur {
                    None => Some(plain_response(status_server_error_vec())),
                    Some(b) => {
                        let body = board_to_json(&b);
                        Some(json_response(status_ok_vec(), body))
                    },
                }
            },
            GameHandler::PostMove => {
                let line = post_move_line_vec();
                if !bytes_eq(req.request_line.as_slice(), line.as_slice()) {
                    return None;
                }
                let cur: Option<Board> = *state;
                match cur {
                    None => Some(plain_response(status_server_error_vec())),
                    Some(b) => {
                        let mv = match parse_move(req.body.as_slice()) {
                            None => {
                                return Some(plain_response(status_bad_request_vec()));
                            },
                            Some(mv) => mv,
                        };
                        if mv.index < 9 && mv.id == b.turn && b.board[mv.index] == Values::Empty {
                            let mut arr = b.board;
                            arr[mv.index] = mv.id;
                            let nb = Board {
                                board: arr,
                                turn: if mv.id == Values::X {
                                    Values::O
                                } else {
                                    Values::X
                                },
                            };
                            *state = Some(nb);
                            let body = board_to_json(&nb);
                            proof {
                                assert(nb@ =~~= board_after(b@, mv));
                            }
                            Some(json_response(status_ok_vec(), body))
                        } else {
                            Some(plain_response(status_bad_request_vec()))
                        }
                    },
                }
            },
        }
    }
}

} // verus!
