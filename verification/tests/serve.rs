//! Tests of the connection: handler dispatch order, the fallback response,
//! and the two end-to-end game scenarios.

use vr_lib::Board;
use vr_lib::Connection;
use vr_lib::GameHandler;
use vr_lib::Values;

fn padded(req: &[u8]) -> Vec<u8> {
    let mut buf = vec![0u8; vr_lib::MAX_REQ_SIZE];
    buf[..req.len()].copy_from_slice(req);
    buf
}

fn game_connection(raw: &[u8], board: Board) -> Connection<Board, GameHandler> {
    let mut conn: Connection<Board, GameHandler> = Connection::new(raw);
    conn.mount_state(board);
    conn.mount_handlers(vec![GameHandler::Index, GameHandler::PostMove]);
    conn
}

fn board_value(body: &[u8]) -> serde_json::Value {
    serde_json::from_slice(body).unwrap()
}

#[test]
fn dispatch_first_matching_handler_wins() {
    // Only the middle handler matches; its response is returned and the
    // declining handlers leave the state untouched.
    let buf = padded(b"GET / HTTP/1.1\r\n\r\n");
    let mut conn: Connection<Board, GameHandler> = Connection::new(&buf);
    conn.mount_state(Board::new());
    conn.mount_handlers(vec![GameHandler::PostMove, GameHandler::Index, GameHandler::PostMove]);
    let res = conn.serve();
    assert_eq!(res.status_line, b"HTTP/1.1 200 OK".to_vec());
    let state = conn.state.unwrap();
    assert_eq!(state.turn, Values::X);
    assert_eq!(state.board, [Values::Empty; 9]);
}

#[test]
fn dispatch_all_decline_yields_not_found() {
    // Fallback: every handler declines, so the synthesized "not found"
    // response with an empty body comes back.
    let buf = padded(b"DELETE /nowhere HTTP/1.1\r\n\r\n");
    let mut conn = game_connection(&buf, Board::new());
    let res = conn.serve();
    assert_eq!(res.status_line, b"HTTP/1.1 404 NOT FOUND".to_vec());
    assert!(res.headers.is_empty());
    assert!(res.body.is_empty());
}

#[test]
fn serve_fresh_board_status_query() {
    // End-to-end: a GET against a fresh board answers 200 with a JSON body
    // of nine empty cells and X to move.
    let buf = padded(b"GET / HTTP/1.1\r\n\r\n");
    let mut conn = game_connection(&buf, Board::new());
    let res = conn.serve();
    assert_eq!(res.status_line, b"HTTP/1.1 200 OK".to_vec());
    assert_eq!(res.headers.len(), 1);
    assert_eq!(res.headers[0].0, b"Content-Type".to_vec());
    assert_eq!(res.headers[0].1, b"application/json".to_vec());
    let v = board_value(&res.body);
    let cells = v.get("board").unwrap().as_array().unwrap();
    assert_eq!(cells.len(), 9);
    for c in cells {
        assert_eq!(c.as_str().unwrap(), "Empty");
    }
    assert_eq!(v.get("turn").unwrap().as_str().unwrap(), "X");
}

#[test]
fn serve_post_move_applies_then_rejects_repeat() {
    // End-to-end: a first move on cell 0 succeeds, sets the cell and flips
    // the turn; the identical move against the updated board is rejected
    // with an empty 400-class response.
    let raw = padded(b"POST /move HTTP/1.1\r\nContent-Length: 20\r\n\r\n{\"index\":0,\"id\":\"X\"}");
    let mut conn = game_connection(&raw, Board::new());
    let res = conn.serve();
    assert_eq!(res.status_line, b"HTTP/1.1 200 OK".to_vec());
    let v = board_value(&res.body);
    let cells = v.get("board").unwrap().as_array().unwrap();
    assert_eq!(cells[0].as_str().unwrap(), "X");
    for c in &cells[1..] {
        assert_eq!(c.as_str().unwrap(), "Empty");
    }
    assert_eq!(v.get("turn").unwrap().as_str().unwrap(), "O");
    let updated = conn.state.unwrap();
    assert_eq!(updated.board[0], Values::X);
    assert_eq!(updated.turn, Values::O);

    let mut conn2 = game_connection(&raw, updated);
    let res2 = conn2.serve();
    assert_eq!(res2.status_line, b"HTTP/1.1 400 BAD REQUEST".to_vec());
    assert!(res2.body.is_empty());
    let after = conn2.state.unwrap();
    assert_eq!(after.board[0], Values::X);
    assert_eq!(after.turn, Values::O);
}

#[test]
fn serve_move_out_of_turn_rejected() {
    let raw = padded(b"POST /move HTTP/1.1\r\nContent-Length: 20\r\n\r\n{\"index\":3,\"id\":\"O\"}");
    let mut conn = game_connection(&raw, Board::new());
    let res = conn.serve();
    assert_eq!(res.status_line, b"HTTP/1.1 400 BAD REQUEST".to_vec());
    assert!(res.body.is_empty());
    let state = conn.state.unwrap();
    assert_eq!(state.board, [Values::Empty; 9]);
    assert_eq!(state.turn, Values::X);
}

#[test]
fn serve_malformed_move_body_rejected() {
    let raw = padded(b"POST /move HTTP/1.1\r\nContent-Length: 12\r\n\r\nnot json at all");
    let mut conn = game_connection(&raw, Board::new());
    let res = conn.serve();
    assert_eq!(res.status_line, b"HTTP/1.1 400 BAD REQUEST".to_vec());
    assert!(res.body.is_empty());
}

#[test]
fn serve_malformed_request_falls_back_to_not_found() {
    // A buffer with no terminator pair at all must not crash the parser;
    // construction falls back to the empty request and dispatch yields the
    // fallback response.
    let buf = padded(b"garbage without any terminator");
    let mut conn = game_connection(&buf, Board::new());
    assert!(conn.req.request_line.is_empty());
    let res = conn.serve();
    assert_eq!(res.status_line, b"HTTP/1.1 404 NOT FOUND".to_vec());
    assert!(res.body.is_empty());
}

#[test]
fn serve_without_state_fails_closed() {
    let buf = padded(b"GET / HTTP/1.1\r\n\r\n");
    let mut conn: Connection<Board, GameHandler> = Connection::new(&buf);
    conn.mount_handlers(vec![GameHandler::Index, GameHandler::PostMove]);
    let res = conn.serve();
    assert_eq!(res.status_line, b"HTTP/1.1 500 INTERNAL SERVER ERROR".to_vec());
    assert!(res.body.is_empty());
}

#[test]
fn serve_with_no_handlers_yields_not_found() {
    let buf = padded(b"GET / HTTP/1.1\r\n\r\n");
    let mut conn: Connection<Board, GameHandler> = Connection::new(&buf);
    conn.mount_state(Board::new());
    let res = conn.serve();
    assert_eq!(res.status_line, b"HTTP/1.1 404 NOT FOUND".to_vec());
    assert!(res.body.is_empty());
}

#[test]
fn mount_handlers_appends_in_order() {
    let buf = padded(b"POST /move HTTP/1.1\r\nContent-Length: 20\r\n\r\n{\"index\":8,\"id\":\"X\"}");
    let mut conn: Connection<Board, GameHandler> = Connection::new(&buf);
    conn.mount_state(Board::new());
    conn.mount_handlers(vec![GameHandler::Index]);
    conn.mount_handlers(vec![GameHandler::PostMove]);
    let res = conn.serve();
    assert_eq!(res.status_line, b"HTTP/1.1 200 OK".to_vec());
    let state = conn.state.unwrap();
    assert_eq!(state.board[8], Values::X);
    assert_eq!(state.turn, Values::O);
}

#[test]
fn serve_response_bytes_round_trip() {
    // The wire bytes a connection would write parse back to the response
    // it served.
    let buf = padded(b"GET / HTTP/1.1\r\n\r\n");
    let mut conn = game_connection(&buf, Board::new());
    let res = conn.serve();
    let bytes = res.as_bytes();
    let back = vr_lib::parse_as_response(&bytes).unwrap();
    assert_eq!(back.status_line, res.status_line);
    assert_eq!(back.headers, res.headers);
    assert_eq!(back.body, res.body);
}
