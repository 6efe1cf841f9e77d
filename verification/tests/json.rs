//! Tests of the game's fixed JSON shapes: the encoded board object and the
//! encoded move object.

use vr_lib::Board;
use vr_lib::Move;
use vr_lib::Values;
use vr_lib::game::board_to_json;
use vr_lib::game::move_to_json;
use vr_lib::game::parse_move;

#[test]
fn board_json_exact_bytes() {
    let b = Board::new();
    let expected = "{\"board\":[\"Empty\",\"Empty\",\"Empty\",\"Empty\",\"Empty\",\"Empty\",\"Empty\",\"Empty\",\"Empty\"],\"turn\":\"X\"}";
    assert_eq!(board_to_json(&b), expected.as_bytes().to_vec());
}

#[test]
fn board_json_decodes_with_serde() {
    let mut b = Board::new();
    b.board[4] = Values::O;
    b.turn = Values::O;
    let v: serde_json::Value = serde_json::from_slice(&board_to_json(&b)).unwrap();
    let cells = v.get("board").unwrap().as_array().unwrap();
    assert_eq!(cells.len(), 9);
    assert_eq!(cells[4].as_str().unwrap(), "O");
    assert_eq!(cells[0].as_str().unwrap(), "Empty");
    assert_eq!(v.get("turn").unwrap().as_str().unwrap(), "O");
}

#[test]
fn move_json_exact_bytes() {
    let m = Move { index: 7, id: Values::O };
    assert_eq!(move_to_json(&m), b"{\"index\":7,\"id\":\"O\"}".to_vec());
}

#[test]
fn parse_move_accepts_canonical_bodies() {
    assert_eq!(
        parse_move(b"{\"index\":0,\"id\":\"X\"}"),
        Some(Move { index: 0, id: Values::X })
    );
    assert_eq!(
        parse_move(b"{\"index\":4,\"id\":\"O\"}"),
        Some(Move { index: 4, id: Values::O })
    );
    assert_eq!(
        parse_move(b"{\"index\":2,\"id\":\"Empty\"}"),
        Some(Move { index: 2, id: Values::Empty })
    );
}

#[test]
fn parse_move_round_trips_encoding() {
    for index in 0..10 {
        for id in [Values::X, Values::O, Values::Empty] {
            let m = Move { index, id };
            assert_eq!(parse_move(&move_to_json(&m)), Some(m));
        }
    }
}

#[test]
fn parse_move_rejects_malformed_bodies() {
    assert_eq!(parse_move(b""), None);
    assert_eq!(parse_move(b"{\"index\":0,\"id\":\"X\""), None);
    assert_eq!(parse_move(b"{\"index\":a,\"id\":\"X\"}"), None);
    assert_eq!(parse_move(b"{\"index\":0,\"id\":\"Z\"}"), None);
    assert_eq!(parse_move(b"{\"index\":10,\"id\":\"X\"}"), None);
    assert_eq!(parse_move(b"[\"index\":0,\"id\":\"X\"}"), None);
    assert_eq!(parse_move(b"{\"index\":0,\"id\":\"X\"]"), None);
}
