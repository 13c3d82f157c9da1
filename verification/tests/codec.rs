use tetris_relay::board::Board;
use tetris_relay::codec::{encode_client, encode_server, parse_client};
use tetris_relay::messages::{ClientMessage, ServerMessage};
use tetris_relay::piece::{Piece, PieceId};
use tetris_relay::position::Position;

fn empty_board_json() -> String {
    let row = format!("[{}]", vec!["null"; 10].join(","));
    format!("[{}]", vec![row; 20].join(","))
}

#[test]
fn encodes_game_over() {
    assert_eq!(encode_client(&ClientMessage::GameOver), "\"GameOver\"");
}

#[test]
fn encodes_lines_destroyed() {
    assert_eq!(
        encode_client(&ClientMessage::LinesDestroyed(vec![42])),
        "{\"LinesDestroyed\":[42]}"
    );
    assert_eq!(
        encode_client(&ClientMessage::LinesDestroyed(vec![0, 65535, 7])),
        "{\"LinesDestroyed\":[0,65535,7]}"
    );
    assert_eq!(encode_client(&ClientMessage::LinesDestroyed(vec![])), "{\"LinesDestroyed\":[]}");
}

#[test]
fn encodes_empty_board() {
    let expected = format!("{{\"BoardUpdate\":{}}}", empty_board_json());
    assert_eq!(encode_client(&ClientMessage::BoardUpdate(Board::default())), expected);
}

#[test]
fn encodes_board_with_a_piece() {
    let mut board = Board::default();
    // The square piece at the top left corner: cells (0,0), (0,1), (1,0), (1,1).
    board.place_at(&Piece::from(PieceId::O), &Position(0, 0)).unwrap();
    let text = encode_client(&ClientMessage::BoardUpdate(board));
    assert!(text.starts_with("{\"BoardUpdate\":[[\"O\",\"O\",null,"));
    assert!(text.contains("],[\"O\",\"O\",null,"));
    assert_eq!(text.matches("\"O\"").count(), 4);
}

#[test]
fn encodes_server_broadcast() {
    let msg = ServerMessage::Broadcast {
        user_id: 340282366920938463463374607431768211455, // the largest identifier
        msg: ClientMessage::LinesDestroyed(vec![1]),
    };
    assert_eq!(
        encode_server(&msg),
        "{\"Broadcast\":{\"user_id\":340282366920938463463374607431768211455,\"msg\":{\"LinesDestroyed\":[1]}}}"
    );
    assert_eq!(
        encode_server(&ServerMessage::Broadcast {
            user_id: 0,
            msg: ClientMessage::GameOver,
        }),
        "{\"Broadcast\":{\"user_id\":0,\"msg\":\"GameOver\"}}"
    );
    assert_eq!(encode_server(&ServerMessage::LeaderBoardUpdate()), "{\"LeaderBoardUpdate\":[]}");
}

#[test]
fn round_trips_every_message_kind() {
    let samples = vec![
        ClientMessage::GameOver,
        ClientMessage::LinesDestroyed(vec![]),
        ClientMessage::LinesDestroyed(vec![42]),
        ClientMessage::LinesDestroyed(vec![0, 1, 65535]),
        ClientMessage::BoardUpdate(Board::default()),
        {
            let mut board = Board::default();
            board.place_at(&Piece::from(PieceId::T), &Position(5, 5)).unwrap();
            board.place_at(&Piece::from(PieceId::I), &Position(5, 19)).unwrap();
            ClientMessage::BoardUpdate(board)
        },
    ];
    for m in samples {
        let text = encode_client(&m);
        let back = parse_client(&text);
        assert_eq!(back, Some(m));
    }
}

#[test]
fn rejects_near_misses() {
    // Whitespace, wrong case, trailing text, broken numbers: all malformed.
    assert_eq!(parse_client(""), None);
    assert_eq!(parse_client("GameOver"), None);
    assert_eq!(parse_client("\"gameover\""), None);
    assert_eq!(parse_client("\"GameOver\" "), None);
    assert_eq!(parse_client("{\"LinesDestroyed\":[42]} "), None);
    assert_eq!(parse_client("{\"LinesDestroyed\": [42]}"), None);
    assert_eq!(parse_client("{\"LinesDestroyed\":[65536]}"), None);
    assert_eq!(parse_client("{\"LinesDestroyed\":[042]}"), None);
    assert_eq!(parse_client("{\"LinesDestroyed\":[42,]}"), None);
    assert_eq!(parse_client("{\"LinesDestroyed\":[42]"), None);
    assert_eq!(parse_client("{\"BoardUpdate\":[]}"), None);
    assert_eq!(parse_client("{\"Broadcast\":{\"user_id\":1,\"msg\":\"GameOver\"}}"), None);
    assert_eq!(parse_client("lol"), None);
}

#[test]
fn parses_exact_wire_frames() {
    assert_eq!(parse_client("\"GameOver\""), Some(ClientMessage::GameOver));
    assert_eq!(
        parse_client("{\"LinesDestroyed\":[0b101010]}"),
        None // a binary literal is not a JSON number
    );
    assert_eq!(
        parse_client("{\"LinesDestroyed\":[42]}"),
        Some(ClientMessage::LinesDestroyed(vec![42]))
    );
    let board_text = format!("{{\"BoardUpdate\":{}}}", empty_board_json());
    assert_eq!(parse_client(&board_text), Some(ClientMessage::BoardUpdate(Board::default())));
}

#[test]
fn wire_format_agrees_with_the_json_printer() {
    // Build the same values through the JSON library and compare the texts,
    // so the frames stay compatible with peers that use it.
    let mut obj = serde_json::Map::new();
    obj.insert(
        "LinesDestroyed".to_string(),
        serde_json::Value::Array(vec![serde_json::Value::Number(serde_json::Number::from(
            42u64,
        ))]),
    );
    let expected = serde_json::to_string(&serde_json::Value::Object(obj)).unwrap();
    assert_eq!(encode_client(&ClientMessage::LinesDestroyed(vec![42])), expected);

    let expected =
        serde_json::to_string(&serde_json::Value::String("GameOver".to_string())).unwrap();
    assert_eq!(encode_client(&ClientMessage::GameOver), expected);

    let board_val = serde_json::Value::Array(
        (0..20)
            .map(|_| serde_json::Value::Array((0..10).map(|_| serde_json::Value::Null).collect()))
            .collect(),
    );
    let mut obj = serde_json::Map::new();
    obj.insert("BoardUpdate".to_string(), board_val);
    let expected = serde_json::to_string(&serde_json::Value::Object(obj)).unwrap();
    assert_eq!(encode_client(&ClientMessage::BoardUpdate(Board::default())), expected);
}
