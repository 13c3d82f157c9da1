use tetris_relay::board::{Board, BOARD_HEIGHT, BOARD_WIDTH};
use tetris_relay::color::Color;
use tetris_relay::piece::{Bit, Piece, PieceId};
use tetris_relay::position::Position;

#[test]
fn default_board_is_empty() {
    let board = Board::default();
    let mut it = board.iter();
    let mut count = 0;
    while let Some((cell, _)) = it.next() {
        assert_eq!(cell, None);
        count += 1;
    }
    assert_eq!(count, BOARD_WIDTH * BOARD_HEIGHT);
}

#[test]
fn iterator_yields_positions_row_by_row() {
    let board = Board::default();
    let mut it = board.iter();
    let first = it.next().unwrap();
    assert_eq!((first.1.x(), first.1.y()), (0, 0));
    let second = it.next().unwrap();
    assert_eq!((second.1.x(), second.1.y()), (1, 0));
    for _ in 0..8 {
        it.next().unwrap();
    }
    let eleventh = it.next().unwrap();
    assert_eq!((eleventh.1.x(), eleventh.1.y()), (0, 1));
}

#[test]
fn place_at_fills_exactly_the_piece_cells() {
    let mut board = Board::default();
    let piece = Piece::from(PieceId::O);
    assert!(board.can_place_at(&piece, &Position(0, 0)));
    board.place_at(&piece, &Position(0, 0)).unwrap();
    let mut filled = Vec::new();
    let mut it = board.iter();
    while let Some((cell, pos)) = it.next() {
        if let Some(id) = cell {
            assert_eq!(id, PieceId::O);
            filled.push((pos.x(), pos.y()));
        }
    }
    assert_eq!(filled, vec![(0, 0), (1, 0), (0, 1), (1, 1)]);
}

#[test]
fn place_at_rejects_out_of_bounds_and_occupied() {
    let mut board = Board::default();
    let piece = Piece::from(PieceId::O);
    // The square at the rightmost column would stick out.
    assert!(!board.can_place_at(&piece, &Position(9, 0)));
    assert!(board.place_at(&piece, &Position(9, 0)).is_err());
    // An I piece reaches two cells left of its pivot.
    let bar = Piece::from(PieceId::I);
    assert!(!board.can_place_at(&bar, &Position(1, 0)));
    assert!(board.can_place_at(&bar, &Position(2, 0)));
    board.place_at(&bar, &Position(2, 0)).unwrap();
    // The same spot is now occupied.
    assert!(board.place_at(&bar, &Position(2, 0)).is_err());
    assert_eq!(board.place_at(&bar, &Position(2, 0)), Err("Cannot place piece at position".to_string()));
}

#[test]
fn bit_translate_adds_the_position() {
    let bit = Bit(-2, 1);
    let moved = bit.translate(&Position(5, 7));
    assert_eq!((moved.x(), moved.y()), (3, 8));
}

#[test]
fn piece_accessors_agree_with_construction() {
    let piece = Piece::from(PieceId::J);
    assert_eq!(piece.id(), PieceId::J);
    assert_eq!(piece.color(), &Color(0, 0, 255, 255));
    assert_eq!(piece.bits().len(), 4);
}

#[test]
fn colors_render_as_css_rgba() {
    let c = Color::from((0, 255, 255));
    assert_eq!(c.r(), 0);
    assert_eq!(c.g(), 255);
    assert_eq!(c.b(), 255);
    assert_eq!(c.a(), 255);
    assert_eq!(c.to_rgba_string(), "rgba(0, 255, 255, 255)");
    assert_eq!(Color::from((1, 2, 3, 4)).to_rgba_string(), "rgba(1, 2, 3, 4)");
    assert_eq!(Color::from([128, 0, 128]).to_rgba_string(), "rgba(128, 0, 128, 255)");
    assert_eq!(Color::from([9, 10, 99, 100]).to_rgba_string(), "rgba(9, 10, 99, 100)");
    assert_eq!(PieceId::L.color(), Color(255, 165, 0, 255));
}

#[test]
fn positions_carry_their_coordinates() {
    let p = Position::from((3, 4));
    assert_eq!(p.x(), 3);
    assert_eq!(p.y(), 4);
}
