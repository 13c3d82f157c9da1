use tetris_relay::piece::{Piece, PieceId};

fn draw_piece(piece: &Piece) -> String {
    let mut out = String::new();
    out.push_str(&format!(
        "{:?}\n\n",
        piece
            .bits()
            .iter()
            .map(|bit| format!("({}, {}), ", bit.x(), bit.y()))
            .collect::<String>()
    ));

    // Render the piece centered in a small grid.
    let mut grid = vec![vec![' '; 7]; 5]; // 5 rows and 7 columns

    for bit in piece.bits() {
        let x = bit.x() + 3;
        let y = bit.y() + 2;
        if (0..5).contains(&y) && (0..7).contains(&x) {
            grid[y as usize][x as usize] = '#';
        }
    }

    out.push_str("+-------+\n");

    for row in grid {
        out.push_str(&format!("|{}|\n", row.iter().collect::<String>()));
    }

    out.push_str("+-------+\n");
    out
}

fn test_piece(mut piece: Piece, rotations: usize) {
    let initial: Vec<(i8, i8)> = piece.bits().iter().map(|b| (b.x(), b.y())).collect();
    let drawn = draw_piece(&piece);
    assert!(drawn.contains("+-------+"));

    let mut expected = initial.clone();
    for _ in 0..rotations {
        piece.rotate();

        if piece.id() == PieceId::O {
            // The square is symmetric under rotation and must not move.
            assert_eq!(
                piece.bits().iter().map(|b| (b.x(), b.y())).collect::<Vec<_>>(),
                initial
            );
        } else {
            // A quarter turn takes (x, y) to (y, -x).
            expected = expected.iter().map(|&(x, y)| (y, -x)).collect();
            assert_eq!(
                piece.bits().iter().map(|b| (b.x(), b.y())).collect::<Vec<_>>(),
                expected
            );
        }
    }

    // Four quarter turns bring every piece back to where it started.
    assert_eq!(
        piece.bits().iter().map(|b| (b.x(), b.y())).collect::<Vec<_>>(),
        initial
    );
}

#[test]
fn test() {
    assert_eq!(
        Piece::from(PieceId::I)
            .bits()
            .iter()
            .map(|b| (b.x(), b.y()))
            .collect::<Vec<_>>(),
        vec![(-2, 0), (-1, 0), (0, 0), (1, 0)]
    );
    assert_eq!(
        Piece::from(PieceId::T)
            .bits()
            .iter()
            .map(|b| (b.x(), b.y()))
            .collect::<Vec<_>>(),
        vec![(-1, 0), (0, 0), (1, 0), (0, 1)]
    );

    test_piece(Piece::from(PieceId::I), 4);
    test_piece(Piece::from(PieceId::O), 4);
    test_piece(Piece::from(PieceId::T), 4);
    test_piece(Piece::from(PieceId::S), 4);
    test_piece(Piece::from(PieceId::Z), 4);
    test_piece(Piece::from(PieceId::L), 4);
    test_piece(Piece::from(PieceId::J), 4);
}
