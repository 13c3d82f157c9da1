use vstd::prelude::*;
use crate::piece::{Bit, Piece, PieceId};
use crate::position::Position;

verus! {

/// Number of columns of the playing field.
pub const BOARD_WIDTH: usize = 10;

/// Number of rows of the playing field.
pub const BOARD_HEIGHT: usize = 20;

/// The playing field: rows stored row-major, one optional piece kind per cell.
#[derive(Debug, PartialEq, Eq)]
pub struct Board(pub Vec<Option<PieceId>>);

/// Where a piece bit lands, as ideal integers, when the pivot is at `pos`.
pub open spec fn target_x(bits: Seq<Bit>, pos: Position, i: int) -> int {
    bits[i].0 + pos.0
}

/// See [`target_x`].
pub open spec fn target_y(bits: Seq<Bit>, pos: Position, i: int) -> int {
    bits[i].1 + pos.1
}

/// Whether some bit of a piece with these cells, pivot at `pos`, lands on
/// cell `(x, y)`.
pub open spec fn spec_covers(bits: Seq<Bit>, pos: Position, x: int, y: int) -> bool {
    exists|i: int|
        0 <= i < bits.len() && #[trigger] target_x(bits, pos, i) == x && target_y(
            bits,
            pos,
            i,
        ) == y
}

impl Board {
    /// The board always holds exactly `BOARD_HEIGHT * BOARD_WIDTH` cells.
    pub open spec fn wf(self) -> bool {
        self.0@.len() == 200
    }

    /// The content of cell `(x, y)`.
    pub open spec fn cell(self, x: int, y: int) -> Option<PieceId> {
        self.0@[y * 10 + x]
    }

    /// Whether every given piece cell, with the pivot at `pos`, lands on a
    /// free cell inside the field.
    pub open spec fn spec_can_place(self, bits: Seq<Bit>, pos: Position) -> bool {
        forall|i: int|
            0 <= i < bits.len() ==> 0 <= #[trigger] target_x(bits, pos, i) < 10 && 0
                <= target_y(bits, pos, i) < 20 && self.cell(
                target_x(bits, pos, i),
                target_y(bits, pos, i),
            ) is None
    }

    pub fn can_place_at(&self, piece: &Piece, position: &Position) -> (r: bool)
        requires
            self.wf(),
        ensures
            r == self.spec_can_place(piece.bits@, *position),
    {
        let n = piece.bits.len();
        let mut i: usize = 0;
        while i < n
            invariant
                self.wf(),
                n == piece.bits@.len(),
                i <= n,
                forall|j: int|
                    0 <= j < i ==> 0 <= #[trigger] target_x(piece.bits@, *position, j) < 10 && 0
                        <= target_y(piece.bits@, *position, j) < 20 && self.cell(
                        target_x(piece.bits@, *position, j),
                        target_y(piece.bits@, *position, j),
                    ) is None,
            decreases n - i,
        {
            let b = piece.bits[i];
            let x = b.0 as i32 + position.0 as i32;
            let y = b.1 as i32 + position.1 as i32;
            proof {
                assert(x == target_x(piece.bits@, *position, i as int));
                assert(y == target_y(piece.bits@, *position, i as int));
            }
            if x < 0 || y < 0 || x > 10 - 1 || y > 20 - 1 {
                proof {
                    assert(!(0 <= target_x(piece.bits@, *position, i as int) < 10 && 0 <= target_y(piece.bits@, *position,
                        i as int,
                    ) < 20));
                }
                return false;
            }
            let idx = (y as usize) * 10 + (x as usize);
            if self.0[idx].is_some() {
                proof {
                    assert(self.cell(
                        target_x(piece.bits@, *position, i as int),
                        target_y(piece.bits@, *position, i as int),
                    ) is Some);
                }
                return false;
            }
            i += 1;
        }
        true
    }

    /// Stamp the piece onto the board at `position`; the board is unchanged and
    /// an error is reported when any bit would land outside the field or on an
    /// occupied cell.
    pub fn place_at(&mut self, piece: &Piece, position: &Position) -> (r: Result<(), String>)
        requires
            old(self).wf(),
        ensures
            final(self).wf(),
            r is Ok <==> old(self).spec_can_place(piece.bits@, *position),
            r is Err ==> *final(self) == *old(self),
            r is Ok ==> forall|x: int, y: int|
                0 <= x < 10 && 0 <= y < 20 ==> final(self).cell(x, y) == (if spec_covers(piece.bits@, *position,
                    x,
                    y,
                ) {
                    Some(piece.id)
                } else {
                    old(self).cell(x, y)
                }),
    {
        if !self.can_place_at(piece, position) {
            return Err("Cannot place piece at position".to_owned());
        }
        let n = piece.bits.len();
        let mut i: usize = 0;
        while i < n
            invariant
                self.wf(),
                n == piece.bits@.len(),
                i <= n,
                old(self).spec_can_place(piece.bits@, *position),
                forall|x: int, y: int|
                    0 <= x < 10 && 0 <= y < 20 ==> self.cell(x, y) == (if covered_prefix(piece.bits@, *position,
                        i as int,
                        x,
                        y,
                    ) {
                        Some(piece.id)
                    } else {
                        old(self).cell(x, y)
                    }),
            decreases n - i,
        {
            let ghost prev = *self;
            let b = piece.bits[i];
            proof {
                assert(0 <= target_x(piece.bits@, *position, i as int) < 10);
                assert(0 <= target_y(piece.bits@, *position, i as int) < 20);
            }
            let x = (b.0 as i32 + position.0 as i32) as usize;
            let y = (b.1 as i32 + position.1 as i32) as usize;
            proof {
                assert(x == target_x(piece.bits@, *position, i as int));
                assert(y == target_y(piece.bits@, *position, i as int));
            }
            let idx = y * 10 + x;
            self.0.set(idx, Some(piece.id));
            proof {
                assert forall|xx: int, yy: int| 0 <= xx < 10 && 0 <= yy < 20 implies self.cell(
                    xx,
                    yy,
                ) == (if covered_prefix(piece.bits@, *position, i + 1, xx, yy) {
                    Some(piece.id)
                } else {
                    old(self).cell(xx, yy)
                }) by {
                    if xx == x as int && yy == y as int {
                        assert(target_x(piece.bits@, *position, i as int) == xx && target_y(piece.bits@, *position,
                            i as int,
                        ) == yy);
                        assert(covered_prefix(piece.bits@, *position, i + 1, xx, yy));
                        assert(self.cell(xx, yy) == Some(piece.id));
                    } else {
                        assert(yy * 10 + xx != idx);
                        assert(self.cell(xx, yy) == prev.cell(xx, yy));
                        if covered_prefix(piece.bits@, *position, i + 1, xx, yy) {
                            let j = choose|j: int|
                                0 <= j < i + 1 && j < piece.bits@.len() && #[trigger] target_x(piece.bits@, *position,
                                    j,
                                ) == xx && target_y(piece.bits@, *position, j) == yy;
                            assert(j < i);
                            assert(covered_prefix(piece.bits@, *position, i as int, xx, yy));
                        } else {
                            assert(!covered_prefix(piece.bits@, *position, i as int, xx, yy));
                        }
                    }
                }
            }
            i += 1;
        }
        proof {
            assert forall|x: int, y: int|
                0 <= x < 10 && 0 <= y < 20 && spec_covers(piece.bits@, *position, x, y) implies
                covered_prefix(piece.bits@, *position, n as int, x, y) by {
            }
        }
        Ok(())
    }

    pub fn iter(&self) -> (r: BoardIterator<'_>)
        requires
            self.wf(),
        ensures
            r.board == self,
            r.row == 0,
            r.col == 0,
            r.wf(),
    {
        BoardIterator { board: self, row: 0, col: 0 }
    }
}

/// Whether one of the first `k` piece cells lands on cell `(x, y)`.
pub open spec fn covered_prefix(bits: Seq<Bit>, pos: Position, k: int, x: int, y: int) -> bool {
    exists|i: int|
        0 <= i < k && i < bits.len() && #[trigger] target_x(bits, pos, i) == x && target_y(
            bits,
            pos,
            i,
        ) == y
}

impl Clone for Board {
    fn clone(&self) -> (r: Self)
        ensures
            r.0@ == self.0@,
    {
        let mut cells: Vec<Option<PieceId>> = Vec::new();
        let n = self.0.len();
        let mut i: usize = 0;
        while i < n
            invariant
                n == self.0@.len(),
                i <= n,
                cells@ == self.0@.subrange(0, i as int),
            decreases n - i,
        {
            cells.push(self.0[i]);
            proof {
                assert(cells@ =~= self.0@.subrange(0, i + 1));
            }
            i += 1;
        }
        proof {
            assert(cells@ =~= self.0@);
        }
        Board(cells)
    }
}

impl Default for Board {
    /// An empty field.
    fn default() -> (r: Self)
        ensures
            r.wf(),
            forall|i: int| 0 <= i < 200 ==> r.0@[i] is None,
    {
        let mut cells: Vec<Option<PieceId>> = Vec::new();
        let mut i: usize = 0;
        while i < 200
            invariant
                i <= 200,
                cells@.len() == i,
                forall|j: int| 0 <= j < i ==> cells@[j] is None,
            decreases 200 - i,
        {
            cells.push(None);
            i += 1;
        }
        Board(cells)
    }
}

/// Walks the board row by row, yielding each cell with its position.
pub struct BoardIterator<'a> {
    pub board: &'a Board,
    pub row: usize,
    pub col: usize,
}

impl<'a> BoardIterator<'a> {
    /// The iterator never leaves the column range, and always points into a
    /// well-formed board.
    pub open spec fn wf(self) -> bool {
        self.board.wf() && self.col < 10
    }

    /// Yields `Some((content, position))` for the current cell and moves one
    /// cell forward, or `None` once every row has been walked.
    pub fn next(&mut self) -> (r: Option<(Option<PieceId>, Position)>)
        requires
            old(self).wf(),
        ensures
            final(self).wf(),
            final(self).board == old(self).board,
            old(self).row >= 20 ==> r is None && *final(self) == *old(self),
            old(self).row < 20 ==> r == Some(
                (
                    old(self).board.cell(old(self).col as int, old(self).row as int),
                    Position(old(self).col as u8, old(self).row as u8),
                ),
            ),
            old(self).row < 20 && old(self).col < 9 ==> final(self).col == old(self).col + 1
                && final(self).row == old(self).row,
            old(self).row < 20 && old(self).col == 9 ==> final(self).col == 0 && final(self).row
                == old(self).row + 1,
    {
        if self.row >= 20 {
            return None;
        }
        let idx = self.row * 10 + self.col;
        let id = self.board.0[idx];
        let pos = Position::from((self.col as u8, self.row as u8));
        self.col += 1;
        if self.col >= 10 {
            self.col = 0;
            self.row += 1;
        }
        Some((id, pos))
    }
}

} // verus!
