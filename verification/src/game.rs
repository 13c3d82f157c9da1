use vstd::prelude::*;
use crate::board::{spec_covers, Board};
use crate::messages::{ClientMessage, ClientMessageView};
use crate::piece::{spec_bits, Piece, PieceId};
use crate::position::Position;

verus! {

/// What one tick of the falling-piece loop decided.
#[derive(Debug, PartialEq)]
pub enum TickOutcome {
    /// The piece moved one row down; the board is untouched.
    Advanced(Position),
    /// The piece was stamped onto the board where it stood; the carried
    /// update is the new board, ready to be announced, and the next piece
    /// should spawn at the top.
    Placed { update: ClientMessage },
    /// The piece can neither fall nor be placed; nothing changed.
    Stuck,
}

/// One tick of the falling piece: move it a row down when the cell below is
/// free, otherwise stamp it where it stands and hand back the board update
/// to announce.
pub fn game_tick(board: &mut Board, piece_id: PieceId, pos: Position) -> (r: TickOutcome)
    requires
        old(board).wf(),
        pos.1 < 255,
    ensures
        final(board).wf(),
        ({
            let down = Position(pos.0, (pos.1 + 1) as u8);
            let bits = spec_bits(piece_id);
            &&& old(board).spec_can_place(bits, down) ==> r == TickOutcome::Advanced(down)
                && *final(board) == *old(board)
            &&& !old(board).spec_can_place(bits, down) && !old(board).spec_can_place(bits, pos)
                ==> r == TickOutcome::Stuck && *final(board) == *old(board)
            &&& !old(board).spec_can_place(bits, down) && old(board).spec_can_place(bits, pos)
                ==> {
                &&& (r matches TickOutcome::Placed { update } && update@
                    == ClientMessageView::BoardUpdate(final(board).0@))
                &&& forall|x: int, y: int|
                    0 <= x < 10 && 0 <= y < 20 ==> final(board).cell(x, y) == (if spec_covers(
                        bits,
                        pos,
                        x,
                        y,
                    ) {
                        Some(piece_id)
                    } else {
                        old(board).cell(x, y)
                    })
            }
        }),
{
    let piece = Piece::from(piece_id);
    let down = Position(pos.0, pos.1 + 1);
    if board.can_place_at(&piece, &down) {
        return TickOutcome::Advanced(down);
    }
    match board.place_at(&piece, &pos) {
        Ok(()) => {
            let update = ClientMessage::BoardUpdate(board.clone());
            TickOutcome::Placed { update }
        },
        Err(_) => TickOutcome::Stuck,
    }
}

} // verus!
