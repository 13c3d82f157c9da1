use vstd::prelude::*;
use crate::board::Board;
use crate::piece::PieceId;

verus! {

/// A message a connected client sends to the relay.
#[derive(Debug, PartialEq, Eq)]
pub enum ClientMessage {
    /// One small bitmask per destroyed row.
    LinesDestroyed(Vec<u16>),
    /// The sender's whole board, forwarded verbatim.
    BoardUpdate(Board),
    GameOver,
}

/// The mathematical value of a [`ClientMessage`].
pub enum ClientMessageView {
    LinesDestroyed(Seq<u16>),
    BoardUpdate(Seq<Option<PieceId>>),
    GameOver,
}

impl View for ClientMessage {
    type V = ClientMessageView;

    open spec fn view(&self) -> ClientMessageView {
        match self {
            ClientMessage::LinesDestroyed(rows) => ClientMessageView::LinesDestroyed(rows@),
            ClientMessage::BoardUpdate(board) => ClientMessageView::BoardUpdate(board.0@),
            ClientMessage::GameOver => ClientMessageView::GameOver,
        }
    }
}

impl Clone for ClientMessage {
    fn clone(&self) -> (r: Self)
        ensures
            r@ == self@,
    {
        match self {
            ClientMessage::LinesDestroyed(rows) => {
                let mut copy: Vec<u16> = Vec::new();
                let n = rows.len();
                let mut i: usize = 0;
                while i < n
                    invariant
                        n == rows@.len(),
                        i <= n,
                        copy@ == rows@.subrange(0, i as int),
                    decreases n - i,
                {
                    copy.push(rows[i]);
                    proof {
                        assert(copy@ =~= rows@.subrange(0, i + 1));
                    }
                    i += 1;
                }
                proof {
                    assert(copy@ =~= rows@);
                }
                ClientMessage::LinesDestroyed(copy)
            },
            ClientMessage::BoardUpdate(board) => ClientMessage::BoardUpdate(board.clone()),
            ClientMessage::GameOver => ClientMessage::GameOver,
        }
    }
}

/// A message the relay sends to a connected client.
#[derive(Debug, PartialEq, Eq)]
pub enum ServerMessage {
    /// A client message forwarded to other connections, tagged with the
    /// identity it originated from.
    Broadcast { user_id: u128, msg: ClientMessage },
    /// Reserved; the relay never produces it.
    LeaderBoardUpdate(),
}

/// The mathematical value of a [`ServerMessage`].
pub enum ServerMessageView {
    Broadcast { user_id: u128, msg: ClientMessageView },
    LeaderBoardUpdate,
}

impl View for ServerMessage {
    type V = ServerMessageView;

    open spec fn view(&self) -> ServerMessageView {
        match self {
            ServerMessage::Broadcast { user_id, msg } => ServerMessageView::Broadcast {
                user_id: *user_id,
                msg: msg@,
            },
            ServerMessage::LeaderBoardUpdate() => ServerMessageView::LeaderBoardUpdate,
        }
    }
}

} // verus!
