use vstd::prelude::*;
use crate::messages::ClientMessage;

verus! {

/// What the game loop tells its websocket worker.
#[derive(Debug, PartialEq, Eq)]
pub enum ReactorControlSignal {
    /// Open the socket and start relaying.
    Start,
    /// Close the socket and stop.
    Stop,
    /// Forward this message to the relay.
    WsMessage(ClientMessage),
}

/// How many control polls the worker waits for its start signal before it
/// gives up.
pub const START_POLL_LIMIT: u32 = 10;

/// The wait for the start signal at the beginning of the worker's life.
#[derive(Debug, Copy, Clone, PartialEq, Eq, Structural)]
pub struct StartGate {
    pub polls: u32,
}

/// What the worker does after one poll for its start signal.
#[derive(Debug, Copy, Clone, PartialEq, Eq, Structural)]
pub enum GateDecision {
    /// The start signal arrived: open the socket.
    Started,
    /// Nothing useful arrived: wait briefly and poll again.
    WaitMore,
    /// The limit is spent without a start signal: the worker exits.
    Abort,
}

impl StartGate {
    pub fn new() -> (r: Self)
        ensures
            r.polls == 0,
    {
        StartGate { polls: 0 }
    }

    /// Account one poll of the control channel while waiting to start.
    pub fn on_poll(&mut self, signal: &Option<ReactorControlSignal>) -> (r: GateDecision)
        requires
            old(self).polls <= START_POLL_LIMIT,
        ensures
            *signal matches Some(ReactorControlSignal::Start) ==> r == GateDecision::Started
                && final(self).polls == old(self).polls,
            !(*signal matches Some(ReactorControlSignal::Start)) ==> final(self).polls == old(
                self,
            ).polls + 1 && r == (if final(self).polls > START_POLL_LIMIT {
                GateDecision::Abort
            } else {
                GateDecision::WaitMore
            }),
    {
        match signal {
            Some(ReactorControlSignal::Start) => GateDecision::Started,
            _ => {
                self.polls += 1;
                if self.polls > START_POLL_LIMIT {
                    GateDecision::Abort
                } else {
                    GateDecision::WaitMore
                }
            },
        }
    }
}

/// What the worker does with one control signal while its socket is open.
#[derive(Debug, PartialEq, Eq)]
pub enum ReactorCommand {
    /// Nothing to do; keep the loop running.
    Ignore,
    /// Close the socket and leave the loop.
    CloseAndExit,
    /// Encode this message and send it to the relay.
    SendToServer(ClientMessage),
}

/// The running worker's reaction to one control signal: a second start is
/// ignored, a stop closes the socket, a game message goes to the relay, and
/// an empty poll is waited out.
pub fn on_control_signal(signal: Option<ReactorControlSignal>) -> (r: ReactorCommand)
    ensures
        match signal {
            Some(ReactorControlSignal::Start) => r == ReactorCommand::Ignore,
            Some(ReactorControlSignal::Stop) => r == ReactorCommand::CloseAndExit,
            Some(ReactorControlSignal::WsMessage(m)) => r == ReactorCommand::SendToServer(m),
            None => r == ReactorCommand::Ignore,
        },
{
    match signal {
        Some(ReactorControlSignal::Start) => ReactorCommand::Ignore,
        Some(ReactorControlSignal::Stop) => ReactorCommand::CloseAndExit,
        Some(ReactorControlSignal::WsMessage(m)) => ReactorCommand::SendToServer(m),
        None => ReactorCommand::Ignore,
    }
}

/// One observation on the worker's open socket.
#[derive(Debug, PartialEq, Eq)]
pub enum SocketEvent {
    /// A frame arrived with this text.
    Message(String),
    /// Reading the socket failed.
    Failed,
    /// Nothing arrived this turn.
    Nothing,
}

/// What the worker does after one socket observation.
#[derive(Debug, PartialEq, Eq)]
pub enum SocketCommand {
    /// Hand the frame's text to the game.
    ForwardToGame(String),
    /// Leave the loop; the socket is broken.
    ExitLoop,
    /// Keep waiting.
    Ignore,
}

/// The running worker's reaction to one socket observation: frames go to the
/// game, an error ends the loop, silence is waited out.
pub fn on_socket_event(event: SocketEvent) -> (r: SocketCommand)
    ensures
        match event {
            SocketEvent::Message(text) => r == SocketCommand::ForwardToGame(text),
            SocketEvent::Failed => r == SocketCommand::ExitLoop,
            SocketEvent::Nothing => r == SocketCommand::Ignore,
        },
{
    match event {
        SocketEvent::Message(text) => SocketCommand::ForwardToGame(text),
        SocketEvent::Failed => SocketCommand::ExitLoop,
        SocketEvent::Nothing => SocketCommand::Ignore,
    }
}

} // verus!
