use tetris_relay::board::Board;
use tetris_relay::game::{game_tick, TickOutcome};
use tetris_relay::messages::ClientMessage;
use tetris_relay::piece::PieceId;
use tetris_relay::position::Position;
use tetris_relay::reactor::{
    on_control_signal, on_socket_event, GateDecision, ReactorCommand, ReactorControlSignal,
    SocketCommand, SocketEvent, StartGate, START_POLL_LIMIT,
};
use tetris_relay::scene::{scenes_for_route, Route, Scene};

#[test]
fn routes_map_to_scenes() {
    let (scenes, idx) = scenes_for_route(Route::Default);
    assert_eq!(scenes, vec![Scene::Home]);
    assert_eq!(idx, 0);
    let (scenes, idx) = scenes_for_route(Route::Home);
    assert_eq!(scenes, vec![Scene::Home]);
    assert_eq!(idx, 0);
    let (scenes, idx) = scenes_for_route(Route::NotFound);
    assert_eq!(scenes, vec![Scene::NotFound]);
    assert_eq!(idx, 0);
}

#[test]
fn scenes_have_labels() {
    assert_eq!(Scene::Home.text(), "Home");
    assert_eq!(Scene::NotFound.text(), "Not found");
}

#[test]
fn start_gate_waits_then_gives_up() {
    let mut gate = StartGate::new();
    for _ in 0..START_POLL_LIMIT {
        assert_eq!(gate.on_poll(&None), GateDecision::WaitMore);
    }
    assert_eq!(gate.on_poll(&Some(ReactorControlSignal::Stop)), GateDecision::Abort);
}

#[test]
fn start_gate_opens_on_start() {
    let mut gate = StartGate::new();
    assert_eq!(gate.on_poll(&None), GateDecision::WaitMore);
    assert_eq!(gate.on_poll(&Some(ReactorControlSignal::Start)), GateDecision::Started);
    assert_eq!(gate.polls, 1);
}

#[test]
fn running_reactor_dispatches_control_signals() {
    assert_eq!(on_control_signal(Some(ReactorControlSignal::Start)), ReactorCommand::Ignore);
    assert_eq!(on_control_signal(Some(ReactorControlSignal::Stop)), ReactorCommand::CloseAndExit);
    assert_eq!(
        on_control_signal(Some(ReactorControlSignal::WsMessage(ClientMessage::GameOver))),
        ReactorCommand::SendToServer(ClientMessage::GameOver)
    );
    assert_eq!(on_control_signal(None), ReactorCommand::Ignore);
}

#[test]
fn running_reactor_dispatches_socket_events() {
    assert_eq!(
        on_socket_event(SocketEvent::Message("hi".to_string())),
        SocketCommand::ForwardToGame("hi".to_string())
    );
    assert_eq!(on_socket_event(SocketEvent::Failed), SocketCommand::ExitLoop);
    assert_eq!(on_socket_event(SocketEvent::Nothing), SocketCommand::Ignore);
}

#[test]
fn game_tick_advances_until_the_floor() {
    let mut board = Board::default();
    // The square at the top of a column falls one row.
    match game_tick(&mut board, PieceId::O, Position(4, 0)) {
        TickOutcome::Advanced(p) => assert_eq!((p.x(), p.y()), (4, 1)),
        other => panic!("unexpected outcome: {:?}", other),
    }
    // At the floor (the square occupies rows y and y+1) it is placed.
    match game_tick(&mut board, PieceId::O, Position(4, 18)) {
        TickOutcome::Placed { update } => match update {
            ClientMessage::BoardUpdate(b) => {
                let mut filled = 0;
                let mut it = b.iter();
                while let Some((cell, _)) = it.next() {
                    if cell.is_some() {
                        filled += 1;
                    }
                }
                assert_eq!(filled, 4);
            }
            other => panic!("unexpected update: {:?}", other),
        },
        other => panic!("unexpected outcome: {:?}", other),
    }
    // The same spot is taken now: the piece can neither fall nor be placed.
    match game_tick(&mut board, PieceId::O, Position(4, 18)) {
        TickOutcome::Stuck => {}
        other => panic!("unexpected outcome: {:?}", other),
    }
}
