use tetris_relay::messages::{ClientMessage, ServerMessage};
use tetris_relay::registry::{contains_id, generate_unique, Registry};
use tetris_relay::retry::{registration_outcome, RegistrationRetry, RetryDecision, MAX_RETRIES};
use tetris_relay::rng::{new_source, pick_index, read_u128};
use tetris_relay::router::{admin_broadcast, eligible_peers, frame_outbound, route};
use tetris_relay::session::{activate, session_step, SessionAction, SessionEvent, SessionState};

#[test]
fn registry_grows_by_one_distinct_id_per_registration() {
    let mut source = new_source(7);
    let mut reg: Registry<String> = Registry::new();
    let mut ids = Vec::new();
    for k in 0..8u32 {
        let id = reg.register(&mut source, format!("sink-{}", k));
        ids.push(id);
    }
    let keys = reg.snapshot_keys();
    assert_eq!(keys.len(), 8);
    for a in 0..ids.len() {
        assert!(reg.contains(ids[a]));
        for b in 0..a {
            assert_ne!(ids[a], ids[b]);
        }
    }
}

#[test]
fn remove_frees_the_id_and_is_idempotent() {
    let mut source = new_source(9);
    let mut reg: Registry<u32> = Registry::new();
    let a = reg.register(&mut source, 1);
    let b = reg.register(&mut source, 2);
    reg.remove(a);
    assert!(!reg.contains(a));
    assert!(reg.contains(b));
    reg.remove(a); // absent: a no-op, not an error
    assert!(!reg.contains(a));
    assert_eq!(reg.snapshot_keys(), vec![b]);
    assert!(reg.get_sink(a).is_none());
    assert_eq!(reg.get_sink(b), Some(&2));
}

#[test]
fn generate_unique_avoids_every_live_id() {
    let mut source = new_source(1);
    // Adversarial live set: every small value, in case the sweep is used.
    let existing: Vec<u128> = (0..64u128).collect();
    for _ in 0..16 {
        let id = generate_unique(&existing, &mut source);
        assert!(!existing.contains(&id));
        assert!(!contains_id(&existing, id));
    }
}

#[test]
fn pick_index_stays_below_bound() {
    let mut source = new_source(11);
    for n in 1..20usize {
        for _ in 0..8 {
            assert!(pick_index(&mut source, n) < n);
        }
    }
    let _wide = read_u128(&mut source);
}

#[test]
fn broadcast_reaches_everyone_but_the_sender() {
    let mut source = new_source(3);
    let keys = vec![10u128, 20, 30, 40];
    let deliveries = route(20, &ClientMessage::GameOver, &keys, &mut source);
    let targets: Vec<u128> = deliveries.iter().map(|d| d.0).collect();
    assert_eq!(targets, vec![10, 30, 40]);
    for (target, message) in deliveries {
        assert_ne!(target, 20);
        match message {
            ServerMessage::Broadcast { user_id, msg } => {
                assert_eq!(user_id, 20);
                assert_eq!(msg, ClientMessage::GameOver);
            }
            other => panic!("unexpected message: {:?}", other),
        }
    }
}

#[test]
fn board_update_is_broadcast_with_origin() {
    let mut source = new_source(4);
    let board = tetris_relay::board::Board::default();
    let keys = vec![1u128, 2];
    let deliveries = route(1, &ClientMessage::BoardUpdate(board.clone()), &keys, &mut source);
    assert_eq!(deliveries.len(), 1);
    assert_eq!(deliveries[0].0, 2);
    match &deliveries[0].1 {
        ServerMessage::Broadcast { user_id, msg } => {
            assert_eq!(*user_id, 1);
            assert_eq!(*msg, ClientMessage::BoardUpdate(board));
        }
        other => panic!("unexpected message: {:?}", other),
    }
}

#[test]
fn lines_destroyed_not_echoed_carto_sender() {
    // One registered connection: the message is dropped, nothing is sent,
    // and in particular nothing comes back to the sender.
    let mut source = new_source(5);
    let keys = vec![77u128];
    let deliveries = route(77, &ClientMessage::LinesDestroyed(vec![0b101010]), &keys, &mut source);
    assert!(deliveries.is_empty(), "Sender should not receive LinesDestroyed message");
}

#[test]
fn lines_destroyed_not_echoed_to_sender() {
    let mut source = new_source(6);
    let keys = vec![1u128, 2];
    let deliveries = route(1, &ClientMessage::LinesDestroyed(vec![0b101010]), &keys, &mut source);
    for (target, _) in &deliveries {
        assert_ne!(*target, 1, "Sender should not receive LinesDestroyed message");
    }
    assert_eq!(deliveries.len(), 1);
}

#[test]
fn websocket_lines_destroyed_broadcasted_to_other_client() {
    let mut source = new_source(8);
    let keys = vec![100u128, 200];
    let deliveries = route(100, &ClientMessage::LinesDestroyed(vec![0b10000]), &keys, &mut source);
    assert_eq!(deliveries.len(), 1, "Other client should receive LinesDestroyed message");
    assert_eq!(deliveries[0].0, 200);
}

#[test]
fn websocket2_lines_destroyed_broadcasted_to_other_client() {
    let mut source = new_source(12);
    let keys = vec![5u128, 6];
    let deliveries = route(6, &ClientMessage::LinesDestroyed(vec![0b10000]), &keys, &mut source);
    assert_eq!(deliveries.len(), 1, "Other client should receive LinesDestroyed message");
    assert_eq!(deliveries[0].0, 5);
}

#[test]
fn lines_destroyed_goes_to_exactly_one_of_the_others() {
    // Three registered connections; the sender hits exactly one peer.
    let mut source = new_source(13);
    let keys = vec![1u128, 2, 3];
    for _ in 0..32 {
        let deliveries =
            route(1, &ClientMessage::LinesDestroyed(vec![0b101010]), &keys, &mut source);
        assert_eq!(deliveries.len(), 1);
        let (target, message) = &deliveries[0];
        assert!(*target == 2 || *target == 3);
        match message {
            ServerMessage::Broadcast { user_id, msg } => {
                assert_eq!(*user_id, 1);
                assert_eq!(*msg, ClientMessage::LinesDestroyed(vec![42]));
            }
            other => panic!("unexpected message: {:?}", other),
        }
    }
}

#[test]
fn eligible_peers_excludes_only_the_sender() {
    let keys = vec![1u128, 2, 3, 4];
    assert_eq!(eligible_peers(&keys, 3), vec![1, 2, 4]);
    assert_eq!(eligible_peers(&keys, 9), vec![1, 2, 3, 4]);
    assert_eq!(eligible_peers(&vec![5u128], 5), Vec::<u128>::new());
}

#[test]
fn closed_connection_gets_no_further_deliveries() {
    let mut source = new_source(14);
    let mut reg: Registry<u32> = Registry::new();
    let a = reg.register(&mut source, 1);
    let b = reg.register(&mut source, 2);
    let c = reg.register(&mut source, 3);
    reg.remove(a);
    let keys = reg.snapshot_keys();
    assert!(!keys.contains(&a));
    for _ in 0..16 {
        let deliveries = route(b, &ClientMessage::GameOver, &keys, &mut source);
        for (target, _) in &deliveries {
            assert_ne!(*target, a);
        }
        assert_eq!(deliveries.len(), 1);
        assert_eq!(deliveries[0].0, c);
    }
}

#[test]
fn admin_broadcast_reaches_every_connection_verbatim() {
    let keys = vec![1u128, 2, 3];
    let out = admin_broadcast(&keys, "lol");
    assert_eq!(out.len(), 3);
    for (i, (target, content)) in out.iter().enumerate() {
        assert_eq!(*target, keys[i]);
        assert_eq!(content, "lol");
    }
    assert_eq!(frame_outbound("lol"), "Broadcast: lol");
}

#[test]
fn registration_succeeds_once_contention_clears() {
    // Busy twice, then free: admitted at the third attempt.
    assert_eq!(registration_outcome(&vec![true, true, false, true, true]), Some(2));
    // Free at once.
    assert_eq!(registration_outcome(&vec![false, false, false, false, false]), Some(0));
    // Never clears: fails after the fifth attempt.
    assert_eq!(registration_outcome(&vec![true, true, true, true, true]), None);
    // Clearing after the budget does not help.
    assert_eq!(registration_outcome(&vec![true, true, true, true, true, false]), None);
}

#[test]
fn retry_counter_gives_up_after_the_budget() {
    let mut retry = RegistrationRetry::new();
    for attempt in 1..MAX_RETRIES {
        assert_eq!(retry.on_busy(), RetryDecision::RetryAfterMs(200));
        assert_eq!(retry.tries, attempt);
    }
    assert_eq!(retry.on_busy(), RetryDecision::GiveUp);
    assert_eq!(retry.tries, MAX_RETRIES);
}

#[test]
fn session_walks_its_states() {
    let mut source = new_source(15);
    let keys = vec![1u128, 2];
    let (state, acts) = session_step(
        SessionState::Connecting,
        SessionEvent::RegistrationSucceeded { id: 1 },
        &keys,
        &mut source,
    );
    assert_eq!(state, SessionState::Registered { id: 1 });
    assert!(acts.is_empty());
    let state = activate(state);
    assert_eq!(state, SessionState::Active { id: 1 });
    let (state, acts) = session_step(state, SessionEvent::CloseFrame, &keys, &mut source);
    assert_eq!(state, SessionState::Closing { id: 1 });
    assert!(matches!(acts[0], SessionAction::CloseSink));
    assert!(matches!(acts[1], SessionAction::Remove { id: 1 }));
    let (state, acts) = session_step(state, SessionEvent::TeardownComplete, &keys, &mut source);
    assert_eq!(state, SessionState::Removed);
    assert!(acts.is_empty());
}

#[test]
fn rejected_registration_enters_no_further_state() {
    let mut source = new_source(16);
    let keys = Vec::new();
    let (state, acts) =
        session_step(SessionState::Connecting, SessionEvent::RegistrationFailed, &keys, &mut source);
    assert_eq!(state, SessionState::Connecting);
    assert_eq!(acts.len(), 1);
    assert!(matches!(acts[0], SessionAction::Reject));
}

#[test]
fn malformed_text_is_discarded_without_any_output() {
    let mut source = new_source(17);
    let keys = vec![1u128, 2, 3];
    let parsed = tetris_relay::codec::parse_client("this is not a frame");
    assert!(parsed.is_none());
    let (state, acts) = session_step(
        SessionState::Active { id: 1 },
        SessionEvent::TextFrame { parsed },
        &keys,
        &mut source,
    );
    assert_eq!(state, SessionState::Active { id: 1 });
    assert!(acts.is_empty(), "malformed input must not produce outbound messages");
}

#[test]
fn parsed_text_is_dispatched_while_active() {
    let mut source = new_source(18);
    let keys = vec![1u128, 2, 3];
    let parsed = tetris_relay::codec::parse_client("\"GameOver\"");
    assert!(parsed.is_some());
    let (state, acts) = session_step(
        SessionState::Active { id: 1 },
        SessionEvent::TextFrame { parsed },
        &keys,
        &mut source,
    );
    assert_eq!(state, SessionState::Active { id: 1 });
    assert_eq!(acts.len(), 2);
    for act in &acts {
        match act {
            SessionAction::Deliver { target, message } => {
                assert_ne!(*target, 1);
                match message {
                    ServerMessage::Broadcast { user_id, msg } => {
                        assert_eq!(*user_id, 1);
                        assert_eq!(*msg, ClientMessage::GameOver);
                    }
                    other => panic!("unexpected message: {:?}", other),
                }
            }
            other => panic!("unexpected action: {:?}", other),
        }
    }
}

#[test]
fn read_error_starts_teardown() {
    let mut source = new_source(19);
    let keys = vec![1u128];
    let (state, acts) =
        session_step(SessionState::Active { id: 1 }, SessionEvent::ReadError, &keys, &mut source);
    assert_eq!(state, SessionState::Closing { id: 1 });
    assert_eq!(acts.len(), 2);
    assert!(matches!(acts[0], SessionAction::CloseSink));
    assert!(matches!(acts[1], SessionAction::Remove { id: 1 }));
}
