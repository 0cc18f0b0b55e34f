use actor_engine::engine::{ActorEngine, DeliverOutcome, LoopState, SendError};
use actor_engine::envelope::ActorContext;
use actor_engine::handler::{Handler, HandlerFailure, RecordingHandler};
use actor_engine::identity::Identity;

fn recorded_of(engine: &ActorEngine<RecordingHandler>, id: &Identity) -> Vec<String> {
    engine.handler(id).expect("actor must be registered").recorded().clone()
}

#[test]
fn spawned_identities_are_pairwise_distinct() {
    let mut engine: ActorEngine<RecordingHandler> = ActorEngine::new();
    let mut ids = Vec::new();
    for _ in 0..8 {
        ids.push(engine.spawn(RecordingHandler::new()));
    }
    for i in 0..ids.len() {
        for j in 0..ids.len() {
            if i != j {
                assert_ne!(ids[i], ids[j]);
                assert_ne!(ids[i].bits(), ids[j].bits());
            }
        }
    }
}

#[test]
fn fifo_order_is_kept_per_actor() {
    let mut engine: ActorEngine<RecordingHandler> = ActorEngine::new();
    let id = engine.spawn(RecordingHandler::new());
    let payloads = ["m1", "m2", "m3", "m4", "m5"];
    for p in payloads {
        assert_eq!(engine.send(&id, p.to_string()), Ok(()));
    }
    let (state, failures) = engine.run_until_idle(&id).expect("actor is registered");
    assert_eq!(state, LoopState::Running);
    assert!(failures.is_empty());
    let recorded = recorded_of(&engine, &id);
    assert_eq!(recorded, payloads.map(String::from).to_vec());
}

#[test]
fn actors_are_isolated_from_each_other() {
    let mut engine: ActorEngine<RecordingHandler> = ActorEngine::new();
    let a = engine.spawn(RecordingHandler::new());
    let b = engine.spawn(RecordingHandler::new());
    assert_eq!(engine.send(&a, "a1".to_string()), Ok(()));
    assert_eq!(engine.send(&b, "b1".to_string()), Ok(()));
    assert_eq!(engine.send(&a, "a2".to_string()), Ok(()));
    engine.run_until_idle(&a).expect("a is registered");
    engine.run_until_idle(&b).expect("b is registered");
    assert_eq!(recorded_of(&engine, &a), vec!["a1".to_string(), "a2".to_string()]);
    assert_eq!(recorded_of(&engine, &b), vec!["b1".to_string()]);
}

#[test]
fn full_mailbox_refuses_then_accepts_after_one_delivery() {
    let capacity = 2;
    let mut engine: ActorEngine<RecordingHandler> = ActorEngine::with_capacity(capacity);
    let id = engine.spawn(RecordingHandler::new());
    for i in 0..capacity {
        assert_eq!(engine.send(&id, format!("m{i}")), Ok(()));
    }
    // The (C+1)-th send is refused while nothing was consumed yet.
    assert_eq!(engine.send(&id, "overflow".to_string()), Err(SendError::MailboxFull));
    assert_eq!(engine.pending_len(&id), Some(capacity));
    // One delivery step frees one slot; the retried send completes at once.
    assert!(matches!(engine.deliver_next(&id), Ok(DeliverOutcome::Delivered)));
    assert_eq!(engine.send(&id, "retried".to_string()), Ok(()));
    let (state, failures) = engine.run_until_idle(&id).expect("actor is registered");
    assert_eq!(state, LoopState::Running);
    assert!(failures.is_empty());
    assert_eq!(
        recorded_of(&engine, &id),
        vec!["m0".to_string(), "m1".to_string(), "retried".to_string()]
    );
}

#[test]
fn send_to_unknown_identity_fails_and_changes_nothing() {
    let mut engine: ActorEngine<RecordingHandler> = ActorEngine::new();
    let known = engine.spawn(RecordingHandler::new());
    assert_eq!(engine.send(&known, "kept".to_string()), Ok(()));
    let mut unknown = Identity::from_bits(12345);
    if unknown == known {
        unknown = Identity::from_bits(54321);
    }
    assert!(!engine.contains(&unknown));
    assert_eq!(
        engine.send(&unknown, "lost".to_string()),
        Err(SendError::RecipientNotFound)
    );
    // Registry and mailbox state are unaltered by the failed send.
    assert!(engine.contains(&known));
    assert_eq!(engine.pending_len(&known), Some(1));
    assert_eq!(engine.pending_len(&unknown), None);
    engine.run_until_idle(&known).expect("known actor is registered");
    assert_eq!(recorded_of(&engine, &known), vec!["kept".to_string()]);
}

#[test]
fn end_to_end_hello() {
    let mut engine: ActorEngine<RecordingHandler> = ActorEngine::new();
    let id = engine.spawn(RecordingHandler::new());
    engine.send(&id, "hello there!".to_string()).expect("send must be accepted");
    engine.run_until_idle(&id).expect("actor is registered");
    assert_eq!(recorded_of(&engine, &id), vec!["hello there!".to_string()]);
}

#[test]
fn send_after_shutdown_fails_with_mailbox_closed() {
    let mut engine: ActorEngine<RecordingHandler> = ActorEngine::new();
    let id = engine.spawn(RecordingHandler::new());
    assert_eq!(engine.send(&id, "before".to_string()), Ok(()));
    engine.shutdown(&id).expect("actor is registered");
    assert_eq!(engine.send(&id, "after".to_string()), Err(SendError::MailboxClosed));
    // The envelope accepted before the shutdown is still delivered.
    let (state, failures) = engine.run_until_idle(&id).expect("actor is registered");
    assert_eq!(state, LoopState::Terminated);
    assert!(failures.is_empty());
    assert_eq!(recorded_of(&engine, &id), vec!["before".to_string()]);
    assert!(matches!(engine.deliver_next(&id), Ok(DeliverOutcome::Terminated)));
}

#[test]
fn deliver_on_empty_open_mailbox_is_idle() {
    let mut engine: ActorEngine<RecordingHandler> = ActorEngine::new();
    let id = engine.spawn(RecordingHandler::new());
    assert!(matches!(engine.deliver_next(&id), Ok(DeliverOutcome::Idle)));
    assert!(matches!(
        engine.deliver_next(&Identity::from_bits(7)),
        Err(SendError::RecipientNotFound)
    ));
}

#[test]
fn default_and_explicit_capacity() {
    let engine: ActorEngine<RecordingHandler> = ActorEngine::new();
    assert_eq!(engine.capacity(), 200);
    let small: ActorEngine<RecordingHandler> = ActorEngine::with_capacity(1);
    assert_eq!(small.capacity(), 1);
}

struct FailingHandler {
    seen: usize,
}

impl Handler for FailingHandler {
    fn handle(&mut self, _ctx: &ActorContext) -> Result<(), HandlerFailure> {
        self.seen += 1;
        Err(HandlerFailure::new("refused the payload".to_string()))
    }
}

#[test]
fn handler_failures_are_reported_and_do_not_stop_the_loop() {
    let mut engine: ActorEngine<FailingHandler> = ActorEngine::new();
    let id = engine.spawn(FailingHandler { seen: 0 });
    assert_eq!(engine.send(&id, "one".to_string()), Ok(()));
    assert_eq!(engine.send(&id, "two".to_string()), Ok(()));
    let (state, failures) = engine.run_until_idle(&id).expect("actor is registered");
    assert_eq!(state, LoopState::Running);
    assert_eq!(failures.len(), 2);
    assert_eq!(failures[0].cause().as_str(), "refused the payload");
    assert_eq!(engine.handler(&id).expect("registered").seen, 2);
    assert_eq!(engine.pending_len(&id), Some(0));
}
