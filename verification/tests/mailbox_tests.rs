use actor_engine::envelope::ActorContext;
use actor_engine::mailbox::{DequeueOutcome, EnqueueError, Mailbox};

#[test]
fn envelope_carries_its_payload() {
    let ctx = ActorContext::new("payload".to_string());
    assert_eq!(ctx.message().as_str(), "payload");
}

#[test]
fn dequeue_order_equals_enqueue_order() {
    let mut mailbox = Mailbox::create(3);
    assert_eq!(mailbox.capacity(), 3);
    assert_eq!(mailbox.len(), 0);
    for p in ["first", "second", "third"] {
        assert_eq!(mailbox.enqueue(ActorContext::new(p.to_string())), Ok(()));
    }
    assert_eq!(mailbox.len(), 3);
    for p in ["first", "second", "third"] {
        match mailbox.dequeue() {
            DequeueOutcome::Envelope(env) => assert_eq!(env.message().as_str(), p),
            other => panic!("expected an envelope, got {:?}", discriminant_name(&other)),
        }
    }
    assert!(matches!(mailbox.dequeue(), DequeueOutcome::Empty));
}

fn discriminant_name(outcome: &DequeueOutcome) -> &'static str {
    match outcome {
        DequeueOutcome::Envelope(_) => "Envelope",
        DequeueOutcome::Empty => "Empty",
        DequeueOutcome::EndOfStream => "EndOfStream",
    }
}

#[test]
fn enqueue_beyond_capacity_is_refused() {
    let mut mailbox = Mailbox::create(1);
    assert_eq!(mailbox.enqueue(ActorContext::new("kept".to_string())), Ok(()));
    assert_eq!(
        mailbox.enqueue(ActorContext::new("extra".to_string())),
        Err(EnqueueError::MailboxFull)
    );
    assert_eq!(mailbox.len(), 1);
}

#[test]
fn closed_mailbox_refuses_enqueues_and_drains_to_end_of_stream() {
    let mut mailbox = Mailbox::create(2);
    assert_eq!(mailbox.enqueue(ActorContext::new("early".to_string())), Ok(()));
    assert!(!mailbox.is_closed());
    mailbox.close();
    assert!(mailbox.is_closed());
    assert_eq!(
        mailbox.enqueue(ActorContext::new("late".to_string())),
        Err(EnqueueError::MailboxClosed)
    );
    match mailbox.dequeue() {
        DequeueOutcome::Envelope(env) => assert_eq!(env.message().as_str(), "early"),
        other => panic!("expected an envelope, got {}", discriminant_name(&other)),
    }
    assert!(matches!(mailbox.dequeue(), DequeueOutcome::EndOfStream));
    assert!(matches!(mailbox.dequeue(), DequeueOutcome::EndOfStream));
}
