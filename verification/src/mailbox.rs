use vstd::prelude::*;
use vstd::assert_seqs_equal;
use crate::envelope::ActorContext;

verus! {

/// Why an enqueue was refused.
#[derive(Clone, Copy, PartialEq, Eq, Structural, Debug)]
pub enum EnqueueError {
    /// The buffer already holds `capacity` envelopes. The caller should wait
    /// until the consumer drains one and then try again (backpressure).
    MailboxFull,
    /// The mailbox has been permanently closed; no envelope will ever be
    /// accepted again.
    MailboxClosed,
}

/// What one dequeue produced.
pub enum DequeueOutcome {
    /// The oldest buffered envelope.
    Envelope(ActorContext),
    /// The buffer is empty but the mailbox is still open; the consumer should
    /// wait until a producer enqueues and then try again.
    Empty,
    /// The buffer is empty and the mailbox is closed for good: no envelope
    /// will ever arrive again.
    EndOfStream,
}

/// A bounded, ordered, single-consumer buffer of message envelopes: one
/// actor's inbox. Envelopes leave in exactly the order they entered, and the
/// buffer never holds more than the fixed capacity it was created with.
pub struct Mailbox {
    queue: Vec<ActorContext>,
    capacity: usize,
    closed: bool,
}

impl Mailbox {
    /// The payloads currently buffered, oldest first.
    pub closed spec fn contents(&self) -> Seq<Seq<char>> {
        self.queue@.map_values(|c: ActorContext| c@)
    }

    /// The fixed capacity this mailbox was created with.
    pub closed spec fn spec_capacity(&self) -> usize {
        self.capacity
    }

    /// Whether the mailbox has been permanently closed.
    pub closed spec fn spec_closed(&self) -> bool {
        self.closed
    }

    /// The buffer never exceeds its capacity, and the capacity is positive.
    pub open spec fn wf(&self) -> bool {
        &&& self.contents().len() <= self.spec_capacity()
        &&& self.spec_capacity() >= 1
    }

    /// Creates an empty, open mailbox of the given capacity.
    pub fn create(capacity: usize) -> (r: Mailbox)
        requires
            capacity >= 1,
        ensures
            r.wf(),
            r.contents() == Seq::<Seq<char>>::empty(),
            r.spec_capacity() == capacity,
            !r.spec_closed(),
    {
        let r = Mailbox { queue: Vec::new(), capacity, closed: false };
        proof {
            assert_seqs_equal!(r.contents(), Seq::<Seq<char>>::empty());
        }
        r
    }

    /// How many envelopes are buffered right now.
    pub fn len(&self) -> (r: usize)
        ensures
            r == self.contents().len(),
    {
        self.queue.len()
    }

    /// Whether the mailbox has been permanently closed.
    pub fn is_closed(&self) -> (r: bool)
        ensures
            r == self.spec_closed(),
    {
        self.closed
    }

    /// The fixed capacity this mailbox was created with.
    pub fn capacity(&self) -> (r: usize)
        ensures
            r == self.spec_capacity(),
    {
        self.capacity
    }

    /// Appends one envelope at the back of the buffer. The enqueue is
    /// accepted exactly when the mailbox is open and below capacity; a
    /// `MailboxFull` refusal means the caller should wait for the consumer
    /// and retry, a `MailboxClosed` refusal is permanent.
    pub fn enqueue(&mut self, envelope: ActorContext) -> (r: Result<(), EnqueueError>)
        requires
            old(self).wf(),
        ensures
            final(self).wf(),
            final(self).spec_capacity() == old(self).spec_capacity(),
            final(self).spec_closed() == old(self).spec_closed(),
            r is Ok <==> !old(self).spec_closed() && old(self).contents().len() < old(
                self,
            ).spec_capacity(),
            r is Ok ==> final(self).contents() == old(self).contents().push(envelope@),
            r is Err ==> *final(self) == *old(self),
            old(self).spec_closed() ==> r == Err::<(), EnqueueError>(EnqueueError::MailboxClosed),
            !old(self).spec_closed() && old(self).contents().len() == old(self).spec_capacity()
                ==> r == Err::<(), EnqueueError>(EnqueueError::MailboxFull),
    {
        if self.closed {
            Err(EnqueueError::MailboxClosed)
        } else if self.queue.len() >= self.capacity {
            Err(EnqueueError::MailboxFull)
        } else {
            let ghost pre = self.queue@;
            self.queue.push(envelope);
            proof {
                assert_seqs_equal!(
                    self.queue@.map_values(|c: ActorContext| c@),
                    pre.map_values(|c: ActorContext| c@).push(envelope@)
                );
            }
            Ok(())
        }
    }

    /// Removes and returns the oldest envelope. On an empty buffer the
    /// outcome tells the consumer whether to wait (`Empty`) or stop for good
    /// (`EndOfStream`). Dequeue order equals enqueue order: always the front.
    pub fn dequeue(&mut self) -> (r: DequeueOutcome)
        requires
            old(self).wf(),
        ensures
            final(self).wf(),
            final(self).spec_capacity() == old(self).spec_capacity(),
            final(self).spec_closed() == old(self).spec_closed(),
            old(self).contents().len() > 0 ==> (r matches DequeueOutcome::Envelope(env)
                && env@ == old(self).contents()[0] && final(self).contents() == old(
                self,
            ).contents().drop_first()),
            old(self).contents().len() == 0 && !old(self).spec_closed() ==> r is Empty,
            old(self).contents().len() == 0 && old(self).spec_closed() ==> r is EndOfStream,
            old(self).contents().len() == 0 ==> *final(self) == *old(self),
    {
        if self.queue.len() == 0 {
            if self.closed {
                DequeueOutcome::EndOfStream
            } else {
                DequeueOutcome::Empty
            }
        } else {
            let ghost pre = self.queue@;
            let env = self.queue.remove(0);
            proof {
                assert_seqs_equal!(
                    self.queue@.map_values(|c: ActorContext| c@),
                    pre.map_values(|c: ActorContext| c@).drop_first()
                );
            }
            DequeueOutcome::Envelope(env)
        }
    }

    /// Permanently closes the mailbox: this models the release of every
    /// producer handle. Buffered envelopes stay and can still be dequeued;
    /// once they are drained the consumer sees `EndOfStream`.
    pub fn close(&mut self)
        requires
            old(self).wf(),
        ensures
            final(self).wf(),
            final(self).spec_capacity() == old(self).spec_capacity(),
            final(self).contents() == old(self).contents(),
            final(self).spec_closed(),
    {
        self.closed = true;
    }
}

} // verus!
