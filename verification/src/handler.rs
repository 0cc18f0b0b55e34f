use vstd::prelude::*;
use vstd::assert_seqs_equal;
use crate::envelope::ActorContext;

verus! {

/// A handler's report that its reaction to one envelope failed. Delivery has
/// already succeeded at that point, so the failure never reaches the sender;
/// the actor loop surfaces it out of band and goes on with later envelopes.
#[derive(Debug)]
pub struct HandlerFailure {
    cause: String,
}

impl HandlerFailure {
    /// The description the handler gave for the failure.
    pub closed spec fn spec_cause(&self) -> Seq<char> {
        self.cause@
    }

    /// Describes one failed reaction.
    pub fn new(cause: String) -> (r: HandlerFailure)
        ensures
            r.spec_cause() == cause@,
    {
        HandlerFailure { cause }
    }

    /// The description the handler gave for the failure.
    pub fn cause(&self) -> (r: &String)
        ensures
            r@ == self.spec_cause(),
    {
        &self.cause
    }
}

/// The capability an actor owns: the reaction to one envelope at a time.
/// Exactly one handler instance belongs to each actor, and the actor loop
/// invokes it synchronously, never concurrently. `observed` is the sequence
/// of payloads the handler has reacted to so far, oldest first; every
/// reaction appends the delivered payload to it, whether the reaction itself
/// succeeds or reports a failure.
pub trait Handler: Sized {
    /// The payloads this handler has observed so far, oldest first. An
    /// implementation whose state reflects what it observed overrides this;
    /// the default stands for a handler that keeps no record. The engine's
    /// delivery guarantees are stated over this sequence.
    open spec fn observed(&self) -> Seq<Seq<char>> {
        Seq::<Seq<char>>::empty()
    }

    /// Reacts to one envelope. The envelope counts as observed even when the
    /// reaction reports a failure: delivery has already happened.
    fn handle(&mut self, ctx: &ActorContext) -> (r: Result<(), HandlerFailure>)
        ensures
            final(self).observed() == old(self).observed().push(ctx@),
    ;
}

/// A handler that records every payload it receives, in arrival order. It
/// makes the engine's delivery order directly observable.
pub struct RecordingHandler {
    received: Vec<String>,
}

impl RecordingHandler {
    /// A recorder that has observed nothing yet.
    pub fn new() -> (r: RecordingHandler)
        ensures
            r.observed() == Seq::<Seq<char>>::empty(),
    {
        let r = RecordingHandler { received: Vec::new() };
        proof {
            assert_seqs_equal!(r.observed(), Seq::<Seq<char>>::empty());
        }
        r
    }

    /// The payloads recorded so far, oldest first.
    pub fn recorded(&self) -> (r: &Vec<String>)
        ensures
            r@.len() == self.observed().len(),
            forall|i: int| 0 <= i < r@.len() ==> r@[i]@ == self.observed()[i],
    {
        &self.received
    }
}

impl Handler for RecordingHandler {
    closed spec fn observed(&self) -> Seq<Seq<char>> {
        self.received@.map_values(|s: String| s@)
    }

    fn handle(&mut self, ctx: &ActorContext) -> (r: Result<(), HandlerFailure>) {
        let ghost pre = self.received@;
        self.received.push(ctx.message().clone());
        proof {
            assert_seqs_equal!(
                self.received@.map_values(|s: String| s@),
                pre.map_values(|s: String| s@).push(ctx@)
            );
        }
        Ok(())
    }
}

} // verus!
