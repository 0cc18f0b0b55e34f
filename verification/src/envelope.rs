use vstd::prelude::*;

verus! {

/// One message envelope as delivered through a mailbox: it wraps a single
/// text payload and is immutable once constructed.
pub struct ActorContext {
    message: String,
}

impl View for ActorContext {
    type V = Seq<char>;

    closed spec fn view(&self) -> Seq<char> {
        self.message@
    }
}

impl ActorContext {
    /// Wraps one payload in an envelope.
    pub fn new(message: String) -> (r: ActorContext)
        ensures
            r@ == message@,
    {
        ActorContext { message }
    }

    /// The payload carried by this envelope.
    pub fn message(&self) -> (r: &String)
        ensures
            r@ == self@,
    {
        &self.message
    }
}

} // verus!
