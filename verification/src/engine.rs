use vstd::prelude::*;
use vstd::assert_seqs_equal;
use crate::envelope::ActorContext;
use crate::handler::{Handler, HandlerFailure};
use crate::identity::{generate, Identity};
use crate::mailbox::{DequeueOutcome, EnqueueError, Mailbox};

verus! {

/// The capacity every mailbox is created with when the engine is built
/// through `ActorEngine::new`.
pub const DEFAULT_MAILBOX_CAPACITY: usize = 200;

/// Why a send was refused.
#[derive(Clone, Copy, PartialEq, Eq, Structural, Debug)]
pub enum SendError {
    /// The identity was never registered by `spawn`.
    RecipientNotFound,
    /// The recipient's mailbox is at capacity. This is backpressure: the
    /// caller should let the recipient drain an envelope and then retry.
    MailboxFull,
    /// The recipient's mailbox has been permanently closed.
    MailboxClosed,
}

/// What one delivery step of an actor's receive loop did.
#[derive(Debug)]
pub enum DeliverOutcome {
    /// One envelope was dequeued and the handler reacted to it successfully.
    Delivered,
    /// One envelope was dequeued and the handler's reaction reported a
    /// failure. The failure stays isolated to this actor: the loop goes on
    /// with later envelopes, and the sender never sees it.
    HandlerFailed(HandlerFailure),
    /// The mailbox is empty but still open: the loop should wait for the
    /// next envelope.
    Idle,
    /// The mailbox is empty and closed for good: the loop is finished.
    Terminated,
}

/// The two states of an actor's receive loop.
#[derive(Clone, Copy, PartialEq, Eq, Structural, Debug)]
pub enum LoopState {
    /// The loop keeps receiving: more envelopes may still arrive.
    Running,
    /// The mailbox was drained and closed: the loop has ended for good.
    Terminated,
}

struct ActorSlot<H> {
    pid: Identity,
    mailbox: Mailbox,
    handler: H,
    /// What the handler had already observed when it was spawned.
    base: Ghost<Seq<Seq<char>>>,
    /// Every payload accepted by `send` for this actor, in acceptance order.
    accepted: Ghost<Seq<Seq<char>>>,
}

/// The registry at the heart of the runtime: it maps identities to mailboxes
/// and owns each actor's handler. `spawn` registers a new actor under a fresh
/// identity; `send` routes one payload to a registered actor's mailbox;
/// `deliver_next` and `run_until_idle` perform the actor's receive loop,
/// dequeuing envelopes in FIFO order and dispatching them to the handler.
pub struct ActorEngine<H> {
    actors: Vec<ActorSlot<H>>,
    capacity: usize,
}

impl<H: Handler> ActorEngine<H> {
    /// Whether `id` is registered: some actor was spawned under it.
    pub closed spec fn contains_id(&self, id: u128) -> bool {
        exists|i: int|
            0 <= i < self.actors@.len() && self.actors@[i].pid.spec_bits() == id
    }

    spec fn idx_of(&self, id: u128) -> int {
        choose|i: int|
            0 <= i < self.actors@.len() && self.actors@[i].pid.spec_bits() == id
    }

    spec fn slot_of(&self, id: u128) -> ActorSlot<H> {
        self.actors@[self.idx_of(id)]
    }

    /// The mailbox capacity every actor of this engine is created with.
    pub closed spec fn spec_capacity(&self) -> usize {
        self.capacity
    }

    /// The payloads buffered in `id`'s mailbox, oldest first: accepted by
    /// `send` but not yet dispatched to the handler.
    pub closed spec fn pending(&self, id: u128) -> Seq<Seq<char>> {
        self.slot_of(id).mailbox.contents()
    }

    /// Everything `id`'s handler has observed, including whatever it had
    /// observed before it was spawned.
    pub closed spec fn observed_of(&self, id: u128) -> Seq<Seq<char>> {
        self.slot_of(id).handler.observed()
    }

    /// The payloads `id`'s handler has observed since it was spawned, in
    /// observation order.
    pub closed spec fn received(&self, id: u128) -> Seq<Seq<char>> {
        self.slot_of(id).handler.observed().skip(self.slot_of(id).base@.len() as int)
    }

    /// Every payload `send` has accepted for `id`, in acceptance order.
    pub closed spec fn accepted(&self, id: u128) -> Seq<Seq<char>> {
        self.slot_of(id).accepted@
    }

    /// Whether `id`'s mailbox has been permanently closed.
    pub closed spec fn closed_of(&self, id: u128) -> bool {
        self.slot_of(id).mailbox.spec_closed()
    }

    /// The two engine values are observably the same: the same identities
    /// are registered, and every registered actor has the same pending,
    /// received, accepted and observed payloads and the same closed state.
    pub open spec fn same_state(pre: Self, post: Self) -> bool {
        &&& post.spec_capacity() == pre.spec_capacity()
        &&& forall|x: u128| #![auto] post.contains_id(x) == pre.contains_id(x)
        &&& forall|x: u128| #![auto]
            pre.contains_id(x) ==> {
                &&& post.pending(x) == pre.pending(x)
                &&& post.received(x) == pre.received(x)
                &&& post.accepted(x) == pre.accepted(x)
                &&& post.observed_of(x) == pre.observed_of(x)
                &&& post.closed_of(x) == pre.closed_of(x)
            }
    }

    /// Every registered actor other than `id` is observably untouched, and
    /// the set of registered identities is unchanged.
    pub open spec fn unchanged_except(pre: Self, post: Self, id: u128) -> bool {
        &&& post.spec_capacity() == pre.spec_capacity()
        &&& forall|x: u128| #![auto] post.contains_id(x) == pre.contains_id(x)
        &&& forall|x: u128| #![auto]
            x != id && pre.contains_id(x) ==> {
                &&& post.pending(x) == pre.pending(x)
                &&& post.received(x) == pre.received(x)
                &&& post.accepted(x) == pre.accepted(x)
                &&& post.observed_of(x) == pre.observed_of(x)
                &&& post.closed_of(x) == pre.closed_of(x)
            }
    }

    /// The condition under which a send to `id` is accepted: the identity is
    /// registered, its mailbox is open, and the mailbox is below capacity.
    pub open spec fn send_accepted(self, id: u128) -> bool {
        &&& self.contains_id(id)
        &&& !self.closed_of(id)
        &&& self.pending(id).len() < self.spec_capacity()
    }

    spec fn ids_unique(&self) -> bool {
        forall|i: int, j: int|
            0 <= i < j < self.actors@.len() ==> self.actors@[i].pid.spec_bits()
                != self.actors@[j].pid.spec_bits()
    }

    spec fn slot_wf(&self, i: int) -> bool {
        let s = self.actors@[i];
        &&& s.mailbox.wf()
        &&& s.mailbox.spec_capacity() == self.capacity
        &&& s.base@.len() <= s.handler.observed().len()
        &&& s.handler.observed().take(s.base@.len() as int) == s.base@
        &&& s.handler.observed().skip(s.base@.len() as int) + s.mailbox.contents() == s.accepted@
    }

    /// The engine's invariant: capacities agree and are positive, registered
    /// identities are pairwise distinct, and for every actor the payloads it
    /// has received followed by the payloads still pending equal exactly the
    /// payloads accepted for it, in order.
    pub closed spec fn wf(&self) -> bool {
        &&& self.capacity >= 1
        &&& self.ids_unique()
        &&& forall|i: int| 0 <= i < self.actors@.len() ==> self.slot_wf(i)
    }

    /// The registry is finite, so among the values `0 ..= actors.len()` at
    /// least one is unregistered: otherwise the registry would hold more
    /// distinct identities than it has slots.
    proof fn lemma_some_free_id(&self)
        requires
            self.ids_unique(),
        ensures
            exists|c: u128|
                c <= self.actors@.len() && !self.contains_id(c),
    {
        broadcast use vstd::seq_lib::seq_to_set_is_finite;
        broadcast use vstd::std_specs::vec::axiom_spec_len;

        assert(vstd::std_specs::vec::spec_vec_len(&self.actors) == self.actors@.len());
        let n = self.actors@.len() as int;
        assert(n <= usize::MAX);
        let ids_int = self.actors@.map_values(|s: ActorSlot<H>| s.pid.spec_bits() as int);
        assert(ids_int.no_duplicates()) by {
            assert forall|i: int, j: int|
                0 <= i < ids_int.len() && 0 <= j < ids_int.len() && i != j implies ids_int[i]
                != ids_int[j] by {
                if i < j {
                    assert(self.actors@[i].pid.spec_bits() != self.actors@[j].pid.spec_bits());
                } else {
                    assert(self.actors@[j].pid.spec_bits() != self.actors@[i].pid.spec_bits());
                }
            }
        }
        ids_int.unique_seq_to_set();
        if forall|c: u128| c <= self.actors@.len() ==> #[trigger] self.contains_id(c) {
            let range = vstd::set_lib::set_int_range(0, n + 1);
            vstd::set_lib::lemma_int_range(0, n + 1);
            assert forall|x: int| range.contains(x) implies ids_int.to_set().contains(x) by {
                assert(0 <= x <= n);
                let c = x as u128;
                assert(c == x);
                assert(self.contains_id(c));
                let w = choose|i: int|
                    0 <= i < self.actors@.len() && self.actors@[i].pid.spec_bits() == c;
                assert(ids_int[w] == x);
                assert(ids_int.contains(x));
            }
            vstd::set_lib::lemma_len_subset(range, ids_int.to_set());
            assert(n + 1 <= n);
        }
    }

    /// Registered identities are pairwise distinct, so a slot holding `id`
    /// is the one and only slot `idx_of` resolves `id` to.
    proof fn lemma_idx_is(&self, id: u128, i: int)
        requires
            self.ids_unique(),
            0 <= i < self.actors@.len(),
            self.actors@[i].pid.spec_bits() == id,
        ensures
            self.contains_id(id),
            self.idx_of(id) == i,
    {
        assert(self.contains_id(id));
        let j = self.idx_of(id);
        assert(0 <= j < self.actors@.len() && self.actors@[j].pid.spec_bits() == id);
        if i < j {
            assert(self.actors@[i].pid.spec_bits() != self.actors@[j].pid.spec_bits());
        } else if j < i {
            assert(self.actors@[j].pid.spec_bits() != self.actors@[i].pid.spec_bits());
        }
    }

    /// After an update that replaces slot `i` only, leaves its identity in
    /// place and keeps the slot well formed, the whole engine is well formed
    /// again, registration is unchanged, and every other actor is untouched.
    proof fn lemma_single_slot_update(pre: Self, post: Self, i: int)
        requires
            pre.wf(),
            0 <= i < pre.actors@.len(),
            post.actors@.len() == pre.actors@.len(),
            forall|j: int|
                0 <= j < pre.actors@.len() && j != i ==> post.actors@[j] == pre.actors@[j],
            post.actors@[i].pid == pre.actors@[i].pid,
            post.capacity == pre.capacity,
            post.slot_wf(i),
        ensures
            post.wf(),
            pre.idx_of(pre.actors@[i].pid.spec_bits()) == i,
            post.idx_of(pre.actors@[i].pid.spec_bits()) == i,
            Self::unchanged_except(pre, post, pre.actors@[i].pid.spec_bits()),
    {
        let bits = pre.actors@[i].pid.spec_bits();
        assert forall|a: int, b: int|
            0 <= a < b < post.actors@.len() implies post.actors@[a].pid.spec_bits()
            != post.actors@[b].pid.spec_bits() by {
            assert(post.actors@[a].pid == pre.actors@[a].pid);
            assert(post.actors@[b].pid == pre.actors@[b].pid);
            assert(pre.actors@[a].pid.spec_bits() != pre.actors@[b].pid.spec_bits());
        }
        assert(post.ids_unique());
        assert forall|j: int| 0 <= j < post.actors@.len() implies post.slot_wf(j) by {
            if j != i {
                assert(pre.slot_wf(j));
                assert(post.actors@[j] == pre.actors@[j]);
            }
        }
        pre.lemma_idx_is(bits, i);
        post.lemma_idx_is(bits, i);
        assert forall|x: u128| #![auto] post.contains_id(x) == pre.contains_id(x) by {
            if post.contains_id(x) {
                let w = post.idx_of(x);
                assert(0 <= w < post.actors@.len() && post.actors@[w].pid.spec_bits() == x);
                assert(pre.actors@[w].pid.spec_bits() == x);
                assert(pre.contains_id(x));
            }
            if pre.contains_id(x) {
                let w = pre.idx_of(x);
                assert(0 <= w < pre.actors@.len() && pre.actors@[w].pid.spec_bits() == x);
                assert(post.actors@[w].pid.spec_bits() == x);
                assert(post.contains_id(x));
            }
        }
        assert forall|x: u128| #![auto]
            x != bits && pre.contains_id(x) implies {
            &&& post.pending(x) == pre.pending(x)
            &&& post.received(x) == pre.received(x)
            &&& post.accepted(x) == pre.accepted(x)
            &&& post.observed_of(x) == pre.observed_of(x)
            &&& post.closed_of(x) == pre.closed_of(x)
        } by {
            let w = pre.idx_of(x);
            assert(0 <= w < pre.actors@.len() && pre.actors@[w].pid.spec_bits() == x);
            assert(w != i);
            pre.lemma_idx_is(x, w);
            post.lemma_idx_is(x, w);
            assert(post.actors@[w] == pre.actors@[w]);
        }
    }

    /// An engine with no actors, whose mailboxes will all have the given
    /// capacity.
    pub fn with_capacity(capacity: usize) -> (r: ActorEngine<H>)
        requires
            capacity >= 1,
        ensures
            r.wf(),
            r.spec_capacity() == capacity,
            forall|id: u128| !r.contains_id(id),
    {
        ActorEngine { actors: Vec::new(), capacity }
    }

    /// An engine with no actors and the default mailbox capacity.
    pub fn new() -> (r: ActorEngine<H>)
        ensures
            r.wf(),
            r.spec_capacity() == DEFAULT_MAILBOX_CAPACITY,
            forall|id: u128| !r.contains_id(id),
    {
        Self::with_capacity(DEFAULT_MAILBOX_CAPACITY)
    }

    fn find_index(&self, id: u128) -> (r: Option<usize>)
        requires
            self.ids_unique(),
        ensures
            match r {
                Some(i) => self.contains_id(id) && self.idx_of(id) == i && i < self.actors@.len(),
                None => !self.contains_id(id),
            },
    {
        let n = self.actors.len();
        let mut i: usize = 0;
        while i < n
            invariant
                n == self.actors@.len(),
                i <= n,
                self.ids_unique(),
                forall|j: int| 0 <= j < i ==> self.actors@[j].pid.spec_bits() != id,
            decreases n - i,
        {
            if self.actors[i].pid.bits() == id {
                proof {
                    self.lemma_idx_is(id, i as int);
                }
                return Some(i);
            }
            i += 1;
        }
        None
    }

    /// Registers a new actor: takes exclusive ownership of `handler`, creates
    /// an empty mailbox of the engine's capacity, draws a fresh identity that
    /// is distinct from every registered one, and returns it. Spawning never
    /// fails; it touches no other actor's state.
    pub fn spawn(&mut self, handler: H) -> (r: Identity)
        requires
            old(self).wf(),
        ensures
            final(self).wf(),
            final(self).spec_capacity() == old(self).spec_capacity(),
            !old(self).contains_id(r.spec_bits()),
            forall|id: u128| #![auto]
                final(self).contains_id(id) <==> (old(self).contains_id(id) || id
                    == r.spec_bits()),
            final(self).pending(r.spec_bits()) == Seq::<Seq<char>>::empty(),
            final(self).received(r.spec_bits()) == Seq::<Seq<char>>::empty(),
            final(self).accepted(r.spec_bits()) == Seq::<Seq<char>>::empty(),
            final(self).observed_of(r.spec_bits()) == handler.observed(),
            !final(self).closed_of(r.spec_bits()),
            final(self).send_accepted(r.spec_bits()),
            forall|id: u128| #![auto]
                old(self).contains_id(id) && id != r.spec_bits() ==> {
                    &&& final(self).pending(id) == old(self).pending(id)
                    &&& final(self).received(id) == old(self).received(id)
                    &&& final(self).accepted(id) == old(self).accepted(id)
                    &&& final(self).observed_of(id) == old(self).observed_of(id)
                    &&& final(self).closed_of(id) == old(self).closed_of(id)
                },
    {
        let mut id = generate();
        if self.contains(&id) {
            // The random draw collided with a registered identity, which a
            // 128-bit source makes astronomically unlikely. Fall back to the
            // smallest unregistered value, which exists because the registry
            // is finite.
            let n_slots = self.actors.len();
            let mut c: u128 = 0;
            loop
                invariant
                    self.wf(),
                    n_slots == self.actors@.len(),
                    c <= n_slots as u128,
                    forall|x: u128| x < c ==> self.contains_id(x),
                ensures
                    !self.contains_id(c),
                decreases n_slots as int + 1 - c as int,
            {
                if self.find_index(c).is_none() {
                    break;
                }
                proof {
                    if c == n_slots as u128 {
                        self.lemma_some_free_id();
                        let w = choose|x: u128|
                            x <= self.actors@.len() && !self.contains_id(x);
                        assert(w < c ==> self.contains_id(w));
                        assert(false);
                    }
                }
                c = c + 1;
            }
            id = Identity::from_bits(c);
        }
        let ghost pre = *self;
        let mailbox = Mailbox::create(self.capacity);
        let ghost base_seq = handler.observed();
        let slot = ActorSlot {
            pid: id,
            mailbox,
            handler,
            base: Ghost(base_seq),
            accepted: Ghost(Seq::<Seq<char>>::empty()),
        };
        self.actors.push(slot);
        proof {
            let n = pre.actors@.len() as int;
            let bits = id.spec_bits();
            assert(self.actors@ == pre.actors@.push(slot));
            assert forall|i: int, j: int|
                0 <= i < j < self.actors@.len() implies self.actors@[i].pid.spec_bits()
                != self.actors@[j].pid.spec_bits() by {
                if j < n {
                    assert(pre.ids_unique());
                } else {
                    assert(!pre.contains_id(bits));
                }
            }
            assert_seqs_equal!(base_seq.take(base_seq.len() as int), base_seq);
            assert_seqs_equal!(
                base_seq.skip(base_seq.len() as int) + mailbox.contents(),
                Seq::<Seq<char>>::empty()
            );
            assert forall|i: int| 0 <= i < self.actors@.len() implies self.slot_wf(i) by {
                if i < n {
                    assert(pre.slot_wf(i));
                    assert(self.actors@[i] == pre.actors@[i]);
                }
            }
            assert(self.wf());
            self.lemma_idx_is(bits, n);
            assert_seqs_equal!(self.received(bits), Seq::<Seq<char>>::empty());
            assert forall|id2: u128| #![auto]
                self.contains_id(id2) implies (pre.contains_id(id2) || id2 == bits) by {
                let w = choose|i: int|
                    0 <= i < self.actors@.len() && self.actors@[i].pid.spec_bits() == id2;
                if w < n {
                    assert(pre.contains_id(id2));
                }
            }
            assert forall|id2: u128| #![auto]
                pre.contains_id(id2) implies self.contains_id(id2) by {
                let w = choose|i: int|
                    0 <= i < pre.actors@.len() && pre.actors@[i].pid.spec_bits() == id2;
                assert(self.actors@[w].pid.spec_bits() == id2);
            }
            assert forall|id2: u128| #![auto]
                pre.contains_id(id2) && id2 != bits implies self.pending(id2) == pre.pending(id2)
                && self.received(id2) == pre.received(id2) && self.accepted(id2) == pre.accepted(
                id2,
            ) && self.observed_of(id2) == pre.observed_of(id2) && self.closed_of(id2)
                == pre.closed_of(id2) by {
                let w = pre.idx_of(id2);
                assert(0 <= w < n && pre.actors@[w].pid.spec_bits() == id2);
                assert(self.actors@[w] == pre.actors@[w]);
                self.lemma_idx_is(id2, w);
            }
        }
        id
    }

    /// Routes one payload to the actor registered under `id`: wraps it in an
    /// envelope and appends it to that actor's mailbox. The send is accepted
    /// exactly when `id` is registered, its mailbox is open, and the mailbox
    /// is below capacity. A `MailboxFull` refusal is backpressure: the caller
    /// should let the recipient drain an envelope and retry. A refused send
    /// changes nothing at all, and an accepted send touches no other actor.
    pub fn send(&mut self, id: &Identity, payload: String) -> (r: Result<(), SendError>)
        requires
            old(self).wf(),
        ensures
            final(self).wf(),
            r is Ok <==> old(self).send_accepted(id.spec_bits()),
            !old(self).contains_id(id.spec_bits()) ==> r == Err::<(), SendError>(
                SendError::RecipientNotFound,
            ),
            old(self).contains_id(id.spec_bits()) && old(self).closed_of(id.spec_bits()) ==> r
                == Err::<(), SendError>(SendError::MailboxClosed),
            old(self).contains_id(id.spec_bits()) && !old(self).closed_of(id.spec_bits()) && old(
                self,
            ).pending(id.spec_bits()).len() == old(self).spec_capacity() ==> r == Err::<
                (),
                SendError,
            >(SendError::MailboxFull),
            r is Err ==> Self::same_state(*old(self), *final(self)),
            r is Ok ==> {
                &&& Self::unchanged_except(*old(self), *final(self), id.spec_bits())
                &&& final(self).pending(id.spec_bits()) == old(self).pending(id.spec_bits()).push(
                    payload@,
                )
                &&& final(self).accepted(id.spec_bits()) == old(self).accepted(
                    id.spec_bits(),
                ).push(payload@)
                &&& final(self).received(id.spec_bits()) == old(self).received(id.spec_bits())
                &&& final(self).observed_of(id.spec_bits()) == old(self).observed_of(
                    id.spec_bits(),
                )
                &&& final(self).closed_of(id.spec_bits()) == old(self).closed_of(id.spec_bits())
            },
    {
        let bits = id.bits();
        match self.find_index(bits) {
            None => Err(SendError::RecipientNotFound),
            Some(i) => {
                let ghost pre = *self;
                let ghost pv = payload@;
                let envelope = ActorContext::new(payload);
                proof {
                    assert(pre.slot_wf(i as int));
                }
                let res = self.actors[i].mailbox.enqueue(envelope);
                if res.is_ok() {
                    self.actors[i].accepted = Ghost(self.actors@[i as int].accepted@.push(pv));
                }
                proof {
                    let s = self.actors@[i as int];
                    let p = pre.actors@[i as int];
                    assert(pre.slot_wf(i as int));
                    if res is Ok {
                        assert(s.handler.observed().skip(s.base@.len() as int) + s.mailbox.contents()
                            == s.accepted@) by {
                            assert(s.mailbox.contents() == p.mailbox.contents().push(pv));
                            assert_seqs_equal!(
                                s.handler.observed().skip(s.base@.len() as int)
                                    + p.mailbox.contents().push(pv),
                                (s.handler.observed().skip(s.base@.len() as int)
                                    + p.mailbox.contents()).push(pv)
                            );
                        }
                        assert(self.slot_wf(i as int));
                    } else {
                        assert(s == p);
                        assert(self.slot_wf(i as int));
                    }
                    Self::lemma_single_slot_update(pre, *self, i as int);
                    assert(pre.idx_of(bits) == i as int);
                    assert(self.idx_of(bits) == i as int);
                }
                match res {
                    Ok(()) => Ok(()),
                    Err(EnqueueError::MailboxFull) => Err(SendError::MailboxFull),
                    Err(EnqueueError::MailboxClosed) => Err(SendError::MailboxClosed),
                }
            },
        }
    }

    /// Performs one step of the actor's receive loop: dequeues the oldest
    /// pending envelope of `id`'s mailbox and dispatches it to `id`'s own
    /// handler, synchronously. On an empty mailbox nothing changes and the
    /// outcome says whether the loop should wait (`Idle`) or is finished for
    /// good (`Terminated`). A handler failure is isolated: it is returned to
    /// the runtime for out-of-band reporting, never to the sender, and the
    /// envelope still counts as observed.
    pub fn deliver_next(&mut self, id: &Identity) -> (r: Result<DeliverOutcome, SendError>)
        requires
            old(self).wf(),
        ensures
            final(self).wf(),
            r is Err <==> !old(self).contains_id(id.spec_bits()),
            r is Err ==> r == Err::<DeliverOutcome, SendError>(SendError::RecipientNotFound)
                && Self::same_state(*old(self), *final(self)),
            old(self).contains_id(id.spec_bits()) ==> {
                &&& Self::unchanged_except(*old(self), *final(self), id.spec_bits())
                &&& final(self).accepted(id.spec_bits()) == old(self).accepted(id.spec_bits())
                &&& final(self).closed_of(id.spec_bits()) == old(self).closed_of(id.spec_bits())
            },
            old(self).contains_id(id.spec_bits()) && old(self).pending(id.spec_bits()).len() > 0
                ==> {
                &&& (r == Ok::<DeliverOutcome, SendError>(DeliverOutcome::Delivered) || (
                r matches Ok(DeliverOutcome::HandlerFailed(_))))
                &&& final(self).pending(id.spec_bits()) == old(self).pending(
                    id.spec_bits(),
                ).drop_first()
                &&& final(self).received(id.spec_bits()) == old(self).received(
                    id.spec_bits(),
                ).push(old(self).pending(id.spec_bits())[0])
            },
            old(self).contains_id(id.spec_bits()) && old(self).pending(id.spec_bits()).len() == 0
                ==> Self::same_state(*old(self), *final(self)) && r == (if old(self).closed_of(
                id.spec_bits(),
            ) {
                Ok::<DeliverOutcome, SendError>(DeliverOutcome::Terminated)
            } else {
                Ok::<DeliverOutcome, SendError>(DeliverOutcome::Idle)
            }),
    {
        let bits = id.bits();
        match self.find_index(bits) {
            None => Err(SendError::RecipientNotFound),
            Some(i) => {
                let ghost pre = *self;
                proof {
                    assert(pre.slot_wf(i as int));
                }
                let outcome = self.actors[i].mailbox.dequeue();
                match outcome {
                    DequeueOutcome::Empty => {
                        proof {
                            assert(self.actors@[i as int] == pre.actors@[i as int]);
                            assert(self.slot_wf(i as int));
                            Self::lemma_single_slot_update(pre, *self, i as int);
                            self.lemma_same_at(pre, bits, i as int);
                        }
                        Ok(DeliverOutcome::Idle)
                    },
                    DequeueOutcome::EndOfStream => {
                        proof {
                            assert(self.actors@[i as int] == pre.actors@[i as int]);
                            assert(self.slot_wf(i as int));
                            Self::lemma_single_slot_update(pre, *self, i as int);
                            self.lemma_same_at(pre, bits, i as int);
                        }
                        Ok(DeliverOutcome::Terminated)
                    },
                    DequeueOutcome::Envelope(env) => {
                        let hr = self.actors[i].handler.handle(&env);
                        proof {
                            let p = pre.actors@[i as int];
                            let s = self.actors@[i as int];
                            let bl = p.base@.len() as int;
                            assert(s.handler.observed() == p.handler.observed().push(env@));
                            assert(s.mailbox.contents() == p.mailbox.contents().drop_first());
                            assert_seqs_equal!(
                                s.handler.observed().take(bl),
                                p.handler.observed().take(bl)
                            );
                            assert_seqs_equal!(
                                s.handler.observed().skip(bl) + s.mailbox.contents(),
                                p.handler.observed().skip(bl) + p.mailbox.contents()
                            );
                            assert(self.slot_wf(i as int));
                            Self::lemma_single_slot_update(pre, *self, i as int);
                            assert_seqs_equal!(
                                self.received(bits),
                                pre.received(bits).push(env@)
                            );
                        }
                        match hr {
                            Ok(()) => Ok(DeliverOutcome::Delivered),
                            Err(f) => Ok(DeliverOutcome::HandlerFailed(f)),
                        }
                    },
                }
            },
        }
    }

    /// After an update that left slot `i` itself untouched, the actor at
    /// `bits` (registered at slot `i`) is observably the same.
    proof fn lemma_same_at(&self, pre: Self, bits: u128, i: int)
        requires
            pre.wf(),
            self.wf(),
            0 <= i < pre.actors@.len(),
            0 <= i < self.actors@.len(),
            self.actors@[i] == pre.actors@[i],
            pre.actors@[i].pid.spec_bits() == bits,
            Self::unchanged_except(pre, *self, bits),
        ensures
            Self::same_state(pre, *self),
    {
        pre.lemma_idx_is(bits, i);
        self.lemma_idx_is(bits, i);
        assert forall|x: u128| #![auto]
            pre.contains_id(x) implies {
            &&& self.pending(x) == pre.pending(x)
            &&& self.received(x) == pre.received(x)
            &&& self.accepted(x) == pre.accepted(x)
            &&& self.observed_of(x) == pre.observed_of(x)
            &&& self.closed_of(x) == pre.closed_of(x)
        } by {
            if x == bits {
                assert(self.slot_of(x) == pre.slot_of(x));
            }
        }
    }

    /// Runs the actor's receive loop until its mailbox is drained: envelopes
    /// are dequeued in FIFO order and dispatched to the handler one at a
    /// time. Returns `Running` if more envelopes may still arrive (the
    /// mailbox is open) or `Terminated` if the mailbox was closed for good,
    /// together with every handler failure met on the way, in order; the
    /// failures were isolated to this actor and the loop went on past them.
    pub fn run_until_idle(&mut self, id: &Identity) -> (r: Result<
        (LoopState, Vec<HandlerFailure>),
        SendError,
    >)
        requires
            old(self).wf(),
        ensures
            final(self).wf(),
            r is Err <==> !old(self).contains_id(id.spec_bits()),
            r is Err ==> r == Err::<(LoopState, Vec<HandlerFailure>), SendError>(
                SendError::RecipientNotFound,
            ) && Self::same_state(*old(self), *final(self)),
            r matches Ok(p) ==> {
                &&& Self::unchanged_except(*old(self), *final(self), id.spec_bits())
                &&& final(self).pending(id.spec_bits()).len() == 0
                &&& final(self).received(id.spec_bits()) == old(self).received(id.spec_bits())
                    + old(self).pending(id.spec_bits())
                &&& final(self).accepted(id.spec_bits()) == old(self).accepted(id.spec_bits())
                &&& final(self).closed_of(id.spec_bits()) == old(self).closed_of(id.spec_bits())
                &&& (p.0 == LoopState::Terminated <==> old(self).closed_of(id.spec_bits()))
            },
    {
        let bits = id.bits();
        if self.find_index(bits).is_none() {
            return Err(SendError::RecipientNotFound);
        }
        let ghost pre = *self;
        let mut failures: Vec<HandlerFailure> = Vec::new();
        let mut state = LoopState::Running;
        loop
            invariant_except_break
                state == LoopState::Running,
            invariant
                self.wf(),
                self.contains_id(bits),
                bits == id.spec_bits(),
                Self::unchanged_except(pre, *self, bits),
                self.accepted(bits) == pre.accepted(bits),
                self.closed_of(bits) == pre.closed_of(bits),
                self.received(bits) + self.pending(bits) == pre.received(bits) + pre.pending(bits),
            ensures
                self.wf(),
                self.contains_id(bits),
                Self::unchanged_except(pre, *self, bits),
                self.accepted(bits) == pre.accepted(bits),
                self.closed_of(bits) == pre.closed_of(bits),
                self.received(bits) + self.pending(bits) == pre.received(bits) + pre.pending(bits),
                self.pending(bits).len() == 0,
                state == LoopState::Terminated <==> self.closed_of(bits),
            decreases self.pending(bits).len(),
        {
            let ghost before = *self;
            match self.deliver_next(id) {
                Ok(DeliverOutcome::Delivered) => {
                    proof {
                        Self::lemma_step_keeps_totals(pre, before, *self, bits);
                    }
                },
                Ok(DeliverOutcome::HandlerFailed(f)) => {
                    failures.push(f);
                    proof {
                        Self::lemma_step_keeps_totals(pre, before, *self, bits);
                    }
                },
                Ok(DeliverOutcome::Idle) => {
                    break;
                },
                Ok(DeliverOutcome::Terminated) => {
                    state = LoopState::Terminated;
                    break;
                },
                Err(e) => {
                    proof {
                        assert(false);
                    }
                    return Err(e);
                },
            }
        }
        proof {
            assert_seqs_equal!(
                self.received(bits),
                pre.received(bits) + pre.pending(bits)
            );
        }
        Ok((state, failures))
    }

    /// One delivery step keeps the running totals of the receive loop: what
    /// was received plus what is still pending stays the same sequence, and
    /// every other actor stays untouched relative to the loop's entry state.
    proof fn lemma_step_keeps_totals(pre: Self, before: Self, after: Self, bits: u128)
        requires
            Self::unchanged_except(pre, before, bits),
            Self::unchanged_except(before, after, bits),
            before.contains_id(bits),
            before.pending(bits).len() > 0,
            after.pending(bits) == before.pending(bits).drop_first(),
            after.received(bits) == before.received(bits).push(before.pending(bits)[0]),
        ensures
            Self::unchanged_except(pre, after, bits),
            after.received(bits) + after.pending(bits) == before.received(bits) + before.pending(
                bits,
            ),
    {
        assert forall|x: u128| #![auto] after.contains_id(x) == pre.contains_id(x) by {
            assert(before.contains_id(x) == pre.contains_id(x));
            assert(after.contains_id(x) == before.contains_id(x));
        }
        assert forall|x: u128| #![auto]
            x != bits && pre.contains_id(x) implies {
            &&& after.pending(x) == pre.pending(x)
            &&& after.received(x) == pre.received(x)
            &&& after.accepted(x) == pre.accepted(x)
            &&& after.observed_of(x) == pre.observed_of(x)
            &&& after.closed_of(x) == pre.closed_of(x)
        } by {
            assert(before.contains_id(x));
        }
        assert_seqs_equal!(
            after.received(bits) + after.pending(bits),
            before.received(bits) + before.pending(bits)
        );
    }

    /// Permanently closes `id`'s mailbox: this models the release of every
    /// producer handle addressing the actor. The registry entry stays, and
    /// pending envelopes remain deliverable; once the mailbox is drained the
    /// receive loop ends with `Terminated`, and every later send to `id`
    /// fails with `MailboxClosed`.
    pub fn shutdown(&mut self, id: &Identity) -> (r: Result<(), SendError>)
        requires
            old(self).wf(),
        ensures
            final(self).wf(),
            r is Err <==> !old(self).contains_id(id.spec_bits()),
            r is Err ==> r == Err::<(), SendError>(SendError::RecipientNotFound)
                && Self::same_state(*old(self), *final(self)),
            r is Ok ==> {
                &&& Self::unchanged_except(*old(self), *final(self), id.spec_bits())
                &&& final(self).pending(id.spec_bits()) == old(self).pending(id.spec_bits())
                &&& final(self).received(id.spec_bits()) == old(self).received(id.spec_bits())
                &&& final(self).accepted(id.spec_bits()) == old(self).accepted(id.spec_bits())
                &&& final(self).closed_of(id.spec_bits())
            },
    {
        let bits = id.bits();
        match self.find_index(bits) {
            None => Err(SendError::RecipientNotFound),
            Some(i) => {
                let ghost pre = *self;
                proof {
                    assert(pre.slot_wf(i as int));
                }
                self.actors[i].mailbox.close();
                proof {
                    assert(self.slot_wf(i as int));
                    Self::lemma_single_slot_update(pre, *self, i as int);
                }
                Ok(())
            },
        }
    }

    /// The mailbox capacity every actor of this engine is created with.
    pub fn capacity(&self) -> (r: usize)
        ensures
            r == self.spec_capacity(),
    {
        self.capacity
    }

    /// Read access to the handler owned by the actor registered under `id`,
    /// for inspection; `None` exactly when `id` is unknown.
    pub fn handler(&self, id: &Identity) -> (r: Option<&H>)
        requires
            self.wf(),
        ensures
            r is Some <==> self.contains_id(id.spec_bits()),
            r matches Some(h) ==> h.observed() == self.observed_of(id.spec_bits()),
    {
        match self.find_index(id.bits()) {
            None => None,
            Some(i) => Some(&self.actors[i].handler),
        }
    }

    /// How many envelopes are pending in `id`'s mailbox; `None` exactly when
    /// `id` is unknown.
    pub fn pending_len(&self, id: &Identity) -> (r: Option<usize>)
        requires
            self.wf(),
        ensures
            r is Some <==> self.contains_id(id.spec_bits()),
            r matches Some(n) ==> n == self.pending(id.spec_bits()).len(),
    {
        match self.find_index(id.bits()) {
            None => None,
            Some(i) => {
                proof {
                    assert(self.slot_wf(i as int));
                }
                Some(self.actors[i].mailbox.len())
            },
        }
    }

    /// Whether `id` is registered with this engine.
    pub fn contains(&self, id: &Identity) -> (r: bool)
        requires
            self.wf(),
        ensures
            r == self.contains_id(id.spec_bits()),
    {
        self.find_index(id.bits()).is_some()
    }

    /// Uniqueness of spawned identities. `spawn` registers the identity it
    /// returns and only ever returns one that was unregistered at the time,
    /// while every engine operation preserves registration. So an identity
    /// `id1` that is still registered when a later spawn draws `id2` — as
    /// every identity an earlier spawn returned is — cannot be that `id2`:
    /// all identities returned by spawns of one engine are pairwise distinct.
    pub proof fn lemma_spawn_identities_distinct(before_second: Self, id1: u128, id2: u128)
        requires
            before_second.contains_id(id1),
            !before_second.contains_id(id2),
        ensures
            id1 != id2,
    {
    }

    /// FIFO delivery, exactly once. In every reachable engine state, what an
    /// actor's handler has received is exactly the first part of what was
    /// accepted for that actor, in acceptance order and with nothing skipped
    /// or repeated, and the rest is still pending in its mailbox, in order.
    pub proof fn lemma_fifo(self, id: u128)
        requires
            self.wf(),
            self.contains_id(id),
        ensures
            self.received(id) + self.pending(id) == self.accepted(id),
            self.received(id) == self.accepted(id).take(self.received(id).len() as int),
            self.pending(id).len() == 0 ==> self.received(id) == self.accepted(id),
    {
        let w = self.idx_of(id);
        assert(0 <= w < self.actors@.len() && self.actors@[w].pid.spec_bits() == id);
        assert(self.slot_wf(w));
        assert_seqs_equal!(
            self.accepted(id).take(self.received(id).len() as int),
            self.received(id)
        );
        if self.pending(id).len() == 0 {
            assert_seqs_equal!(self.received(id), self.accepted(id));
        }
    }

    /// Isolation. An actor's handler receives only payloads that `send`
    /// accepted for that very identity: position by position, everything it
    /// received is what was addressed to it, so a payload sent to one
    /// identity is never observed by another identity's handler.
    pub proof fn lemma_isolation(self, id: u128, k: int)
        requires
            self.wf(),
            self.contains_id(id),
            0 <= k < self.received(id).len(),
        ensures
            self.received(id)[k] == self.accepted(id)[k],
    {
        self.lemma_fifo(id);
    }

    /// Backpressure. With a mailbox at capacity a further send to it is not
    /// accepted — it is refused with `MailboxFull` and changes nothing — and
    /// as soon as one pending envelope is delivered, the mailbox is below
    /// capacity again and the retried send is accepted.
    pub proof fn lemma_backpressure(full: Self, drained: Self, id: u128)
        requires
            full.wf(),
            full.contains_id(id),
            full.pending(id).len() == full.spec_capacity(),
            drained.contains_id(id),
            !drained.closed_of(id),
            drained.spec_capacity() == full.spec_capacity(),
            drained.pending(id) == full.pending(id).drop_first(),
        ensures
            !full.send_accepted(id),
            drained.send_accepted(id),
    {
    }
}

} // verus!
