//! A minimal actor runtime: a registry that creates independently
//! addressable actors, each owning a private, bounded, strictly FIFO inbox
//! and a handler that reacts to the messages delivered to it.
//!
//! The engine ([`engine::ActorEngine`]) registers actors under fresh, unique
//! identities ([`identity::Identity`]), routes payloads into their mailboxes
//! ([`mailbox::Mailbox`]) with explicit backpressure, and drives each
//! actor's receive loop, dispatching envelopes ([`envelope::ActorContext`])
//! one at a time to the actor's own handler ([`handler::Handler`]). The
//! delivery guarantees — unique identities, per-actor FIFO delivery exactly
//! once, isolation between actors, backpressure at capacity, and typed
//! failures for unknown or closed recipients — are stated in the contracts
//! and proved.
//!
//! Scheduling, waiting and every other effect stay outside: a runtime built
//! on top performs the suspensions this library only signals (`Idle`,
//! `MailboxFull`).

pub mod engine;
pub mod envelope;
pub mod handler;
pub mod identity;
pub mod mailbox;
