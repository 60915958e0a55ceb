//! Exchange hub of a live-streaming relay.
//!
//! The heart of the crate is [`router::Router`], a single-writer actor that
//! owns all publish/subscribe bookkeeping: a per-channel frame cache, a
//! publisher registry, per-channel subscriber sets and a socket registry.
//! Inbound tagged payloads are dispatched against those registries and the
//! resulting messages are fanned out, as one shared encoded buffer, to every
//! current subscriber of the payload's channel.
//!
//! [`codec`] holds the wire format: how a payload names its channel, and how
//! a tagged payload is framed into the buffer that subscribers receive.

pub mod codec;
pub mod laws;
pub mod router;
