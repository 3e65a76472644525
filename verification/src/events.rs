//! The message and payload model, lifecycle events, and the directional
//! envelopes that pair a message with a connection identifier.

use crate::errors::NetworkError;
use crate::server::ClientId;
use vstd::prelude::*;

verus! {

/// A lifecycle signal, distinct from content messages. Ordering relative
/// to content messages for the same connection matters: `Connected(id)` is
/// recorded before any inbound message from `id`.
#[derive(Debug, Clone, PartialEq, Eq)]
pub enum NetworkEvent {
    Connected(ClientId),
    Disconnected(ClientId),
    Error(NetworkError),
}

/// Data to be sent to a client over the GMCP protocol.
#[derive(Debug, Clone, PartialEq, Eq)]
pub struct Payload {
    pub package: String,
    pub subpackage: Option<String>,
    pub data: Option<String>,
}

/// A message sent from the server to a client or vice versa.
#[derive(Debug, Clone, PartialEq, Eq)]
pub enum Message {
    /// Just your regular text message. This is appended with CR LF when
    /// sent to the client.
    Text(String),
    /// A command is a sequence of bytes used by the telnet protocol. The
    /// constants in the [`telnet`](crate::telnet) module make building one
    /// easier.
    Command(Vec<u8>),
    /// A GMCP message carries structured out-of-band data to the client.
    GMCP(Payload),
}

impl From<String> for Message {
    /// Convert a string into a [`Message::Text`].
    fn from(s: String) -> (r: Self) {
        Message::Text(s)
    }
}

impl vstd::std_specs::convert::FromSpecImpl<String> for Message {
    open spec fn obeys_from_spec() -> bool {
        true
    }

    open spec fn from_spec(s: String) -> Message {
        Message::Text(s)
    }
}

impl From<Vec<u8>> for Message {
    /// Convert a vector of bytes into a [`Message::Command`].
    fn from(v: Vec<u8>) -> (r: Self) {
        Message::Command(v)
    }
}

impl vstd::std_specs::convert::FromSpecImpl<Vec<u8>> for Message {
    open spec fn obeys_from_spec() -> bool {
        true
    }

    open spec fn from_spec(v: Vec<u8>) -> Message {
        Message::Command(v)
    }
}

impl From<Payload> for Message {
    /// Convert a [`Payload`] object into a [`Message::GMCP`].
    fn from(payload: Payload) -> (r: Self) {
        Message::GMCP(payload)
    }
}

impl vstd::std_specs::convert::FromSpecImpl<Payload> for Message {
    open spec fn obeys_from_spec() -> bool {
        true
    }

    open spec fn from_spec(payload: Payload) -> Message {
        Message::GMCP(payload)
    }
}

/// A [`Message`] sent from a client, handed to the host when it drains the
/// inbound queue.
#[derive(Debug, Clone, PartialEq, Eq)]
pub struct Inbox {
    pub from: ClientId,
    pub content: Message,
}

/// A [`Message`] addressed to a client, fed by the host into the outbound
/// routing step.
#[derive(Debug, Clone, PartialEq, Eq)]
pub struct Outbox {
    pub to: ClientId,
    pub content: Message,
}

/// Convenience constructors for a batch of outbound envelopes that the
/// host collects during one tick and then feeds to the server.
pub trait OutboxWriterExt {
    /// The envelopes queued so far, oldest first.
    spec fn queued(&self) -> Seq<Outbox>;

    /// Queue a [`Message::Text`] for a client.
    fn send_text(&mut self, to: ClientId, text: String)
        ensures
            final(self).queued() == old(self).queued().push(
                (Outbox { to, content: Message::Text(text) }),
            ),
    ;

    /// Queue a [`Message::Command`] for a client.
    fn send_command(&mut self, to: ClientId, command: Vec<u8>)
        ensures
            final(self).queued() == old(self).queued().push(
                (Outbox { to, content: Message::Command(command) }),
            ),
    ;

    /// Queue a [`Message::GMCP`] for a client.
    fn send_gmcp(&mut self, to: ClientId, payload: Payload)
        ensures
            final(self).queued() == old(self).queued().push(
                (Outbox { to, content: Message::GMCP(payload) }),
            ),
    ;
}

impl OutboxWriterExt for Vec<Outbox> {
    open spec fn queued(&self) -> Seq<Outbox> {
        self@
    }

    fn send_text(&mut self, to: ClientId, text: String) {
        self.push(Outbox { to, content: Message::Text(text) });
    }

    fn send_command(&mut self, to: ClientId, command: Vec<u8>) {
        self.push(Outbox { to, content: Message::Command(command) });
    }

    fn send_gmcp(&mut self, to: ClientId, payload: Payload) {
        self.push(Outbox { to, content: Message::GMCP(payload) });
    }
}

} // verus!
