use crate::protocol::{
    decode, echo, echo_text, has_tag, join_tag, update_tag, update_text, usize_text, ClientMessage,
    DecodeError,
};
use crate::world::Command;
use vstd::prelude::*;

verus! {

/// Where a connection stands.
#[derive(Clone, Copy, Debug, PartialEq, Eq, Structural)]
pub enum Phase {
    /// Connected, no join seen yet.
    Unjoined,
    /// Joined as an entity; updates move that entity.
    Active,
    /// Torn down; nothing more is taken or sent.
    Closed,
}

/// What arrives on a connection.
pub enum Inbound {
    Text(String),
    Binary(Vec<u8>),
    Ping(Vec<u8>),
    Pong,
    Close,
    Continuation,
    Nop,
}

/// What the connection's owner is to do next.
pub enum Reaction {
    /// Hand the command to the state store.
    Forward(Command),
    /// Send this text back to the client.
    Reply(String),
    /// The frame was malformed: log it and keep the connection.
    Malformed(DecodeError),
    /// Answer a ping with these bytes.
    Pong(Vec<u8>),
    /// Binary frames carry nothing this protocol reads: log and drop.
    BinaryRejected,
    /// Close the connection; `stopped` follows.
    Stop,
    /// Nothing to do.
    Nothing,
}

/// How a session answers the text frame `s`, going from `before` to `after`.
pub open spec fn reacts_to_text(before: WsSession, after: WsSession, s: Seq<char>, r: Reaction) -> bool {
    &&& after.spec_session() == before.spec_session()
    &&& before.spec_phase() == Phase::Closed ==> r is Nothing && after == before
    &&& before.spec_phase() != Phase::Closed ==> {
        if has_tag(s, join_tag()) {
            match usize_text(s.skip(7)) {
                Some(id) => {
                    &&& r == Reaction::Forward(
                        Command::Join { player_id: id, session: before.spec_session() },
                    )
                    &&& after.spec_player_id() == id
                    &&& after.spec_phase() == Phase::Active
                },
                None => r == Reaction::Malformed(DecodeError::BadJoin) && after
                    == before,
            }
        } else if has_tag(s, update_tag()) {
            &&& after == before
            &&& match update_text(s.skip(7)) {
                Some((x, y)) => r == Reaction::Forward(
                    Command::Update { player_id: before.spec_player_id(), x, y },
                ),
                None => r == Reaction::Malformed(DecodeError::BadUpdate),
            }
        } else {
            &&& after == before
            &&& r matches Reaction::Reply(t) && t@ == echo_text(s)
        }
    }
}

/// One client's connection, between the transport and the state store. It holds
/// no shared state: it only turns frames into commands and replies.
pub struct WsSession {
    session: u64,
    player_id: usize,
    phase: Phase,
}

impl WsSession {
    pub closed spec fn spec_session(&self) -> u64 {
        self.session
    }

    pub closed spec fn spec_player_id(&self) -> usize {
        self.player_id
    }

    pub closed spec fn spec_phase(&self) -> Phase {
        self.phase
    }

    /// A fresh connection named `session` by the transport. Until it joins, its id
    /// is 0.
    pub fn new(session: u64) -> (r: WsSession)
        ensures
            r.spec_session() == session,
            r.spec_player_id() == 0,
            r.spec_phase() == Phase::Unjoined,
    {
        WsSession { session, player_id: 0, phase: Phase::Unjoined }
    }

    pub fn session(&self) -> (r: u64)
        ensures
            r == self.spec_session(),
    {
        self.session
    }

    pub fn player_id(&self) -> (r: usize)
        ensures
            r == self.spec_player_id(),
    {
        self.player_id
    }

    pub fn phase(&self) -> (r: Phase)
        ensures
            r == self.spec_phase(),
    {
        self.phase
    }

    /// Reacts to one text frame. A join names the session's entity and is forwarded;
    /// an update is forwarded for the session's entity; a malformed frame is reported
    /// and the connection kept; other text is echoed. A closed session ignores it.
    pub fn handle_text_message(&mut self, msg: &str) -> (r: Reaction)
        ensures
            reacts_to_text(*old(self), *final(self), msg@, r),
    {
        if self.phase == Phase::Closed {
            return Reaction::Nothing;
        }
        match decode(msg) {
            Ok(ClientMessage::Join { player_id }) => {
                self.player_id = player_id;
                self.phase = Phase::Active;
                Reaction::Forward(Command::Join { player_id, session: self.session })
            },
            Ok(ClientMessage::Update { x, y }) => Reaction::Forward(
                Command::Update { player_id: self.player_id, x, y },
            ),
            Ok(ClientMessage::Unrecognized { raw }) => Reaction::Reply(echo(&raw)),
            Err(e) => Reaction::Malformed(e),
        }
    }

    /// Reacts to anything that arrives on the connection: text as
    /// `handle_text_message` says, pings with a pong of the same bytes, a close with
    /// a stop, binary frames with a rejection, the rest with nothing.
    pub fn handle(&mut self, msg: Inbound) -> (r: Reaction)
        ensures
            match msg {
                Inbound::Text(t) => reacts_to_text(*old(self), *final(self), t@, r),
                Inbound::Binary(_) => r is BinaryRejected && *final(self) == *old(self),
                Inbound::Ping(p) => r == Reaction::Pong(p) && *final(self) == *old(self),
                Inbound::Close => r is Stop && *final(self) == *old(self),
                _ => r is Nothing && *final(self) == *old(self),
            },
    {
        match msg {
            Inbound::Text(text) => self.handle_text_message(text.as_str()),
            Inbound::Binary(_) => Reaction::BinaryRejected,
            Inbound::Ping(p) => Reaction::Pong(p),
            Inbound::Close => Reaction::Stop,
            _ => Reaction::Nothing,
        }
    }

    /// The connection is gone, for whatever reason: a joined session leaves the
    /// world; in every case the session is closed for good.
    pub fn stopped(&mut self) -> (r: Option<Command>)
        ensures
            final(self).spec_session() == old(self).spec_session(),
            final(self).spec_player_id() == old(self).spec_player_id(),
            final(self).spec_phase() == Phase::Closed,
            r == (if old(self).spec_phase() == Phase::Active {
                Some(Command::Leave { player_id: old(self).spec_player_id() })
            } else {
                None
            }),
    {
        let was_active = self.phase == Phase::Active;
        self.phase = Phase::Closed;
        if was_active {
            Some(Command::Leave { player_id: self.player_id })
        } else {
            None
        }
    }
}

} // verus!
