//! The per-connection state machine. The transport loop hands each event
//! to `Connection::step`, which decides and applies its effect on the hub;
//! the loop then writes out the queued frames.

use vstd::prelude::*;
use crate::hub::Hub;
use crate::messages::{Frame, Message, ProtocolError};
use crate::rooms::{room_of, without_member};
use crate::text::sanitized;

verus! {

pub enum ConnState {
    Connecting,
    Authenticated,
    Joined { room: String },
    Closed,
}

/// What the transport reports about a connection.
pub enum Event {
    /// Authentication succeeded, with the display name it gave.
    Verified { name: String },
    /// A frame that decoded to a message.
    Inbound { msg: Message },
    /// A frame that did not decode.
    Malformed,
    /// The peer closed the connection or the transport failed.
    TransportClosed,
}

/// What a step produced: a refusal to report, if any, and the peers found
/// unreachable, whose own connections should now be closed.
pub struct StepOutcome {
    pub error: Option<ProtocolError>,
    pub unreachable: Vec<u64>,
}

pub struct Connection {
    pub id: u64,
    pub capacity: usize,
    pub state: ConnState,
    pub errors: u32,
    pub max_errors: u32,
}

impl Connection {
    /// A new connection awaiting authentication; it is closed after more
    /// than `max_errors` malformed frames.
    pub fn new(id: u64, capacity: usize, max_errors: u32) -> (r: Connection)
        ensures
            r.id == id,
            r.capacity == capacity,
            r.state is Connecting,
            r.errors == 0,
            r.max_errors == max_errors,
    {
        Connection { id, capacity, state: ConnState::Connecting, errors: 0, max_errors }
    }

    fn outcome(error: Option<ProtocolError>, unreachable: Vec<u64>) -> (r: StepOutcome)
        ensures
            r.error == error,
            r.unreachable == unreachable,
    {
        StepOutcome { error, unreachable }
    }

    /// Ends the session: leaves the room and deregisters, where the
    /// connection got that far.
    fn close(&mut self, hub: &mut Hub) -> (r: Vec<u64>)
        requires
            old(hub).wf(),
        ensures
            final(hub).wf(),
            final(self).state is Closed,
            final(self).id == old(self).id,
            final(self).errors == old(self).errors,
            final(self).max_errors == old(self).max_errors,
            !(old(self).state is Connecting) && !(old(self).state is Closed) ==> !final(hub).clients.has(old(self).id)
                && final(hub).rooms.view() == without_member(old(hub).rooms.view(), old(self).id)
                && room_of(final(hub).rooms.view(), old(self).id) is None,
            old(self).state is Connecting || old(self).state is Closed ==> *final(hub) == *old(hub),
    {
        let r = match self.state {
            ConnState::Connecting | ConnState::Closed => Vec::new(),
            _ => hub.disconnect(self.id),
        };
        self.state = ConnState::Closed;
        r
    }

    /// Handles one event.
    ///
    /// - A closed connection stays closed and does nothing.
    /// - Closing the transport, or more than `max_errors` malformed frames,
    ///   leaves the room, deregisters and closes.
    /// - Authentication registers the client; a taken id closes.
    /// - `Join` moves the client into the sanitized room. Before a join any
    ///   other message is refused as `NotJoined` and changes nothing.
    /// - Once joined, `Leave` goes back to authenticated; `Sync`, `Chat` and
    ///   `Ping` are routed through the hub.
    /// - Unknown message types are ignored.
    pub fn step(&mut self, hub: &mut Hub, ev: Event) -> (r: StepOutcome)
        requires
            old(hub).wf(),
        ensures
            final(hub).wf(),
            final(self).id == old(self).id,
            old(self).state is Closed ==> final(self).state is Closed && *final(hub) == *old(hub),
            !(old(self).state is Closed) && ev is TransportClosed ==> final(self).state is Closed,
            !(old(self).state is Closed) && !(old(self).state is Connecting) && ev is TransportClosed
                ==> !final(hub).clients.has(old(self).id) && room_of(final(hub).rooms.view(), old(self).id) is None,
            old(self).state is Connecting && ev is Verified ==> (final(self).state is Authenticated
                <==> !old(hub).clients.has(old(self).id)) && (final(self).state is Closed
                <==> old(hub).clients.has(old(self).id)),
            old(self).state is Authenticated && ev is Inbound && (ev->Inbound_msg is Leave
                || ev->Inbound_msg is Sync || ev->Inbound_msg is Chat || ev->Inbound_msg is Ping)
                ==> final(self).state is Authenticated && r.error == Some(ProtocolError::NotJoined)
                && *final(hub) == *old(hub),
            (old(self).state is Authenticated || old(self).state is Joined) && old(hub).clients.has(old(self).id)
                && ev is Inbound && ev->Inbound_msg is Join ==> final(self).state is Joined
                && final(self).state->Joined_room@ == sanitized(ev->Inbound_msg->Join_room@)
                && room_of(final(hub).rooms.view(), old(self).id) == Some(final(self).state->Joined_room@),
            old(self).state is Joined && ev is Inbound && ev->Inbound_msg is Leave ==>
                final(self).state is Authenticated && room_of(final(hub).rooms.view(), old(self).id) is None,
            !(old(self).state is Closed) && ev is Malformed ==> (final(self).errors > final(self).max_errors
                <==> final(self).state is Closed),
            ev is Inbound && ev->Inbound_msg is Unknown ==> *final(hub) == *old(hub),
    {
        let ghost h0 = *hub;
        if let ConnState::Closed = self.state {
            return Self::outcome(None, Vec::new());
        }
        match ev {
            Event::TransportClosed => {
                let u = self.close(hub);
                Self::outcome(None, u)
            },
            Event::Malformed => {
                if self.errors < u32::MAX {
                    self.errors = self.errors + 1;
                }
                if self.errors > self.max_errors {
                    let u = self.close(hub);
                    Self::outcome(Some(ProtocolError::Malformed), u)
                } else {
                    Self::outcome(Some(ProtocolError::Malformed), Vec::new())
                }
            },
            Event::Verified { name } => {
                if let ConnState::Connecting = self.state {
                    match hub.connect(self.id, name, self.capacity) {
                        Ok(()) => {
                            self.state = ConnState::Authenticated;
                        },
                        Err(_) => {
                            self.state = ConnState::Closed;
                        },
                    }
                }
                Self::outcome(None, Vec::new())
            },
            Event::Inbound { msg } => {
                match self.state {
                    ConnState::Connecting => Self::outcome(Some(ProtocolError::NotConnected), Vec::new()),
                    ConnState::Authenticated => match msg {
                        Message::Join { room } => self.join(hub, room),
                        Message::Unknown => Self::outcome(None, Vec::new()),
                        _ => Self::outcome(Some(ProtocolError::NotJoined), Vec::new()),
                    },
                    _ => match msg {
                        Message::Join { room } => self.join(hub, room),
                        Message::Leave => {
                            let (_, u) = hub.leave(self.id);
                            proof {
                                crate::rooms::lemma_left_in_no_room(h0.rooms.view(), self.id);
                            }
                            self.state = ConnState::Authenticated;
                            Self::outcome(None, u)
                        },
                        Message::Sync { state } => match hub.sync(self.id, state) {
                            Ok(u) => Self::outcome(None, u),
                            Err(e) => Self::outcome(Some(e), Vec::new()),
                        },
                        Message::Chat { text } => match hub.chat(self.id, text) {
                            Ok(u) => Self::outcome(None, u),
                            Err(e) => Self::outcome(Some(e), Vec::new()),
                        },
                        Message::Ping => {
                            let _ = hub.reply(self.id, Frame::Pong);
                            Self::outcome(None, Vec::new())
                        },
                        Message::Unknown => Self::outcome(None, Vec::new()),
                    },
                }
            },
        }
    }

    fn join(&mut self, hub: &mut Hub, room: String) -> (r: StepOutcome)
        requires
            old(hub).wf(),
            !(old(self).state is Closed),
            !(old(self).state is Connecting),
        ensures
            final(hub).wf(),
            final(self).id == old(self).id,
            final(self).errors == old(self).errors,
            final(self).max_errors == old(self).max_errors,
            !(final(self).state is Closed),
            old(hub).clients.has(old(self).id) ==> final(self).state is Joined
                && final(self).state->Joined_room@ == sanitized(room@)
                && room_of(final(hub).rooms.view(), old(self).id) == Some(final(self).state->Joined_room@),
            !old(hub).clients.has(old(self).id) ==> final(self).state == old(self).state,
    {
        match hub.join(self.id, room.as_str()) {
            Ok(out) => {
                proof {
                    hub.rooms.lemma_room_of_member(sanitized(room@), self.id);
                }
                self.state = ConnState::Joined { room: out.room };
                Self::outcome(None, out.unreachable)
            },
            Err(e) => Self::outcome(Some(e), Vec::new()),
        }
    }
}

} // verus!
