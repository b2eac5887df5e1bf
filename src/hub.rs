//! The hub: both registries together, and the routing of joins, leaves,
//! playback updates and chat to the members of a room.

use vstd::prelude::*;
use crate::clients::{ClientRegistry, RegisterError};
use crate::messages::{Frame, ProtocolError};
use crate::playback::{merge, PlaybackState, SyncError};
use crate::rooms::{room_of, with_member, without_member, RoomRegistry};
use crate::text::sanitized;

verus! {

pub struct Hub {
    pub clients: ClientRegistry,
    pub rooms: RoomRegistry,
}

/// The result of a join: the stored room name, the room's state, and the
/// members whose queues refused a notice.
pub struct JoinOutcome {
    pub room: String,
    pub state: PlaybackState,
    pub unreachable: Vec<u64>,
}

/// The queue of client `c` of `o` once `f` has gone to every member of
/// `members` but `sender` whose queue accepted it.
pub open spec fn queued_after(c: crate::clients::Client, members: Set<u64>, sender: u64, f: Frame) -> Seq<Frame> {
    if members.contains(c.id) && c.id != sender && c.outbox.accepts() {
        c.outbox.frames@.push(f)
    } else {
        c.outbox.frames@
    }
}

impl Hub {
    pub open spec fn wf(&self) -> bool {
        self.clients.wf() && self.rooms.wf()
    }

    pub fn new() -> (r: Hub)
        ensures
            r.wf(),
            r.clients.clients@.len() == 0,
            r.rooms.view() == Map::<Seq<char>, (Set<u64>, PlaybackState)>::empty(),
    {
        Hub { clients: ClientRegistry::new(), rooms: RoomRegistry::new() }
    }

    /// Registers a connection that passed authentication.
    pub fn connect(&mut self, id: u64, name: String, capacity: usize) -> (r: Result<(), RegisterError>)
        requires
            old(self).wf(),
        ensures
            final(self).wf(),
            final(self).rooms == old(self).rooms,
            r is Ok <==> !old(self).clients.has(id),
            r is Ok ==> final(self).clients.has(id),
    {
        let r = self.clients.register(id, name, capacity);
        proof {
            if r is Ok {
                self.clients.lemma_index(self.clients.clients@.len() - 1);
            }
        }
        r
    }

    /// Client `id` joins the room that `raw` sanitizes to (leaving any other
    /// room). The joiner is sent the room's state and the other members a
    /// notice of the arrival. A client that is not connected is refused.
    pub fn join(&mut self, id: u64, raw: &str) -> (r: Result<JoinOutcome, ProtocolError>)
        requires
            old(self).wf(),
        ensures
            final(self).wf(),
            !old(self).clients.has(id) ==> r == Err::<JoinOutcome, ProtocolError>(
                ProtocolError::NotConnected,
            ) && final(self).rooms.view() == old(self).rooms.view(),
            old(self).clients.has(id) ==> r is Ok,
            r matches Ok(out) ==> {
                &&& out.room@ == sanitized(raw@)
                &&& final(self).rooms.view() == with_member(
                    if room_of(old(self).rooms.view(), id) == Some(sanitized(raw@)) {
                        old(self).rooms.view()
                    } else {
                        without_member(old(self).rooms.view(), id)
                    },
                    sanitized(raw@),
                    id,
                )
                &&& out.state == final(self).rooms.view()[sanitized(raw@)].1
                &&& final(self).clients.clients@.len() == old(self).clients.clients@.len()
                &&& forall|k: int|
                    0 <= k < old(self).clients.clients@.len() ==> {
                        let c = old(self).clients.clients@[k];
                        &&& (#[trigger] final(self).clients.clients@[k]).id == c.id
                        &&& c.id == id ==> final(self).clients.clients@[k].outbox.frames@ == if c.outbox.accepts() {
                            c.outbox.frames@.push(Frame::RoomState { room: out.room, state: out.state })
                        } else {
                            c.outbox.frames@
                        }
                        &&& c.id != id ==> final(self).clients.clients@[k].outbox.frames@ == queued_after(
                            c,
                            final(self).rooms.view()[sanitized(raw@)].0,
                            id,
                            Frame::MemberJoined { room: out.room, client: id, name: old(self).clients.client(id).name },
                        )
                    }
            },
    {
        let name = match self.clients.name_of(id) {
            None => return Err(ProtocolError::NotConnected),
            Some(n) => n,
        };
        let (room, state) = self.rooms.join(raw, id);
        let ghost o = self.clients;
        let sent = self.clients.send(id, Frame::RoomState { room: room.clone(), state });
        let ghost mid = self.clients;
        proof {
            let kt = o.index_of(id);
            o.lemma_index(kt);
            assert forall|k: int| 0 <= k < o.clients@.len() && k != kt implies #[trigger] mid.clients@[k] == o.clients@[k] by {
                if sent is Ok {
                    assert(mid.clients@ == o.clients@.update(kt, mid.clients@[kt]));
                }
            }
        }
        let members = self.rooms.members_of(&room);
        let notice = Frame::MemberJoined { room: room.clone(), client: id, name };
        let unreachable = self.clients.broadcast(&members, id, &notice);
        proof {
            let kt = o.index_of(id);
            assert forall|k: int| 0 <= k < o.clients@.len() && o.clients@[k].id != id implies
                crate::clients::frames_after(mid.clients@[k], members@, id, notice) == queued_after(
                    o.clients@[k], self.rooms.view()[room@].0, id, notice) by {
                assert(mid.clients@[k] == o.clients@[k]);
                assert(members@.to_set().contains(o.clients@[k].id) == members@.contains(o.clients@[k].id));
            }
            assert(mid.clients@[kt].id == id);
            assert(crate::clients::frames_after(mid.clients@[kt], members@, id, notice) == mid.clients@[kt].outbox.frames@);
        }
        Ok(JoinOutcome { room, state, unreachable })
    }

    /// Client `id` leaves its room, whose remaining members are told; a room
    /// left empty is removed. Returns the room left, if any, and the members
    /// whose queues refused the notice.
    pub fn leave(&mut self, id: u64) -> (r: (Option<String>, Vec<u64>))
        requires
            old(self).wf(),
        ensures
            final(self).wf(),
            final(self).rooms.view() == without_member(old(self).rooms.view(), id),
            r.0 is None <==> room_of(old(self).rooms.view(), id) is None,
            r.0 matches Some(n) ==> room_of(old(self).rooms.view(), id) == Some(n@),
            r.0 is None ==> final(self).clients == old(self).clients,
            r.0 is Some ==> {
                let n = r.0->Some_0;
                let v = final(self).rooms.view();
                let left = if v.contains_key(n@) { v[n@].0 } else { Set::<u64>::empty() };
                &&& final(self).clients.clients@.len() == old(self).clients.clients@.len()
                &&& forall|k: int|
                    0 <= k < old(self).clients.clients@.len() ==> (#[trigger] final(self).clients.clients@[k]).id
                        == old(self).clients.clients@[k].id
                        && final(self).clients.clients@[k].outbox.frames@ == queued_after(
                        old(self).clients.clients@[k],
                        left,
                        id,
                        Frame::MemberLeft { room: n, client: id },
                    )
            },
    {
        match self.rooms.leave(id) {
            None => (None, Vec::new()),
            Some(room) => {
                let members = self.rooms.members_of(&room);
                let notice = Frame::MemberLeft { room: room.clone(), client: id };
                let ghost o = self.clients;
                let unreachable = self.clients.broadcast(&members, id, &notice);
                proof {
                    let v = self.rooms.view();
                    let left = if v.contains_key(room@) { v[room@].0 } else { Set::<u64>::empty() };
                    assert forall|k: int| 0 <= k < o.clients@.len() implies crate::clients::frames_after(
                        o.clients@[k], members@, id, notice) == queued_after(o.clients@[k], left, id, notice) by {
                        assert(members@.to_set().contains(o.clients@[k].id) == members@.contains(o.clients@[k].id));
                        if !v.contains_key(room@) {
                            assert(!members@.contains(o.clients@[k].id));
                        }
                    }
                }
                (Some(room), unreachable)
            },
        }
    }

    /// A playback update from client `id`. Refused where the client is in no
    /// room or the position is negative. Otherwise it is merged into the
    /// room's state by last writer wins, and where it took effect every other
    /// member whose queue accepts it is sent the update, attributed to the
    /// sender; one unreachable member does not stop the rest. Returns the
    /// members that were unreachable.
    pub fn sync(&mut self, id: u64, upd: PlaybackState) -> (r: Result<Vec<u64>, ProtocolError>)
        requires
            old(self).wf(),
        ensures
            final(self).wf(),
            room_of(old(self).rooms.view(), id) is None ==> r == Err::<Vec<u64>, ProtocolError>(
                ProtocolError::NotJoined,
            ) && final(self).rooms.view() == old(self).rooms.view() && final(self).clients
                == old(self).clients,
            room_of(old(self).rooms.view(), id) is Some && upd.position_ms < 0 ==> r == Err::<
                Vec<u64>,
                ProtocolError,
            >(ProtocolError::NegativePosition) && final(self).rooms.view() == old(
                self,
            ).rooms.view() && final(self).clients == old(self).clients,
            room_of(old(self).rooms.view(), id) is Some && upd.position_ms >= 0 ==> {
                let v = old(self).rooms.view();
                let n = room_of(v, id)->Some_0;
                let applied = upd.updated_at >= v[n].1.updated_at;
                let f = Frame::Sync { from: id, from_name: old(self).clients.client(id).name, state: upd };
                &&& r is Ok
                &&& final(self).rooms.view() == v.insert(n, (v[n].0, merge(v[n].1, upd)))
                &&& !applied ==> final(self).clients == old(self).clients && r->Ok_0@.len() == 0
                &&& applied && old(self).clients.has(id) ==> {
                    &&& final(self).clients.clients@.len() == old(self).clients.clients@.len()
                    &&& forall|k: int|
                        0 <= k < old(self).clients.clients@.len() ==> (#[trigger] final(self).clients.clients@[k]).id == old(self).clients.clients@[k].id
                            && final(self).clients.clients@[k].outbox.frames@ == queued_after(
                            old(self).clients.clients@[k],
                            v[n].0,
                            id,
                            f,
                        )
                    &&& forall|m: u64|
                        #[trigger] r->Ok_0@.contains(m) <==> (v[n].0.contains(m) && m != id
                            && !old(self).clients.reachable(m))
                }
            },
    {
        let i = match self.rooms.find_member(id) {
            None => return Err(ProtocolError::NotJoined),
            Some(i) => i,
        };
        let room = self.rooms.rooms[i].name.clone();
        let ghost v = self.rooms.view();
        match self.rooms.apply_sync(&room, upd) {
            Err(SyncError::NegativePosition) => Err(ProtocolError::NegativePosition),
            Err(SyncError::UnknownRoom) => Err(ProtocolError::NotJoined),
            Ok(false) => Ok(Vec::new()),
            Ok(true) => {
                let members = self.rooms.members_of(&room);
                let from_name = match self.clients.name_of(id) {
                    Some(n) => n,
                    None => String::new(),
                };
                let f = Frame::Sync { from: id, from_name, state: upd };
                let ghost o = self.clients;
                let unreachable = self.clients.broadcast(&members, id, &f);
                proof {
                    assert(self.rooms.view()[room@].0 == v[room@].0);
                    assert forall|k: int| 0 <= k < o.clients@.len() implies queued_after(o.clients@[k], v[room@].0, id, f)
                        == crate::clients::frames_after(o.clients@[k], members@, id, f) by {
                        assert(members@.to_set().contains(o.clients@[k].id) == members@.contains(o.clients@[k].id));
                    }
                    assert forall|m: u64| members@.contains(m) <==> v[room@].0.contains(m) by {
                        assert(members@.to_set().contains(m) == members@.contains(m));
                    }
                }
                Ok(unreachable)
            },
        }
    }

    /// A chat line from client `id`, sent to the other members of its room.
    /// Refused where the client is in no room. Returns the members that were
    /// unreachable.
    pub fn chat(&mut self, id: u64, text: String) -> (r: Result<Vec<u64>, ProtocolError>)
        requires
            old(self).wf(),
        ensures
            final(self).wf(),
            final(self).rooms.view() == old(self).rooms.view(),
            r is Err <==> room_of(old(self).rooms.view(), id) is None,
            r is Err ==> final(self).clients == old(self).clients,
            r is Ok && old(self).clients.has(id) ==> {
                let n = room_of(old(self).rooms.view(), id)->Some_0;
                let f = Frame::Chat { from: id, from_name: old(self).clients.client(id).name, text };
                &&& final(self).clients.clients@.len() == old(self).clients.clients@.len()
                &&& forall|k: int|
                    0 <= k < old(self).clients.clients@.len() ==> (#[trigger] final(self).clients.clients@[k]).id
                        == old(self).clients.clients@[k].id
                        && final(self).clients.clients@[k].outbox.frames@ == queued_after(
                        old(self).clients.clients@[k],
                        old(self).rooms.view()[n].0,
                        id,
                        f,
                    )
                &&& forall|m: u64|
                    #[trigger] r->Ok_0@.contains(m) <==> (old(self).rooms.view()[n].0.contains(m) && m != id
                        && !old(self).clients.reachable(m))
            },
    {
        let i = match self.rooms.find_member(id) {
            None => return Err(ProtocolError::NotJoined),
            Some(i) => i,
        };
        let room = self.rooms.rooms[i].name.clone();
        let members = self.rooms.members_of(&room);
        let from_name = match self.clients.name_of(id) {
            Some(n) => n,
            None => String::new(),
        };
        let f = Frame::Chat { from: id, from_name, text };
        let ghost o = self.clients;
        let unreachable = self.clients.broadcast(&members, id, &f);
        proof {
            let v = self.rooms.view();
            assert forall|k: int| 0 <= k < o.clients@.len() implies queued_after(o.clients@[k], v[room@].0, id, f)
                == crate::clients::frames_after(o.clients@[k], members@, id, f) by {
                assert(members@.to_set().contains(o.clients@[k].id) == members@.contains(o.clients@[k].id));
            }
            assert forall|m: u64| members@.contains(m) <==> v[room@].0.contains(m) by {
                assert(members@.to_set().contains(m) == members@.contains(m));
            }
        }
        Ok(unreachable)
    }

    /// Queues a frame for client `id` alone.
    pub fn reply(&mut self, id: u64, f: Frame) -> (r: bool)
        requires
            old(self).wf(),
        ensures
            final(self).wf(),
            final(self).rooms == old(self).rooms,
            r == old(self).clients.reachable(id),
    {
        self.clients.send(id, f).is_ok()
    }

    /// Cleans up after client `id` whose connection ended: it leaves its
    /// room, whose members are told, and is removed from the registry.
    /// Returns the members that were unreachable.
    pub fn disconnect(&mut self, id: u64) -> (r: Vec<u64>)
        requires
            old(self).wf(),
        ensures
            final(self).wf(),
            final(self).rooms.view() == without_member(old(self).rooms.view(), id),
            room_of(final(self).rooms.view(), id) is None,
            !final(self).clients.has(id),
    {
        let (_, unreachable) = self.leave(id);
        let _ = self.clients.deregister(id);
        proof {
            crate::rooms::lemma_left_in_no_room(old(self).rooms.view(), id);
        }
        unreachable
    }
}

} // verus!
