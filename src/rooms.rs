//! The room registry: rooms by sanitized name, their members and their
//! playback state. A room exists exactly while it has a member.

use vstd::prelude::*;
use crate::playback::{default_state, merge, PlaybackState, SyncError};
use crate::text::{sanitize_room_name, sanitized};

verus! {

pub struct Room {
    pub name: String,
    pub members: Vec<u64>,
    pub state: PlaybackState,
}

/// What the registry holds of a room: its members and its state.
pub type RoomModel = (Set<u64>, PlaybackState);

pub struct RoomRegistry {
    pub rooms: Vec<Room>,
}

/// `v` once client `c` has left whatever room it was in; a room left
/// without members is gone.
pub open spec fn without_member(v: Map<Seq<char>, RoomModel>, c: u64) -> Map<Seq<char>, RoomModel> {
    Map::new(
        |n: Seq<char>| v.contains_key(n) && v[n].0.remove(c) != Set::<u64>::empty(),
        |n: Seq<char>| (v[n].0.remove(c), v[n].1),
    )
}

/// `v` once client `c` has been added to room `n`, made with the default
/// state where it did not exist.
pub open spec fn with_member(v: Map<Seq<char>, RoomModel>, n: Seq<char>, c: u64) -> Map<
    Seq<char>,
    RoomModel,
> {
    if v.contains_key(n) {
        v.insert(n, (v[n].0.insert(c), v[n].1))
    } else {
        v.insert(n, (set![c], default_state()))
    }
}

/// Which room client `c` is in, if any.
pub open spec fn room_of(v: Map<Seq<char>, RoomModel>, c: u64) -> Option<Seq<char>> {
    if exists|n: Seq<char>| v.contains_key(n) && #[trigger] v[n].0.contains(c) {
        Some(choose|n: Seq<char>| v.contains_key(n) && #[trigger] v[n].0.contains(c))
    } else {
        None
    }
}

impl RoomRegistry {
    pub open spec fn has(&self, n: Seq<char>) -> bool {
        exists|i: int| 0 <= i < self.rooms@.len() && #[trigger] self.rooms@[i].name@ == n
    }

    pub open spec fn index_of(&self, n: Seq<char>) -> int {
        choose|i: int| 0 <= i < self.rooms@.len() && #[trigger] self.rooms@[i].name@ == n
    }

    /// The registry as a map from room name to members and state.
    pub open spec fn view(&self) -> Map<Seq<char>, RoomModel> {
        Map::new(
            |n: Seq<char>| self.has(n),
            |n: Seq<char>|
                (
                    self.rooms@[self.index_of(n)].members@.to_set(),
                    self.rooms@[self.index_of(n)].state,
                ),
        )
    }

    /// Names are unique, every room has a member and no member twice, no
    /// client is in two rooms, and no position is negative.
    pub open spec fn wf(&self) -> bool {
        &&& forall|i: int, j: int|
            0 <= i < j < self.rooms@.len() ==> self.rooms@[i].name@ != self.rooms@[j].name@
        &&& forall|i: int|
            0 <= i < self.rooms@.len() ==> {
                &&& (#[trigger] self.rooms@[i]).members@.len() > 0
                &&& self.rooms@[i].members@.no_duplicates()
                &&& self.rooms@[i].state.position_ms >= 0
            }
        &&& forall|i: int, j: int, c: u64|
            0 <= i < self.rooms@.len() && 0 <= j < self.rooms@.len() && i != j
                && self.rooms@[i].members@.contains(c) ==> !self.rooms@[j].members@.contains(c)
    }

    proof fn lemma_index(&self, i: int)
        requires
            self.wf(),
            0 <= i < self.rooms@.len(),
        ensures
            self.has(self.rooms@[i].name@),
            self.index_of(self.rooms@[i].name@) == i,
            self.view().contains_key(self.rooms@[i].name@),
            self.view()[self.rooms@[i].name@] == (
                self.rooms@[i].members@.to_set(),
                self.rooms@[i].state,
            ),
    {
        let n = self.rooms@[i].name@;
        assert(self.rooms@[i].name@ == n);
        let k = self.index_of(n);
        if k != i {
            if k < i {
                assert(self.rooms@[k].name@ != self.rooms@[i].name@);
            } else {
                assert(self.rooms@[i].name@ != self.rooms@[k].name@);
            }
        }
    }

    pub fn new() -> (r: RoomRegistry)
        ensures
            r.wf(),
            r.view() == Map::<Seq<char>, RoomModel>::empty(),
    {
        let r = RoomRegistry { rooms: Vec::new() };
        assert(r.view() =~= Map::<Seq<char>, RoomModel>::empty());
        r
    }

    /// The index of the room named `n`, if there is one.
    pub fn find(&self, n: &String) -> (r: Option<usize>)
        requires
            self.wf(),
        ensures
            r is None <==> !self.view().contains_key(n@),
            r matches Some(i) ==> i < self.rooms@.len() && self.rooms@[i as int].name@ == n@
                && i == self.index_of(n@),
    {
        let mut i: usize = 0;
        while i < self.rooms.len()
            invariant
                self.wf(),
                i <= self.rooms@.len(),
                forall|k: int| 0 <= k < i ==> self.rooms@[k].name@ != n@,
            decreases self.rooms@.len() - i,
        {
            if self.rooms[i].name == *n {
                proof {
                    self.lemma_index(i as int);
                }
                return Some(i);
            }
            i = i + 1;
        }
        None
    }

    /// The index of the room that client `c` is in, if any.
    pub fn find_member(&self, c: u64) -> (r: Option<usize>)
        requires
            self.wf(),
        ensures
            r is None <==> room_of(self.view(), c) is None,
            r matches Some(i) ==> i < self.rooms@.len() && self.rooms@[i as int].members@.contains(
                c,
            ) && room_of(self.view(), c) == Some(self.rooms@[i as int].name@),
    {
        let mut i: usize = 0;
        while i < self.rooms.len()
            invariant
                self.wf(),
                i <= self.rooms@.len(),
                forall|k: int| 0 <= k < i ==> !self.rooms@[k].members@.contains(c),
            decreases self.rooms@.len() - i,
        {
            if vec_contains(&self.rooms[i].members, c) {
                proof {
                    self.lemma_member_room(i as int, c);
                }
                return Some(i);
            }
            i = i + 1;
        }
        proof {
            if exists|n: Seq<char>| self.view().contains_key(n) && #[trigger] self.view()[n].0.contains(c) {
                let n = choose|n: Seq<char>| self.view().contains_key(n) && #[trigger] self.view()[n].0.contains(c);
                let k = self.index_of(n);
                assert(self.rooms@[k].members@.to_set().contains(c));
                assert(false);
            }
        }
        None
    }

    /// A client is in no more than one room: a room that holds it is the
    /// room it is in.
    pub proof fn lemma_room_of_member(&self, n: Seq<char>, c: u64)
        requires
            self.wf(),
            self.view().contains_key(n),
            self.view()[n].0.contains(c),
        ensures
            room_of(self.view(), c) == Some(n),
    {
        let k = self.index_of(n);
        self.lemma_index(k);
        assert(self.rooms@[k].members@.to_set().contains(c));
        self.lemma_member_room(k, c);
    }

    proof fn lemma_member_room(&self, i: int, c: u64)
        requires
            self.wf(),
            0 <= i < self.rooms@.len(),
            self.rooms@[i].members@.contains(c),
        ensures
            room_of(self.view(), c) == Some(self.rooms@[i].name@),
    {
        self.lemma_index(i);
        let v = self.view();
        let n0 = self.rooms@[i].name@;
        assert(v[n0].0.contains(c));
        let n = choose|n: Seq<char>| v.contains_key(n) && #[trigger] v[n].0.contains(c);
        let k = self.index_of(n);
        assert(self.rooms@[k].members@.to_set().contains(c));
        if k != i {
            assert(!self.rooms@[k].members@.contains(c));
        }
    }
}

impl RoomRegistry {
    /// A registry whose rooms all appear in `expected` with their members
    /// and state, and which has a room for each name of `expected`, has
    /// `expected` as its view.
    proof fn lemma_view_is(&self, expected: Map<Seq<char>, RoomModel>)
        requires
            self.wf(),
            forall|k: int|
                0 <= k < self.rooms@.len() ==> expected.contains_key(
                    (#[trigger] self.rooms@[k]).name@,
                ) && expected[self.rooms@[k].name@] == (
                    self.rooms@[k].members@.to_set(),
                    self.rooms@[k].state,
                ),
            forall|n: Seq<char>| #[trigger] expected.contains_key(n) ==> self.has(n),
        ensures
            self.view() == expected,
    {
        assert forall|n: Seq<char>| #[trigger] self.view().contains_key(n) implies expected.contains_key(n) && self.view()[n] == expected[n] by {
            let k = self.index_of(n);
            self.lemma_index(k);
            assert(self.rooms@[k] == self.rooms@[k]);
        }
        assert(self.view() =~= expected);
    }

    /// Removes client `c` from the room it is in; a room left empty is
    /// removed. Returns the name of the room that was left.
    pub fn leave(&mut self, c: u64) -> (r: Option<String>)
        requires
            old(self).wf(),
        ensures
            final(self).wf(),
            final(self).view() == without_member(old(self).view(), c),
            forall|k: int|
                0 <= k < final(self).rooms@.len() ==> !(#[trigger] final(self).rooms@[k]).members@.contains(c),
            r is None <==> room_of(old(self).view(), c) is None,
            r matches Some(n) ==> room_of(old(self).view(), c) == Some(n@),
    {
        let ghost o = *self;
        match self.find_member(c) {
            None => {
                proof {
                    assert forall|k: int| 0 <= k < self.rooms@.len() implies !(#[trigger] self.rooms@[k]).members@.contains(c) by {
                        self.lemma_index(k);
                        if self.rooms@[k].members@.contains(c) {
                            self.lemma_member_room(k, c);
                        }
                    }
                    self.lemma_keeps_view_without(c);
                }
                None
            },
            Some(i) => {
                let j = index_in(&self.rooms[i].members, c);
                let name = self.rooms[i].name.clone();
                let ghost old_members = self.rooms@[i as int].members@;
                let mut room = self.rooms.remove(i);
                room.members.remove(j);
                let ghost new_members = room.members@;
                proof {
                    assert forall|x: u64| new_members.contains(x) <==> (old_members.contains(x) && x != c) by {
                        if new_members.contains(x) {
                            let m = choose|m: int| 0 <= m < new_members.len() && new_members[m] == x;
                            if m < j {
                                assert(old_members[m] == x);
                            } else {
                                assert(old_members[m + 1] == x);
                            }
                        }
                        if old_members.contains(x) && x != c {
                            let m = choose|m: int| 0 <= m < old_members.len() && old_members[m] == x;
                            if m < j {
                                assert(new_members[m] == x);
                            } else {
                                assert(m != j);
                                assert(new_members[m - 1] == x);
                            }
                        }
                    }
                    assert(new_members.to_set() =~= old_members.to_set().remove(c));
                    assert forall|a: int, b: int| 0 <= a < b < new_members.len() implies new_members[a] != new_members[b] by {
                        if b < j {
                        } else if a < j {
                            assert(new_members[a] == old_members[a] && new_members[b] == old_members[b + 1]);
                        } else {
                            assert(new_members[a] == old_members[a + 1] && new_members[b] == old_members[b + 1]);
                        }
                    }
                }
                if room.members.len() > 0 {
                    self.rooms.insert(i, room);
                    proof {
                        self.lemma_leave_kept(o, i as int, c);
                    }
                } else {
                    proof {
                        assert(old_members =~= seq![c]) by {
                            assert(old_members.len() == 1) by {
                                if old_members.len() > 1 {
                                    let y = if j == 0 { old_members[1] } else { old_members[0] };
                                    assert(new_members.contains(y));
                                }
                            }
                        }
                        self.lemma_leave_dropped(o, i as int, c);
                    }
                }
                Some(name)
            },
        }
    }

    proof fn lemma_keeps_view_without(&self, c: u64)
        requires
            self.wf(),
            forall|k: int| 0 <= k < self.rooms@.len() ==> !(#[trigger] self.rooms@[k]).members@.contains(c),
        ensures
            self.view() == without_member(self.view(), c),
    {
        let v = self.view();
        assert forall|n: Seq<char>| #[trigger] v.contains_key(n) implies v[n].0.remove(c) == v[n].0 && v[n].0 != Set::<u64>::empty() by {
            let k = self.index_of(n);
            self.lemma_index(k);
            assert(v[n].0.remove(c) =~= v[n].0);
            assert(v[n].0.contains(self.rooms@[k].members@[0]));
        }
        assert(self.view() =~= without_member(self.view(), c));
    }

    proof fn lemma_leave_kept(&self, o: RoomRegistry, i: int, c: u64)
        requires
            o.wf(),
            0 <= i < o.rooms@.len(),
            self.rooms@.len() == o.rooms@.len(),
            forall|k: int| 0 <= k < o.rooms@.len() && k != i ==> self.rooms@[k] == o.rooms@[k],
            self.rooms@[i].name@ == o.rooms@[i].name@,
            self.rooms@[i].state == o.rooms@[i].state,
            self.rooms@[i].members@.len() > 0,
            self.rooms@[i].members@.no_duplicates(),
            o.rooms@[i].members@.contains(c),
            forall|x: u64|
                self.rooms@[i].members@.contains(x) <==> (o.rooms@[i].members@.contains(x) && x
                    != c),
            self.rooms@[i].members@.to_set() == o.rooms@[i].members@.to_set().remove(c),
        ensures
            self.wf(),
            self.view() == without_member(o.view(), c),
            forall|k: int|
                0 <= k < self.rooms@.len() ==> !(#[trigger] self.rooms@[k]).members@.contains(c),
    {
        let v0 = o.view();
        let expected = without_member(v0, c);
        assert forall|k: int| 0 <= k < self.rooms@.len() implies !(#[trigger] self.rooms@[k]).members@.contains(c) by {
            if k != i {
                assert(!o.rooms@[k].members@.contains(c));
            }
        }
        assert forall|k: int, l: int, x: u64|
            0 <= k < self.rooms@.len() && 0 <= l < self.rooms@.len() && k != l
                && self.rooms@[k].members@.contains(x) implies !self.rooms@[l].members@.contains(x) by {
            assert(o.rooms@[k].members@.contains(x));
            if self.rooms@[l].members@.contains(x) {
                assert(o.rooms@[l].members@.contains(x));
            }
        }
        assert forall|k: int| 0 <= k < self.rooms@.len() implies expected.contains_key(
            (#[trigger] self.rooms@[k]).name@,
        ) && expected[self.rooms@[k].name@] == (
            self.rooms@[k].members@.to_set(),
            self.rooms@[k].state,
        ) by {
            o.lemma_index(k);
            let n = self.rooms@[k].name@;
            assert(self.rooms@[k].members@.to_set().contains(self.rooms@[k].members@[0]));
            if k != i {
                assert(!o.rooms@[k].members@.contains(c));
                assert(v0[n].0.remove(c) =~= v0[n].0);
            }
        }
        assert forall|n: Seq<char>| #[trigger] expected.contains_key(n) implies self.has(n) by {
            let k = o.index_of(n);
            assert(self.rooms@[k].name@ == n);
        }
        self.lemma_view_is(expected);
    }

    proof fn lemma_leave_dropped(&self, o: RoomRegistry, i: int, c: u64)
        requires
            o.wf(),
            0 <= i < o.rooms@.len(),
            self.rooms@ == o.rooms@.remove(i),
            o.rooms@[i].members@ == seq![c],
        ensures
            self.wf(),
            self.view() == without_member(o.view(), c),
            forall|k: int|
                0 <= k < self.rooms@.len() ==> !(#[trigger] self.rooms@[k]).members@.contains(c),
    {
        let v0 = o.view();
        let expected = without_member(v0, c);
        assert(o.rooms@[i].members@.contains(c)) by {
            assert(o.rooms@[i].members@[0] == c);
        }
        assert forall|k: int| 0 <= k < self.rooms@.len() implies !(#[trigger] self.rooms@[k]).members@.contains(c) by {
            let ok = if k < i { k } else { k + 1 };
            assert(self.rooms@[k] == o.rooms@[ok]);
        }
        assert forall|k: int, l: int|
            0 <= k < l < self.rooms@.len() implies self.rooms@[k].name@ != self.rooms@[l].name@ by {
            let ok = if k < i { k } else { k + 1 };
            let ol = if l < i { l } else { l + 1 };
            assert(self.rooms@[k] == o.rooms@[ok]);
            assert(self.rooms@[l] == o.rooms@[ol]);
        }
        assert forall|k: int, l: int, x: u64|
            0 <= k < self.rooms@.len() && 0 <= l < self.rooms@.len() && k != l
                && self.rooms@[k].members@.contains(x) implies !self.rooms@[l].members@.contains(x) by {
            let ok = if k < i { k } else { k + 1 };
            let ol = if l < i { l } else { l + 1 };
            assert(self.rooms@[k] == o.rooms@[ok]);
            assert(self.rooms@[l] == o.rooms@[ol]);
        }
        assert forall|k: int| 0 <= k < self.rooms@.len() implies expected.contains_key(
            (#[trigger] self.rooms@[k]).name@,
        ) && expected[self.rooms@[k].name@] == (
            self.rooms@[k].members@.to_set(),
            self.rooms@[k].state,
        ) by {
            let ok = if k < i { k } else { k + 1 };
            assert(self.rooms@[k] == o.rooms@[ok]);
            o.lemma_index(ok);
            let n = self.rooms@[k].name@;
            assert(self.rooms@[k].members@.to_set().contains(self.rooms@[k].members@[0]));
            assert(!o.rooms@[ok].members@.contains(c));
            assert(v0[n].0.remove(c) =~= v0[n].0);
        }
        assert forall|n: Seq<char>| #[trigger] expected.contains_key(n) implies self.has(n) by {
            let ok = o.index_of(n);
            o.lemma_index(ok);
            if ok == i {
                assert(v0[n].0 =~= set![c]);
                assert(v0[n].0.remove(c) =~= Set::<u64>::empty());
            }
            let k = if ok < i { ok } else { ok - 1 };
            assert(self.rooms@[k] == o.rooms@[ok]);
        }
        self.lemma_view_is(expected);
    }
}

impl RoomRegistry {
    /// Client `c` joins the room that `raw` sanitizes to, leaving any other
    /// room first. A room that does not exist is created with the default
    /// state. Returns the stored name and the room's state; joining the
    /// room one is already in changes nothing.
    pub fn join(&mut self, raw: &str, c: u64) -> (r: (String, PlaybackState))
        requires
            old(self).wf(),
        ensures
            final(self).wf(),
            r.0@ == sanitized(raw@),
            final(self).view() == with_member(
                if room_of(old(self).view(), c) == Some(sanitized(raw@)) {
                    old(self).view()
                } else {
                    without_member(old(self).view(), c)
                },
                sanitized(raw@),
                c,
            ),
            r.1 == final(self).view()[sanitized(raw@)].1,
    {
        let name = sanitize_room_name(raw);
        if let Some(i) = self.find(&name) {
            if vec_contains(&self.rooms[i].members, c) {
                proof {
                    self.lemma_member_room(i as int, c);
                    self.lemma_index(i as int);
                    let v = self.view();
                    assert(v[name@].0.insert(c) =~= v[name@].0);
                    assert(v.insert(name@, (v[name@].0.insert(c), v[name@].1)) =~= v);
                }
                return (name, self.rooms[i].state);
            }
        }
        let _ = self.leave(c);
        let ghost o = *self;
        let ghost base = self.view();
        match self.find(&name) {
            Some(i) => {
                let mut room = self.rooms.remove(i);
                room.members.push(c);
                let state = room.state;
                self.rooms.insert(i, room);
                proof {
                    assert(forall|k: int| 0 <= k < o.rooms@.len() && k != i ==> self.rooms@[k] == o.rooms@[k]);
                    self.lemma_joined_existing(o, i as int, c);
                }
                (name, state)
            },
            None => {
                let state = PlaybackState::initial();
                let mut members: Vec<u64> = Vec::new();
                members.push(c);
                self.rooms.push(Room { name: name.clone(), members, state });
                proof {
                    self.lemma_joined_new(o, name@, c);
                }
                (name, state)
            },
        }
    }

    proof fn lemma_joined_existing(&self, o: RoomRegistry, i: int, c: u64)
        requires
            o.wf(),
            0 <= i < o.rooms@.len(),
            forall|k: int| 0 <= k < o.rooms@.len() ==> !(#[trigger] o.rooms@[k]).members@.contains(c),
            self.rooms@.len() == o.rooms@.len(),
            forall|k: int| 0 <= k < o.rooms@.len() && k != i ==> self.rooms@[k] == o.rooms@[k],
            self.rooms@[i].name@ == o.rooms@[i].name@,
            self.rooms@[i].state == o.rooms@[i].state,
            self.rooms@[i].members@ == o.rooms@[i].members@.push(c),
        ensures
            self.wf(),
            self.view() == with_member(o.view(), o.rooms@[i].name@, c),
            self.view()[o.rooms@[i].name@].1 == o.rooms@[i].state,
    {
        let v0 = o.view();
        let n0 = o.rooms@[i].name@;
        let expected = with_member(v0, n0, c);
        o.lemma_index(i);
        let om = o.rooms@[i].members@;
        let nm = self.rooms@[i].members@;
        assert(forall|x: u64| nm.contains(x) <==> (om.contains(x) || x == c)) by {
            assert forall|x: u64| nm.contains(x) implies (om.contains(x) || x == c) by {
                let m = choose|m: int| 0 <= m < nm.len() && nm[m] == x;
                if m < om.len() {
                    assert(om[m] == x);
                }
            }
            assert forall|x: u64| om.contains(x) implies nm.contains(x) by {
                let m = choose|m: int| 0 <= m < om.len() && om[m] == x;
                assert(nm[m] == x);
            }
            assert(nm[om.len() as int] == c);
        }
        assert(nm.to_set() =~= om.to_set().insert(c));
        assert forall|k: int, l: int, x: u64|
            0 <= k < self.rooms@.len() && 0 <= l < self.rooms@.len() && k != l
                && self.rooms@[k].members@.contains(x) implies !self.rooms@[l].members@.contains(x) by {
            if k != i && l != i {
                assert(self.rooms@[k] == o.rooms@[k]);
                assert(self.rooms@[l] == o.rooms@[l]);
            } else if k == i {
                assert(self.rooms@[l] == o.rooms@[l]);
            } else {
                assert(self.rooms@[k] == o.rooms@[k]);
                assert(o.rooms@[k].members@.contains(x));
            }
        }
        assert forall|a: int, b: int| 0 <= a < b < nm.len() implies nm[a] != nm[b] by {
            if b == om.len() {
                assert(om.contains(nm[a]));
            } else {
                assert(nm[a] == om[a] && nm[b] == om[b]);
            }
        }
        assert(self.wf()) by {
            assert forall|k: int| 0 <= k < self.rooms@.len() && k != i implies #[trigger] self.rooms@[k] == o.rooms@[k] by {}
        }
        assert forall|k: int| 0 <= k < self.rooms@.len() implies expected.contains_key(
            (#[trigger] self.rooms@[k]).name@,
        ) && expected[self.rooms@[k].name@] == (
            self.rooms@[k].members@.to_set(),
            self.rooms@[k].state,
        ) by {
            o.lemma_index(k);
            if k != i {
                assert(self.rooms@[k] == o.rooms@[k]);
                assert(o.rooms@[k].name@ != n0);
            }
        }
        assert forall|n: Seq<char>| #[trigger] expected.contains_key(n) implies self.has(n) by {
            if n != n0 {
                let k = o.index_of(n);
                assert(self.rooms@[k].name@ == n);
            } else {
                assert(self.rooms@[i].name@ == n);
            }
        }
        self.lemma_view_is(expected);
    }

    proof fn lemma_joined_new(&self, o: RoomRegistry, n0: Seq<char>, c: u64)
        requires
            o.wf(),
            !o.view().contains_key(n0),
            forall|k: int| 0 <= k < o.rooms@.len() ==> !(#[trigger] o.rooms@[k]).members@.contains(c),
            self.rooms@.len() == o.rooms@.len() + 1,
            forall|k: int| 0 <= k < o.rooms@.len() ==> self.rooms@[k] == o.rooms@[k],
            self.rooms@.last().name@ == n0,
            self.rooms@.last().members@ == seq![c],
            self.rooms@.last().state == default_state(),
        ensures
            self.wf(),
            self.view() == with_member(o.view(), n0, c),
            self.view()[n0].1 == default_state(),
    {
        let v0 = o.view();
        let expected = with_member(v0, n0, c);
        let last = o.rooms@.len() as int;
        assert(self.rooms@[last] == self.rooms@.last());
        assert(self.rooms@[last].members@[0] == c);
        assert forall|k: int| 0 <= k < o.rooms@.len() implies o.rooms@[k].name@ != n0 by {
            o.lemma_index(k);
        }
        assert forall|k: int, l: int, x: u64|
            0 <= k < self.rooms@.len() && 0 <= l < self.rooms@.len() && k != l
                && self.rooms@[k].members@.contains(x) implies !self.rooms@[l].members@.contains(x) by {
            if k != last && l != last {
                assert(self.rooms@[k] == o.rooms@[k]);
                assert(self.rooms@[l] == o.rooms@[l]);
            } else if k == last {
                assert(self.rooms@[l] == o.rooms@[l]);
                assert(x == c);
            } else {
                assert(self.rooms@[k] == o.rooms@[k]);
                if self.rooms@[l].members@.contains(x) {
                    assert(x == c);
                }
            }
        }
        assert forall|k: int| 0 <= k < self.rooms@.len() implies expected.contains_key(
            (#[trigger] self.rooms@[k]).name@,
        ) && expected[self.rooms@[k].name@] == (
            self.rooms@[k].members@.to_set(),
            self.rooms@[k].state,
        ) by {
            if k != last {
                assert(self.rooms@[k] == o.rooms@[k]);
                o.lemma_index(k);
            } else {
                assert(seq![c].to_set() =~= set![c]);
            }
        }
        assert forall|n: Seq<char>| #[trigger] expected.contains_key(n) implies self.has(n) by {
            if n != n0 {
                let k = o.index_of(n);
                assert(self.rooms@[k] == o.rooms@[k]);
            } else {
                assert(self.rooms@[last].name@ == n);
            }
        }
        self.lemma_view_is(expected);
    }
}

impl RoomRegistry {
    /// Merges `upd` into the state of room `n` by last writer wins.
    /// Refused, with nothing changed, where the room does not exist or the
    /// position is negative. `Ok` says whether the update took effect.
    pub fn apply_sync(&mut self, n: &String, upd: PlaybackState) -> (r: Result<bool, SyncError>)
        requires
            old(self).wf(),
        ensures
            final(self).wf(),
            !old(self).view().contains_key(n@) ==> r == Err::<bool, SyncError>(
                SyncError::UnknownRoom,
            ) && final(self).view() == old(self).view(),
            old(self).view().contains_key(n@) && upd.position_ms < 0 ==> r == Err::<
                bool,
                SyncError,
            >(SyncError::NegativePosition) && final(self).view() == old(self).view(),
            old(self).view().contains_key(n@) && upd.position_ms >= 0 ==> r == Ok::<
                bool,
                SyncError,
            >(upd.updated_at >= old(self).view()[n@].1.updated_at) && final(self).view()
                == old(self).view().insert(
                n@,
                (old(self).view()[n@].0, merge(old(self).view()[n@].1, upd)),
            ),
    {
        let ghost o = *self;
        match self.find(n) {
            None => Err(SyncError::UnknownRoom),
            Some(i) => {
                if upd.position_ms < 0 {
                    return Err(SyncError::NegativePosition);
                }
                let mut room = self.rooms.remove(i);
                let r = room.state.apply(upd);
                self.rooms.insert(i, room);
                proof {
                    o.lemma_index(i as int);
                    assert(forall|k: int| 0 <= k < o.rooms@.len() && k != i ==> self.rooms@[k] == o.rooms@[k]);
                    let v0 = o.view();
                    let expected = v0.insert(n@, (v0[n@].0, merge(v0[n@].1, upd)));
                    assert forall|k: int, l: int| 0 <= k < l < self.rooms@.len() implies self.rooms@[k].name@ != self.rooms@[l].name@ by {
                        assert(o.rooms@[k].name@ != o.rooms@[l].name@);
                    }
                    assert forall|k: int, l: int, x: u64|
                        0 <= k < self.rooms@.len() && 0 <= l < self.rooms@.len() && k != l
                            && self.rooms@[k].members@.contains(x) implies !self.rooms@[l].members@.contains(x) by {
                        assert(o.rooms@[k].members@ == self.rooms@[k].members@);
                        assert(o.rooms@[l].members@ == self.rooms@[l].members@);
                    }
                    assert forall|k: int| 0 <= k < self.rooms@.len() implies expected.contains_key(
                        (#[trigger] self.rooms@[k]).name@,
                    ) && expected[self.rooms@[k].name@] == (
                        self.rooms@[k].members@.to_set(),
                        self.rooms@[k].state,
                    ) by {
                        o.lemma_index(k);
                    }
                    assert forall|m: Seq<char>| #[trigger] expected.contains_key(m) implies self.has(m) by {
                        if m != n@ {
                            let k = o.index_of(m);
                            assert(self.rooms@[k].name@ == m);
                        } else {
                            assert(self.rooms@[i as int].name@ == m);
                        }
                    }
                    self.lemma_view_is(expected);
                }
                r
            },
        }
    }

    /// The members of room `n` at this moment, each once; empty where the
    /// room does not exist.
    pub fn members_of(&self, n: &String) -> (r: Vec<u64>)
        requires
            self.wf(),
        ensures
            r@.no_duplicates(),
            self.view().contains_key(n@) ==> r@.to_set() == self.view()[n@].0,
            !self.view().contains_key(n@) ==> r@.len() == 0,
    {
        match self.find(n) {
            None => Vec::new(),
            Some(i) => {
                proof {
                    self.lemma_index(i as int);
                }
                self.rooms[i].members.clone()
            },
        }
    }
}

/// A room is in the registry exactly while it has a member: every room
/// that a well-formed registry holds has at least one.
pub proof fn lemma_rooms_have_members(reg: RoomRegistry, n: Seq<char>)
    requires
        reg.wf(),
    ensures
        reg.view().contains_key(n) ==> reg.view()[n].0 != Set::<u64>::empty(),
{
    if reg.view().contains_key(n) {
        let k = reg.index_of(n);
        reg.lemma_index(k);
        assert(reg.view()[n].0.contains(reg.rooms@[k].members@[0]));
    }
}

/// Every room of `v` has at least one member.
pub open spec fn rooms_occupied(v: Map<Seq<char>, RoomModel>) -> bool {
    forall|n: Seq<char>| #[trigger] v.contains_key(n) ==> v[n].0 != Set::<u64>::empty()
}

/// Joins and leaves, in any order, never leave an empty room behind and
/// never show a room without a member: each keeps every room occupied.
pub proof fn lemma_joins_keep_rooms_occupied(v: Map<Seq<char>, RoomModel>, n: Seq<char>, c: u64)
    requires
        rooms_occupied(v),
    ensures
        rooms_occupied(with_member(v, n, c)),
        rooms_occupied(without_member(v, c)),
{
    let w = with_member(v, n, c);
    assert forall|m: Seq<char>| #[trigger] w.contains_key(m) implies w[m].0 != Set::<u64>::empty() by {
        if m == n {
            assert(w[m].0.contains(c));
        }
    }
}

/// Once client `c` has left, it is in no room.
pub proof fn lemma_left_in_no_room(v: Map<Seq<char>, RoomModel>, c: u64)
    ensures
        room_of(without_member(v, c), c) is None,
{
}

/// Joining a room that does not exist creates it with the default state;
/// joining one that exists keeps its state.
pub proof fn lemma_join_state(v: Map<Seq<char>, RoomModel>, n: Seq<char>, c: u64)
    ensures
        with_member(v, n, c).contains_key(n),
        with_member(v, n, c)[n].0.contains(c),
        with_member(v, n, c)[n].1 == if v.contains_key(n) {
            v[n].1
        } else {
            default_state()
        },
{
}

/// When the last member of a room leaves, the room is gone, and the next
/// join under that name starts from the default state.
pub proof fn lemma_last_leave_resets(v: Map<Seq<char>, RoomModel>, n: Seq<char>, c: u64, d: u64)
    requires
        v.contains_key(n),
        v[n].0 == set![c],
    ensures
        !without_member(v, c).contains_key(n),
        with_member(without_member(v, c), n, d)[n].1 == default_state(),
{
    assert(v[n].0.remove(c) =~= Set::<u64>::empty());
}

/// The position of `x` in `v`, which holds it.
fn index_in(v: &Vec<u64>, x: u64) -> (r: usize)
    requires
        v@.contains(x),
    ensures
        r < v@.len(),
        v@[r as int] == x,
{
    let mut i: usize = 0;
    while i < v.len()
        invariant
            i <= v@.len(),
            v@.contains(x),
            forall|k: int| 0 <= k < i ==> v@[k] != x,
        decreases v@.len() - i,
    {
        if v[i] == x {
            return i;
        }
        i = i + 1;
    }
    i
}

/// Whether `v` holds `x`.
pub fn vec_contains(v: &Vec<u64>, x: u64) -> (r: bool)
    ensures
        r == v@.contains(x),
{
    let mut i: usize = 0;
    while i < v.len()
        invariant
            i <= v@.len(),
            forall|k: int| 0 <= k < i ==> v@[k] != x,
        decreases v@.len() - i,
    {
        if v[i] == x {
            return true;
        }
        i = i + 1;
    }
    false
}

} // verus!
