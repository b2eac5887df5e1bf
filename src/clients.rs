//! The client registry: each connected client's name and outbound queue.

use vstd::prelude::*;
use crate::messages::Frame;

verus! {

/// A bounded queue of frames waiting to go out, and whether the
/// connection behind it has closed.
pub struct Outbox {
    pub frames: Vec<Frame>,
    pub capacity: usize,
    pub closed: bool,
}

/// Why a frame could not be handed to a client.
#[derive(Clone, Copy, PartialEq, Eq, Debug, Structural)]
pub enum SendError {
    Unreachable,
}

/// Why a client could not be registered.
#[derive(Clone, Copy, PartialEq, Eq, Debug, Structural)]
pub enum RegisterError {
    DuplicateId,
}

impl Outbox {
    pub open spec fn accepts(&self) -> bool {
        !self.closed && self.frames@.len() < self.capacity
    }

    pub fn new(capacity: usize) -> (r: Outbox)
        ensures
            r.frames@.len() == 0,
            r.capacity == capacity,
            !r.closed,
    {
        Outbox { frames: Vec::new(), capacity, closed: false }
    }

    /// Queues `f` without blocking; a closed or full queue refuses it.
    pub fn deliver(&mut self, f: Frame) -> (r: Result<(), SendError>)
        ensures
            r is Ok <==> old(self).accepts(),
            r is Ok ==> final(self).frames@ == old(self).frames@.push(f),
            r is Err ==> *final(self) == *old(self),
            final(self).capacity == old(self).capacity,
            final(self).closed == old(self).closed,
    {
        if self.closed || self.frames.len() >= self.capacity {
            Err(SendError::Unreachable)
        } else {
            self.frames.push(f);
            Ok(())
        }
    }

    /// Hands out every queued frame, oldest first, and empties the queue.
    pub fn take_frames(&mut self) -> (r: Vec<Frame>)
        ensures
            r@ == old(self).frames@,
            final(self).frames@.len() == 0,
            final(self).capacity == old(self).capacity,
            final(self).closed == old(self).closed,
    {
        let mut out: Vec<Frame> = Vec::new();
        std::mem::swap(&mut out, &mut self.frames);
        out
    }

    pub fn close(&mut self)
        ensures
            final(self).closed,
            final(self).frames@ == old(self).frames@,
            final(self).capacity == old(self).capacity,
    {
        self.closed = true;
    }
}

pub struct Client {
    pub id: u64,
    pub name: String,
    pub outbox: Outbox,
}

pub struct ClientRegistry {
    pub clients: Vec<Client>,
}

impl ClientRegistry {
    /// No two clients share an id.
    pub open spec fn wf(&self) -> bool {
        forall|i: int, j: int|
            0 <= i < j < self.clients@.len() ==> self.clients@[i].id != self.clients@[j].id
    }

    pub open spec fn has(&self, id: u64) -> bool {
        exists|i: int| 0 <= i < self.clients@.len() && #[trigger] self.clients@[i].id == id
    }

    pub open spec fn index_of(&self, id: u64) -> int {
        choose|i: int| 0 <= i < self.clients@.len() && #[trigger] self.clients@[i].id == id
    }

    /// The registered client with this id.
    pub open spec fn client(&self, id: u64) -> Client {
        self.clients@[self.index_of(id)]
    }

    /// Whether a frame for `id` would be queued now.
    pub open spec fn reachable(&self, id: u64) -> bool {
        self.has(id) && self.client(id).outbox.accepts()
    }

    pub proof fn lemma_index(&self, i: int)
        requires
            self.wf(),
            0 <= i < self.clients@.len(),
        ensures
            self.has(self.clients@[i].id),
            self.index_of(self.clients@[i].id) == i,
    {
        let k = self.index_of(self.clients@[i].id);
        if k != i {
            if k < i {
                assert(self.clients@[k].id != self.clients@[i].id);
            } else {
                assert(self.clients@[i].id != self.clients@[k].id);
            }
        }
    }

    pub fn new() -> (r: ClientRegistry)
        ensures
            r.wf(),
            r.clients@.len() == 0,
    {
        ClientRegistry { clients: Vec::new() }
    }

    pub fn find(&self, id: u64) -> (r: Option<usize>)
        requires
            self.wf(),
        ensures
            r is None <==> !self.has(id),
            r matches Some(i) ==> i == self.index_of(id) && i < self.clients@.len()
                && self.clients@[i as int].id == id,
    {
        let mut i: usize = 0;
        while i < self.clients.len()
            invariant
                self.wf(),
                i <= self.clients@.len(),
                forall|k: int| 0 <= k < i ==> self.clients@[k].id != id,
            decreases self.clients@.len() - i,
        {
            if self.clients[i].id == id {
                proof {
                    self.lemma_index(i as int);
                }
                return Some(i);
            }
            i = i + 1;
        }
        None
    }

    /// Adds a client with an empty queue of `capacity` frames; an id that is
    /// taken is refused and nothing changes.
    pub fn register(&mut self, id: u64, name: String, capacity: usize) -> (r: Result<
        (),
        RegisterError,
    >)
        requires
            old(self).wf(),
        ensures
            final(self).wf(),
            old(self).has(id) ==> r == Err::<(), RegisterError>(RegisterError::DuplicateId)
                && final(self).clients@ == old(self).clients@,
            !old(self).has(id) ==> r is Ok && final(self).clients@.len() == old(
                self,
            ).clients@.len() + 1 && final(self).clients@.drop_last() == old(self).clients@
                && final(self).clients@.last().id == id && final(self).clients@.last().name
                == name && final(self).clients@.last().outbox.frames@.len() == 0
                && final(self).clients@.last().outbox.capacity == capacity
                && !final(self).clients@.last().outbox.closed,
    {
        if self.find(id).is_some() {
            return Err(RegisterError::DuplicateId);
        }
        self.clients.push(Client { id, name, outbox: Outbox::new(capacity) });
        proof {
            assert(self.clients@.drop_last() =~= old(self).clients@);
        }
        Ok(())
    }

    /// Removes client `id`; removing an absent id changes nothing.
    /// Returns whether a client was removed.
    pub fn deregister(&mut self, id: u64) -> (r: bool)
        requires
            old(self).wf(),
        ensures
            final(self).wf(),
            r == old(self).has(id),
            !final(self).has(id),
            r ==> final(self).clients@ == old(self).clients@.remove(old(self).index_of(id)),
            !r ==> final(self).clients@ == old(self).clients@,
    {
        match self.find(id) {
            None => false,
            Some(i) => {
                self.clients.remove(i);
                proof {
                    let o = old(self).clients@;
                    assert forall|k: int| 0 <= k < self.clients@.len() implies #[trigger] self.clients@[k].id != id by {
                        let ok = if k < i { k } else { k + 1 };
                        assert(self.clients@[k] == o[ok]);
                    }
                    assert forall|k: int, l: int| 0 <= k < l < self.clients@.len() implies self.clients@[k].id != self.clients@[l].id by {
                        let ok = if k < i { k } else { k + 1 };
                        let ol = if l < i { l } else { l + 1 };
                        assert(self.clients@[k] == o[ok]);
                        assert(self.clients@[l] == o[ol]);
                    }
                }
                true
            },
        }
    }

    /// Queues `f` for client `id` without blocking. An absent client, or one
    /// whose queue is closed or full, is unreachable, and nothing changes.
    pub fn send(&mut self, id: u64, f: Frame) -> (r: Result<(), SendError>)
        requires
            old(self).wf(),
        ensures
            final(self).wf(),
            r is Ok <==> old(self).reachable(id),
            r is Ok ==> final(self).clients@ == old(self).clients@.update(
                old(self).index_of(id),
                Client {
                    outbox: Outbox {
                        frames: final(self).client(id).outbox.frames,
                        ..old(self).client(id).outbox
                    },
                    ..old(self).client(id)
                },
            ) && final(self).client(id).outbox.frames@ == old(self).client(id).outbox.frames@.push(f),
            r is Err ==> final(self).clients@ == old(self).clients@,
    {
        match self.find(id) {
            None => Err(SendError::Unreachable),
            Some(i) => {
                let mut c = self.clients.remove(i);
                let r = c.outbox.deliver(f);
                self.clients.insert(i, c);
                proof {
                    let o = old(self).clients@;
                    assert forall|k: int| 0 <= k < self.clients@.len() && k != i implies self.clients@[k] == o[k] by {}
                    assert forall|k: int, l: int| 0 <= k < l < self.clients@.len() implies self.clients@[k].id != self.clients@[l].id by {
                        assert(o[k].id != o[l].id);
                    }
                    self.lemma_index(i as int);
                    if r is Err {
                        assert(self.clients@ =~= o);
                    } else {
                        assert(self.clients@ =~= o.update(i as int, self.clients@[i as int]));
                    }
                }
                r
            },
        }
    }

    /// The name of client `id`, if registered.
    pub fn name_of(&self, id: u64) -> (r: Option<String>)
        requires
            self.wf(),
        ensures
            r is None <==> !self.has(id),
            r matches Some(n) ==> n == self.client(id).name,
    {
        match self.find(id) {
            None => None,
            Some(i) => Some(self.clients[i].name.clone()),
        }
    }

    /// Hands out the frames queued for client `id`, oldest first.
    pub fn take_frames(&mut self, id: u64) -> (r: Vec<Frame>)
        requires
            old(self).wf(),
        ensures
            final(self).wf(),
            forall|k: int| 0 <= k < final(self).clients@.len() ==> (#[trigger] final(self).clients@[k]).id == old(self).clients@[k].id,
            final(self).clients@.len() == old(self).clients@.len(),
            old(self).has(id) ==> r@ == old(self).client(id).outbox.frames@,
            !old(self).has(id) ==> r@.len() == 0,
    {
        match self.find(id) {
            None => Vec::new(),
            Some(i) => {
                let mut c = self.clients.remove(i);
                let r = c.outbox.take_frames();
                self.clients.insert(i, c);
                proof {
                    let o = old(self).clients@;
                    assert forall|k: int| 0 <= k < self.clients@.len() implies (#[trigger] self.clients@[k]).id == o[k].id by {}
                    assert forall|k: int, l: int| 0 <= k < l < self.clients@.len() implies self.clients@[k].id != self.clients@[l].id by {
                        assert(o[k].id != o[l].id);
                    }
                }
                r
            },
        }
    }
}

/// The queue of client `o` once `f` has gone to each of `targets` but
/// `except` whose queue accepted it.
pub open spec fn frames_after(o: Client, targets: Seq<u64>, except: u64, f: Frame) -> Seq<Frame> {
    if targets.contains(o.id) && o.id != except && o.outbox.accepts() {
        o.outbox.frames@.push(f)
    } else {
        o.outbox.frames@
    }
}

impl ClientRegistry {
    /// Queues `f` for every client of `targets` but `except`. A client that
    /// is absent, closed or full does not hold up the rest: it is listed in
    /// the result, and every other target gets `f` at the end of its queue.
    pub fn broadcast(&mut self, targets: &Vec<u64>, except: u64, f: &Frame) -> (failed: Vec<u64>)
        requires
            old(self).wf(),
            targets@.no_duplicates(),
        ensures
            final(self).wf(),
            final(self).clients@.len() == old(self).clients@.len(),
            forall|k: int|
                0 <= k < old(self).clients@.len() ==> (#[trigger] final(self).clients@[k]).id == old(self).clients@[k].id
                    && final(self).clients@[k].name == old(self).clients@[k].name
                    && final(self).clients@[k].outbox.capacity == old(self).clients@[k].outbox.capacity
                    && final(self).clients@[k].outbox.closed == old(self).clients@[k].outbox.closed
                    && final(self).clients@[k].outbox.frames@ == frames_after(old(self).clients@[k], targets@, except, *f),
            forall|m: u64|
                #[trigger] failed@.contains(m) <==> (targets@.contains(m) && m != except
                    && !old(self).reachable(m)),
    {
        let ghost o = *self;
        let mut failed: Vec<u64> = Vec::new();
        let mut i: usize = 0;
        while i < targets.len()
            invariant
                o.wf(),
                self.wf(),
                targets@.no_duplicates(),
                i <= targets@.len(),
                self.clients@.len() == o.clients@.len(),
                forall|k: int|
                    0 <= k < o.clients@.len() ==> (#[trigger] self.clients@[k]).id == o.clients@[k].id
                        && self.clients@[k].name == o.clients@[k].name
                        && self.clients@[k].outbox.capacity == o.clients@[k].outbox.capacity
                        && self.clients@[k].outbox.closed == o.clients@[k].outbox.closed
                        && self.clients@[k].outbox.frames@ == frames_after(o.clients@[k], targets@.take(i as int), except, *f),
                forall|m: u64|
                    #[trigger] failed@.contains(m) <==> (targets@.take(i as int).contains(m) && m != except
                        && !o.reachable(m)),
            decreases targets@.len() - i,
        {
            let t = targets[i];
            let ghost before = self.clients@;
            let ghost pre = targets@.take(i as int);
            let ghost post = targets@.take(i + 1);
            proof {
                assert(post =~= pre.push(t));
                assert(!pre.contains(t)) by {
                    if pre.contains(t) {
                        let j = choose|j: int| 0 <= j < pre.len() && pre[j] == t;
                        assert(targets@[j] == targets@[i as int]);
                    }
                }
                assert(forall|m: u64| m != t ==> (post.contains(m) <==> pre.contains(m)));
                assert(post.contains(t)) by { assert(post[i as int] == t); }
            }
            if t != except {
                let ghost cur = *self;
                let r = self.send(t, f.duplicate());
                proof {
                    if cur.has(t) {
                        let kt = cur.index_of(t);
                        o.lemma_index(kt);
                        assert(o.index_of(t) == kt);
                        assert(cur.reachable(t) == o.reachable(t));
                    } else {
                        assert(!o.has(t)) by {
                            if o.has(t) {
                                let kt = o.index_of(t);
                                assert(cur.clients@[kt].id == t);
                            }
                        }
                    }
                }
                let ghost fb = failed@;
                if r.is_err() {
                    failed.push(t);
                }
                proof {
                    assert forall|k: int| 0 <= k < o.clients@.len() implies (#[trigger] self.clients@[k]).id == o.clients@[k].id
                        && self.clients@[k].name == o.clients@[k].name
                        && self.clients@[k].outbox.capacity == o.clients@[k].outbox.capacity
                        && self.clients@[k].outbox.closed == o.clients@[k].outbox.closed
                        && self.clients@[k].outbox.frames@ == frames_after(o.clients@[k], post, except, *f) by {
                        assert(cur.clients@[k].id == o.clients@[k].id);
                        let ok_k = o.clients@[k];
                        if ok_k.id != t {
                            assert(frames_after(ok_k, pre, except, *f) == frames_after(ok_k, post, except, *f));
                            if r is Ok {
                                let kt = cur.index_of(t);
                                cur.lemma_index(kt);
                                assert(k != kt);
                                assert(self.clients@[k] == cur.clients@[k]);
                            }
                        } else {
                            cur.lemma_index(k);
                            assert(cur.index_of(t) == k);
                            assert(frames_after(ok_k, pre, except, *f) == ok_k.outbox.frames@);
                            assert(cur.clients@[k].outbox.frames@ == ok_k.outbox.frames@);
                            assert(cur.client(t).outbox.accepts() == ok_k.outbox.accepts());
                        }
                    }
                    assert forall|m: u64| #[trigger] failed@.contains(m) <==> (post.contains(m) && m != except && !o.reachable(m)) by {
                        if r is Err {
                            assert(failed@ == fb.push(t));
                            if failed@.contains(m) && m != t {
                                let j = choose|j: int| 0 <= j < failed@.len() && failed@[j] == m;
                                assert(j < fb.len());
                                assert(fb[j] == m);
                            }
                            if fb.contains(m) {
                                let j = choose|j: int| 0 <= j < fb.len() && fb[j] == m;
                                assert(failed@[j] == m);
                            }
                            assert(failed@[fb.len() as int] == t);
                        }
                    }
                }
            } else {
                proof {
                    assert forall|k: int| 0 <= k < o.clients@.len() implies (#[trigger] self.clients@[k]).id == o.clients@[k].id
                        && self.clients@[k].outbox.frames@ == frames_after(o.clients@[k], post, except, *f) by {
                        assert(self.clients@[k].id == o.clients@[k].id);
                        assert(frames_after(o.clients@[k], pre, except, *f) == frames_after(o.clients@[k], post, except, *f));
                    }
                }
            }
            i = i + 1;
        }
        proof {
            assert(targets@.take(targets@.len() as int) =~= targets@);
        }
        failed
    }
}

} // verus!
