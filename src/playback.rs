//! Shared playback state and the last-writer-wins merge of updates.

use vstd::prelude::*;

verus! {

/// Where a room's media stands: position in milliseconds, whether it is
/// paused, and when (milliseconds since the epoch) the state was set.
#[derive(Clone, Copy, PartialEq, Eq, Debug, Structural)]
pub struct PlaybackState {
    pub position_ms: i64,
    pub paused: bool,
    pub updated_at: u64,
}

/// Why a playback update was refused.
#[derive(Clone, Copy, PartialEq, Eq, Debug, Structural)]
pub enum SyncError {
    UnknownRoom,
    NegativePosition,
}

/// The state of a room that was just created.
pub open spec fn default_state() -> PlaybackState {
    PlaybackState { position_ms: 0, paused: true, updated_at: 0 }
}

/// Last writer wins on `updated_at`; an update with the same timestamp
/// arrived later and so wins the tie.
pub open spec fn merge(cur: PlaybackState, upd: PlaybackState) -> PlaybackState {
    if upd.updated_at >= cur.updated_at {
        upd
    } else {
        cur
    }
}

/// The state after `upds` reach a room in this order, starting from `init`;
/// updates with a negative position are refused and change nothing.
pub open spec fn replay(init: PlaybackState, upds: Seq<PlaybackState>) -> PlaybackState
    decreases upds.len(),
{
    if upds.len() == 0 {
        init
    } else {
        let prev = replay(init, upds.drop_last());
        if upds.last().position_ms < 0 {
            prev
        } else {
            merge(prev, upds.last())
        }
    }
}

impl PlaybackState {
    pub fn initial() -> (r: PlaybackState)
        ensures
            r == default_state(),
    {
        PlaybackState { position_ms: 0, paused: true, updated_at: 0 }
    }

    /// Merges `upd` into `self`. A negative position is refused and leaves
    /// `self` as it was; otherwise `self` becomes `merge(self, upd)` and the
    /// result says whether `upd` took effect.
    pub fn apply(&mut self, upd: PlaybackState) -> (r: Result<bool, SyncError>)
        ensures
            upd.position_ms < 0 ==> r == Err::<bool, SyncError>(SyncError::NegativePosition)
                && *final(self) == *old(self),
            upd.position_ms >= 0 ==> r == Ok::<bool, SyncError>(
                upd.updated_at >= old(self).updated_at,
            ) && *final(self) == merge(*old(self), upd),
    {
        if upd.position_ms < 0 {
            return Err(SyncError::NegativePosition);
        }
        if upd.updated_at >= self.updated_at {
            *self = upd;
            Ok(true)
        } else {
            Ok(false)
        }
    }
}

/// Whatever order concurrent updates reach a room in, the visible state is
/// the starting state or an update that was accepted, its timestamp is the
/// latest among the accepted ones, and no refused update is ever visible.
pub proof fn lemma_replay_latest_wins(init: PlaybackState, upds: Seq<PlaybackState>)
    requires
        init.position_ms >= 0,
    ensures
        replay(init, upds).position_ms >= 0,
        replay(init, upds).updated_at >= init.updated_at,
        forall|i: int|
            0 <= i < upds.len() && upds[i].position_ms >= 0 ==> replay(init, upds).updated_at
                >= #[trigger] upds[i].updated_at,
        replay(init, upds) == init || exists|i: int|
            0 <= i < upds.len() && upds[i].position_ms >= 0 && replay(init, upds)
                == #[trigger] upds[i],
    decreases upds.len(),
{
    if upds.len() > 0 {
        let prev = upds.drop_last();
        lemma_replay_latest_wins(init, prev);
        assert(forall|i: int| 0 <= i < prev.len() ==> prev[i] == upds[i]);
        if replay(init, prev) != init {
            let k = choose|i: int|
                0 <= i < prev.len() && prev[i].position_ms >= 0 && replay(init, prev)
                    == #[trigger] prev[i];
            assert(upds[k] == prev[k]);
        }
        assert(upds[upds.len() - 1] == upds.last());
    }
}

} // verus!
