//! The abstract state of the replacement policy and what each operation does
//! to it.

use vstd::prelude::*;
use crate::seqs::{frames_of, last_in_frames, without, without_frame, Entry, FrameId, PageId};

verus! {

/// The policy's state as mathematical values. Lists are written front first.
#[verifier::ext_equal]
pub struct ArcView {
    /// Resident entries seen once recently.
    pub mru: Seq<Entry>,
    /// Resident entries seen two or more times.
    pub mfu: Seq<Entry>,
    /// Pages evicted from the recency side.
    pub mru_ghost: Seq<PageId>,
    /// Pages evicted from the frequency side.
    pub mfu_ghost: Seq<PageId>,
    /// Target size of the recency list.
    pub target: nat,
    /// Number of frames the policy is sized for.
    pub capacity: nat,
    /// Frames that may be evicted.
    pub evictable: Set<FrameId>,
    /// Pages flagged dirty.
    pub dirty: Set<PageId>,
    /// Entries that carry a last-access time.
    pub stamped: Set<Entry>,
}

impl ArcView {
    pub open spec fn is_resident(self, e: Entry) -> bool {
        self.mru.contains(e) || self.mfu.contains(e)
    }

    /// The frames that hold a resident entry.
    pub open spec fn resident_frames(self) -> Set<FrameId> {
        frames_of(self.mru).union(frames_of(self.mfu))
    }

    pub open spec fn resident_len(self) -> nat {
        self.mru.len() + self.mfu.len()
    }

    /// Number of entries over all four lists.
    pub open spec fn tracked_len(self) -> nat {
        self.mru.len() + self.mfu.len() + self.mru_ghost.len() + self.mfu_ghost.len()
    }

    /// The bounds that the policy keeps on its lists and its target size.
    pub open spec fn bounded(self) -> bool {
        &&& self.target <= self.capacity
        &&& self.resident_len() <= self.capacity
        &&& self.mru.len() + self.mru_ghost.len() <= self.capacity
        &&& self.tracked_len() <= 2 * self.capacity
    }

    /// No entry is in both resident lists.
    pub open spec fn disjoint(self) -> bool {
        forall|e: Entry| !(#[trigger] self.mru.contains(e) && #[trigger] self.mfu.contains(e))
    }

    /// An access of `e` fits the pool: either `e` is resident already, or a
    /// frame is free to take the page in.
    pub open spec fn admits(self, e: Entry) -> bool {
        self.is_resident(e) || self.resident_len() < self.capacity
    }

    /// Target size after a hit in the recency ghost list.
    pub open spec fn grown_target(self) -> nat {
        let r = self.mru_ghost.len();
        let f = self.mfu_ghost.len();
        if r >= f && self.target + 1 < self.capacity {
            self.target + 1
        } else if r > 0 && self.target + f / r <= self.capacity {
            self.target + f / r
        } else {
            self.target
        }
    }

    /// Target size after a hit in the frequency ghost list; a decrease that
    /// would go below zero is not applied.
    pub open spec fn shrunk_target(self) -> nat {
        let r = self.mru_ghost.len();
        let f = self.mfu_ghost.len();
        if f >= r && self.target > 1 {
            (self.target - 1) as nat
        } else if f == 0 {
            self.target
        } else if self.target >= r / f {
            (self.target - r / f) as nat
        } else {
            self.target
        }
    }
}

/// The state with a last-access time recorded for `e`.
pub open spec fn touched(v: ArcView, e: Entry) -> ArcView {
    ArcView { stamped: v.stamped.insert(e), ..v }
}

/// What an access of `page` through `frame` does.
pub open spec fn record_access_spec(v0: ArcView, frame: FrameId, page: PageId) -> ArcView {
    let e = (frame, page);
    let v = touched(v0, e);
    if v.is_resident(e) {
        ArcView { mru: without(v.mru, e), mfu: seq![e] + without(v.mfu, e), ..v }
    } else if v.mru_ghost.contains(page) {
        ArcView {
            target: v.grown_target(),
            mru_ghost: without(v.mru_ghost, page),
            mfu: seq![e] + v.mfu,
            ..v
        }
    } else if v.mfu_ghost.contains(page) {
        ArcView {
            target: v.shrunk_target(),
            mfu_ghost: without(v.mfu_ghost, page),
            mfu: seq![e] + v.mfu,
            ..v
        }
    } else if v.mru.len() + v.mru_ghost.len() == v.capacity {
        ArcView {
            mru_ghost: if v.mru_ghost.len() > 0 {
                v.mru_ghost.drop_last()
            } else {
                v.mru_ghost
            },
            mru: seq![e] + v.mru,
            ..v
        }
    } else if v.mru.len() + v.mru_ghost.len() < v.capacity {
        if v.tracked_len() == 2 * v.capacity {
            ArcView {
                mfu_ghost: if v.mfu_ghost.len() > 0 {
                    v.mfu_ghost.drop_last()
                } else {
                    v.mfu_ghost
                },
                mru: seq![e] + v.mru,
                ..v
            }
        } else {
            ArcView { mru: seq![e] + v.mru, ..v }
        }
    } else {
        v
    }
}

/// The state after the accesses of `s`, in order.
pub open spec fn after_accesses(v: ArcView, s: Seq<Entry>) -> ArcView
    decreases s.len(),
{
    if s.len() == 0 {
        v
    } else {
        record_access_spec(after_accesses(v, s.drop_last()), s.last().0, s.last().1)
    }
}

/// Eviction from the recency list: its last evictable entry goes, and its
/// page is put at the front of the recency ghost list.
pub open spec fn take_mru_spec(v: ArcView) -> (ArcView, Option<FrameId>) {
    let i = last_in_frames(v.mru, v.evictable);
    if i < 0 {
        (v, None)
    } else {
        let e = v.mru[i];
        (
            ArcView {
                mru: v.mru.remove(i),
                mru_ghost: seq![e.1] + v.mru_ghost,
                evictable: v.evictable.remove(e.0),
                stamped: v.stamped.remove(e),
                ..v
            },
            Some(e.0),
        )
    }
}

/// Eviction from the frequency list, into the frequency ghost list.
pub open spec fn take_mfu_spec(v: ArcView) -> (ArcView, Option<FrameId>) {
    let i = last_in_frames(v.mfu, v.evictable);
    if i < 0 {
        (v, None)
    } else {
        let e = v.mfu[i];
        (
            ArcView {
                mfu: v.mfu.remove(i),
                mfu_ghost: seq![e.1] + v.mfu_ghost,
                evictable: v.evictable.remove(e.0),
                stamped: v.stamped.remove(e),
                ..v
            },
            Some(e.0),
        )
    }
}

/// Eviction: the recency list is tried first when it is at least the target
/// size, the frequency list first otherwise; the other list comes second.
pub open spec fn evict_spec(v: ArcView) -> (ArcView, Option<FrameId>) {
    if v.mru.len() >= v.target {
        if take_mru_spec(v).1 is Some {
            take_mru_spec(v)
        } else {
            take_mfu_spec(v)
        }
    } else {
        if take_mfu_spec(v).1 is Some {
            take_mfu_spec(v)
        } else {
            take_mru_spec(v)
        }
    }
}

/// The page that `remove(frame)` takes out: that of the last entry held in
/// `frame` in the recency list, else in the frequency list.
pub open spec fn removed_page(v: ArcView, frame: FrameId) -> Option<PageId> {
    let i = last_in_frames(v.mru, set![frame]);
    let j = last_in_frames(v.mfu, set![frame]);
    if i >= 0 {
        Some(v.mru[i].1)
    } else if j >= 0 {
        Some(v.mfu[j].1)
    } else {
        None
    }
}

/// What `remove(frame)` does: the entries held in `frame` leave the list that
/// holds them, and the page leaves every other structure, ghost lists
/// included. A frame that holds no entry changes nothing.
pub open spec fn remove_spec(v: ArcView, frame: FrameId) -> ArcView {
    match removed_page(v, frame) {
        None => v,
        Some(page) => {
            let in_mru = last_in_frames(v.mru, set![frame]) >= 0;
            ArcView {
                mru: if in_mru {
                    without_frame(v.mru, frame)
                } else {
                    v.mru
                },
                mfu: if in_mru {
                    v.mfu
                } else {
                    without_frame(v.mfu, frame)
                },
                mru_ghost: without(v.mru_ghost, page),
                mfu_ghost: without(v.mfu_ghost, page),
                evictable: v.evictable.remove(frame),
                dirty: v.dirty.remove(page),
                stamped: v.stamped.remove((frame, page)),
                ..v
            }
        },
    }
}

/// What marking `frame` evictable does: only a frame that holds a resident
/// entry becomes evictable.
pub open spec fn set_evictable_spec(v: ArcView, frame: FrameId) -> ArcView {
    if v.resident_frames().contains(frame) {
        ArcView { evictable: v.evictable.insert(frame), ..v }
    } else {
        v
    }
}

} // verus!
