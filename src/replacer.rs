//! The replacement policy's executable state and its operations.

use std::collections::HashMap;
use std::collections::HashSet;
use std::collections::VecDeque;
use std::time::SystemTime;
use vstd::prelude::*;
use crate::lists::{
    contains_entry, contains_page, holds_frame, last_evictable, split_frame, without_entry,
    without_page,
};
use crate::model::{
    evict_spec, record_access_spec, remove_spec, set_evictable_spec, take_mfu_spec,
    take_mru_spec, touched, ArcView,
};
use crate::seqs::{
    frames_of, last_in_frames, lemma_contains_prepend, lemma_contains_shrink, lemma_frames_of_len, lemma_last_in_frames, lemma_without,
    lemma_without_frame, without, without_frame, Entry, FrameId, PageId,
};

verus! {

broadcast use vstd::std_specs::hash::group_hash_axioms;

/// The key under which the last access of an entry is kept: frame id in the
/// high half, page id in the low half.
pub open spec fn stamp_key(e: Entry) -> u64 {
    ((e.0 as u64) << 32u64) | (e.1 as u64)
}

fn stamp_key_of(frame: FrameId, page: PageId) -> (k: u64)
    ensures
        k == stamp_key((frame, page)),
{
    ((frame as u64) << 32u64) | (page as u64)
}

proof fn lemma_stamp_key_injective()
    ensures
        forall|a: Entry, b: Entry| #[trigger] stamp_key(a) == #[trigger] stamp_key(b) ==> a == b,
{
    assert forall|a: Entry, b: Entry| #[trigger] stamp_key(a) == #[trigger] stamp_key(b) implies a
        == b by {
        let a0 = a.0 as u64;
        let a1 = a.1 as u64;
        let b0 = b.0 as u64;
        let b1 = b.1 as u64;
        assert(a0 <= 0xffff_ffff && a1 <= 0xffff_ffff && b0 <= 0xffff_ffff && b1 <= 0xffff_ffff
            && ((a0 << 32u64) | a1) == ((b0 << 32u64) | b1) ==> a0 == b0 && a1 == b1)
            by (bit_vector);
    }
}

/// An evictable set inside the resident frames is finite and no larger than
/// the number of resident entries.
proof fn lemma_evictable_len(v: ArcView)
    requires
        v.evictable.subset_of(v.resident_frames()),
    ensures
        v.evictable.finite(),
        v.evictable.len() <= v.resident_len(),
{
    lemma_frames_of_len(v.mru);
    lemma_frames_of_len(v.mfu);
    vstd::set_lib::lemma_len_union(frames_of(v.mru), frames_of(v.mfu));
    vstd::set_lib::lemma_len_subset(v.evictable, v.resident_frames());
}

/// An entry's frame stays resident when the entry is moved to the front of
/// the frequency list and other entries keep their lists.
proof fn lemma_resident_frame(x: Entry, mru: Seq<Entry>, rest: Seq<Entry>, e: Entry, g: FrameId)
    requires
        x.0 == g,
        x != e ==> (mru.contains(x) || rest.contains(x)),
    ensures
        frames_of(mru).union(frames_of(seq![e] + rest)).contains(g),
{
    let mfu = seq![e] + rest;
    if x == e {
        assert(mfu[0] == e);
        assert(frames_of(mfu).contains(g));
    } else if mru.contains(x) {
        let j = choose|j: int| 0 <= j < mru.len() && mru[j] == x;
        assert(frames_of(mru).contains(g));
    } else {
        let j = choose|j: int| 0 <= j < rest.len() && rest[j] == x;
        assert(mfu[j + 1] == x);
        assert(frames_of(mfu).contains(g));
    }
}

/// Frames stay resident when each resident list only gains entries at its
/// front, or loses them at its back.
proof fn lemma_frames_grow(v: ArcView, w: ArcView)
    requires
        w.evictable == v.evictable,
        v.evictable.subset_of(v.resident_frames()),
        w.mru == v.mru || (w.mru.len() == v.mru.len() + 1 && w.mru.subrange(1, w.mru.len() as int) == v.mru),
        w.mfu == v.mfu || (w.mfu.len() == v.mfu.len() + 1 && w.mfu.subrange(1, w.mfu.len() as int) == v.mfu),
    ensures
        w.evictable.subset_of(w.resident_frames()),
{
    assert forall|g: FrameId| w.evictable.contains(g) implies w.resident_frames().contains(g) by {
        if frames_of(v.mru).contains(g) {
            let j = choose|j: int| 0 <= j < v.mru.len() && v.mru[j].0 == g;
            if w.mru != v.mru {
                assert(w.mru[j + 1] == w.mru.subrange(1, w.mru.len() as int)[j]);
                assert(frames_of(w.mru).contains(g));
            } else {
                assert(frames_of(w.mru).contains(g));
            }
        } else {
            let j = choose|j: int| 0 <= j < v.mfu.len() && v.mfu[j].0 == g;
            if w.mfu != v.mfu {
                assert(w.mfu[j + 1] == w.mfu.subrange(1, w.mfu.len() as int)[j]);
                assert(frames_of(w.mfu).contains(g));
            } else {
                assert(frames_of(w.mfu).contains(g));
            }
        }
    }
}

/// Taking the entry at `i` out of a list, and its frame out of the evictable
/// set, keeps every other evictable frame resident.
proof fn lemma_frames_after_remove(s: Seq<Entry>, i: int, ev: Set<FrameId>, other: Set<FrameId>)
    requires
        0 <= i < s.len(),
        ev.subset_of(frames_of(s).union(other)),
    ensures
        ev.remove(s[i].0).subset_of(frames_of(s.remove(i)).union(other)),
{
    assert forall|g: FrameId| ev.remove(s[i].0).contains(g) implies frames_of(s.remove(i)).union(
        other,
    ).contains(g) by {
        if !other.contains(g) {
            let j = choose|j: int| 0 <= j < s.len() && s[j].0 == g;
            if j < i {
                assert(s.remove(i)[j] == s[j]);
            } else {
                assert(s.remove(i)[j - 1] == s[j]);
            }
        }
    }
}

/// Adaptive Replacement Cache over the frames of a buffer pool.
pub struct ArcReplacer {
    /// Recency list: entries seen once recently, front first.
    pub mru: VecDeque<Entry>,
    /// Frequency list: entries seen two or more times, front first.
    pub mfu: VecDeque<Entry>,
    /// Last access time of each entry, under `stamp_key`.
    pub timestamp_access: HashMap<u64, SystemTime>,
    /// Pages evicted from the recency list, front first.
    pub mru_ghost: VecDeque<PageId>,
    /// Pages evicted from the frequency list, front first.
    pub mfu_ghost: VecDeque<PageId>,
    /// Target size of the recency list.
    pub mru_target_size: usize,
    /// Number of frames the policy is sized for.
    pub replacer_size: usize,
    /// Number of evictable frames.
    pub curr_size: usize,
    /// Pages flagged dirty.
    pub dirty_pages: HashSet<PageId>,
    /// Frames that may be evicted.
    pub evictable_pages: HashSet<FrameId>,
}

impl View for ArcReplacer {
    type V = ArcView;

    open spec fn view(&self) -> ArcView {
        ArcView {
            mru: self.mru@,
            mfu: self.mfu@,
            mru_ghost: self.mru_ghost@,
            mfu_ghost: self.mfu_ghost@,
            target: self.mru_target_size as nat,
            capacity: self.replacer_size as nat,
            evictable: self.evictable_pages@,
            dirty: self.dirty_pages@,
            stamped: Set::new(|e: Entry| self.timestamp_access@.contains_key(stamp_key(e))),
        }
    }
}

impl ArcReplacer {
    /// The policy's invariant: a positive capacity whose double fits in a
    /// `usize`, the list bounds, no entry in both resident lists, evictable
    /// frames all resident, and the evictable count equal to the number of
    /// evictable frames.
    pub open spec fn wf(&self) -> bool {
        &&& 0 < self.replacer_size <= usize::MAX / 2
        &&& self@.bounded()
        &&& self@.disjoint()
        &&& self@.evictable.subset_of(self@.resident_frames())
        &&& self.curr_size == self@.evictable.len()
    }

    /// An empty policy for `replacer_size` frames, with target size 0.
    pub fn new(replacer_size: usize) -> (r: Self)
        requires
            0 < replacer_size <= usize::MAX / 2,
        ensures
            r.wf(),
            r@ == (ArcView {
                mru: Seq::empty(),
                mfu: Seq::empty(),
                mru_ghost: Seq::empty(),
                mfu_ghost: Seq::empty(),
                target: 0,
                capacity: replacer_size as nat,
                evictable: Set::empty(),
                dirty: Set::empty(),
                stamped: Set::empty(),
            }),
    {
        let r = ArcReplacer {
            mru: VecDeque::new(),
            mfu: VecDeque::new(),
            timestamp_access: HashMap::new(),
            mru_ghost: VecDeque::new(),
            mfu_ghost: VecDeque::new(),
            mru_target_size: 0,
            replacer_size: replacer_size,
            curr_size: 0,
            dirty_pages: HashSet::new(),
            evictable_pages: HashSet::new(),
        };
        proof {
            assert(r@.stamped =~= Set::empty());
            assert(r@.resident_frames() =~= Set::empty());
        }
        r
    }

    /// Number of evictable frames.
    pub fn size(&self) -> (r: usize)
        requires
            self.wf(),
        ensures
            r == self@.evictable.len(),
    {
        self.evictable_pages.len()
    }

    /// Whether a last-access time is kept for `frame` holding `page`.
    pub fn has_access_record(&self, frame: FrameId, page: PageId) -> (r: bool)
        ensures
            r == self@.stamped.contains((frame, page)),
    {
        self.timestamp_access.contains_key(&stamp_key_of(frame, page))
    }

    /// The target size after a hit in the recency ghost list.
    fn grown_target(&self) -> (t: usize)
        requires
            self.wf(),
        ensures
            t as nat == self@.grown_target(),
            t <= self.replacer_size,
    {
        let r = self.mru_ghost.len();
        let f = self.mfu_ghost.len();
        let t = self.mru_target_size;
        if r >= f && t + 1 < self.replacer_size {
            t + 1
        } else if r > 0 && f / r <= self.replacer_size - t {
            t + f / r
        } else {
            t
        }
    }

    /// The target size after a hit in the frequency ghost list.
    fn shrunk_target(&self) -> (t: usize)
        requires
            self.wf(),
        ensures
            t as nat == self@.shrunk_target(),
            t <= self.mru_target_size,
    {
        let r = self.mru_ghost.len();
        let f = self.mfu_ghost.len();
        let t = self.mru_target_size;
        if f >= r && t > 1 {
            t - 1
        } else if f == 0 {
            t
        } else if t >= r / f {
            t - r / f
        } else {
            t
        }
    }

    /// Whether an access of `page` through `frame` fits the pool: the entry
    /// is resident already, or the resident lists leave a frame free.
    pub fn admits_access(&self, frame: FrameId, page: PageId) -> (r: bool)
        ensures
            r == self@.admits((frame, page)),
    {
        let e: Entry = (frame, page);
        contains_entry(&self.mru, e) || contains_entry(&self.mfu, e) || (self.mru.len()
            < self.replacer_size && self.mfu.len() < self.replacer_size - self.mru.len())
    }

    /// Records an access of `page` through `frame`: a resident entry moves to
    /// the front of the frequency list; a page found in a ghost list adapts
    /// the target size and enters the frequency list; any other page enters
    /// the recency list, after the oldest ghost entry makes room when the
    /// recency side or the whole history is full. The access time is
    /// recorded in every case.
    ///
    /// A page that is not resident is taken into a free frame, so the pool
    /// must have one: `admits` states that.
    pub fn record_access(&mut self, frame: FrameId, page: PageId)
        requires
            old(self).wf(),
            old(self)@.admits((frame, page)),
        ensures
            final(self).wf(),
            final(self)@ == record_access_spec(old(self)@, frame, page),
    {
        let e: Entry = (frame, page);
        let now = SystemTime::now();
        self.timestamp_access.insert(stamp_key_of(frame, page), now);
        proof {
            lemma_stamp_key_injective();
            assert(self@.stamped =~= old(self)@.stamped.insert(e));
            assert(self@ =~= touched(old(self)@, e));
        }
        let ghost v = self@;
        let ghost v_old = old(self)@;
        if contains_entry(&self.mru, e) || contains_entry(&self.mfu, e) {
            self.mru = without_entry(&self.mru, e);
            let rest = without_entry(&self.mfu, e);
            self.mfu = rest;
            self.mfu.push_front(e);
            proof {
                lemma_without(v.mru, e);
                lemma_without(v.mfu, e);
                lemma_contains_prepend(e, without(v.mfu, e));
                assert(self@ =~= record_access_spec(v_old, frame, page));
                assert forall|g: FrameId| self@.evictable.contains(g) implies
                    self@.resident_frames().contains(g) by {
                    if frames_of(v.mru).contains(g) {
                        let j = choose|j: int| 0 <= j < v.mru.len() && v.mru[j].0 == g;
                        lemma_resident_frame(v.mru[j], without(v.mru, e), without(v.mfu, e), e, g);
                    } else {
                        let j = choose|j: int| 0 <= j < v.mfu.len() && v.mfu[j].0 == g;
                        assert(v.mfu.contains(v.mfu[j]));
                        lemma_resident_frame(v.mfu[j], without(v.mru, e), without(v.mfu, e), e, g);
                    }
                }
            }
            return;
        }
        if contains_page(&self.mru_ghost, page) {
            self.mru_target_size = self.grown_target();
            self.mru_ghost = without_page(&self.mru_ghost, page);
            self.mfu.push_front(e);
            proof {
                lemma_without(v.mru_ghost, page);
                assert(self@ =~= record_access_spec(v_old, frame, page));
                lemma_contains_prepend(e, v.mfu);
                assert(self.mfu@.subrange(1, self.mfu@.len() as int) =~= v.mfu);
                lemma_frames_grow(v, self@);
            }
            return;
        }
        if contains_page(&self.mfu_ghost, page) {
            self.mru_target_size = self.shrunk_target();
            self.mfu_ghost = without_page(&self.mfu_ghost, page);
            self.mfu.push_front(e);
            proof {
                lemma_without(v.mfu_ghost, page);
                assert(self@ =~= record_access_spec(v_old, frame, page));
                lemma_contains_prepend(e, v.mfu);
                assert(self.mfu@.subrange(1, self.mfu@.len() as int) =~= v.mfu);
                lemma_frames_grow(v, self@);
            }
            return;
        }
        let recency_len = self.mru.len() + self.mru_ghost.len();
        if recency_len == self.replacer_size {
            self.mru_ghost.pop_back();
            self.mru.push_front(e);
        } else if recency_len < self.replacer_size {
            if recency_len + self.mfu.len() + self.mfu_ghost.len() == 2 * self.replacer_size {
                self.mfu_ghost.pop_back();
            }
            self.mru.push_front(e);
        }
        proof {
            assert(self@ =~= record_access_spec(v_old, frame, page));
            lemma_contains_prepend(e, v.mru);
            assert(self.mru@ != v.mru ==> self.mru@.subrange(1, self.mru@.len() as int) =~= v.mru);
            lemma_frames_grow(v, self@);
        }
    }

    /// Evicts the last evictable entry of the recency list, if there is one:
    /// its page goes to the front of the recency ghost list, and its frame
    /// stops being evictable and is returned.
    pub fn evict_from_mru_ghost(&mut self) -> (r: Option<FrameId>)
        requires
            old(self).wf(),
        ensures
            final(self).wf(),
            (final(self)@, r) == take_mru_spec(old(self)@),
    {
        proof {
            lemma_last_in_frames(self.mru@, self.evictable_pages@);
        }
        match last_evictable(&self.mru, &self.evictable_pages) {
            None => None,
            Some(i) => {
                let ghost v = self@;
                let e = self.mru[i];
                proof {
                    lemma_evictable_len(v);
                    lemma_contains_shrink(v.mru, i as int);
                    lemma_frames_after_remove(v.mru, i as int, v.evictable, frames_of(v.mfu));
                }
                self.mru.remove(i);
                self.mru_ghost.push_front(e.1);
                self.evictable_pages.remove(&e.0);
                self.timestamp_access.remove(&stamp_key_of(e.0, e.1));
                self.curr_size = self.curr_size - 1;
                proof {
                    lemma_stamp_key_injective();
                    assert(self@.stamped =~= v.stamped.remove(e));
                    assert(self@ =~= take_mru_spec(v).0);
                }
                Some(e.0)
            },
        }
    }

    /// Evicts the last evictable entry of the frequency list, if there is
    /// one, into the frequency ghost list.
    pub fn evict_from_mfu_ghost(&mut self) -> (r: Option<FrameId>)
        requires
            old(self).wf(),
        ensures
            final(self).wf(),
            (final(self)@, r) == take_mfu_spec(old(self)@),
    {
        proof {
            lemma_last_in_frames(self.mfu@, self.evictable_pages@);
        }
        match last_evictable(&self.mfu, &self.evictable_pages) {
            None => None,
            Some(i) => {
                let ghost v = self@;
                let e = self.mfu[i];
                proof {
                    lemma_evictable_len(v);
                    lemma_contains_shrink(v.mfu, i as int);
                    lemma_frames_after_remove(v.mfu, i as int, v.evictable, frames_of(v.mru));
                }
                self.mfu.remove(i);
                self.mfu_ghost.push_front(e.1);
                self.evictable_pages.remove(&e.0);
                self.timestamp_access.remove(&stamp_key_of(e.0, e.1));
                self.curr_size = self.curr_size - 1;
                proof {
                    lemma_stamp_key_injective();
                    assert(self@.stamped =~= v.stamped.remove(e));
                    assert(self@ =~= take_mfu_spec(v).0);
                }
                Some(e.0)
            },
        }
    }

    /// Evicts one evictable frame and returns it, or returns `None` and
    /// changes nothing when no resident frame is evictable. The recency list
    /// is tried first when it holds at least the target size, the frequency
    /// list first otherwise; within a list the entry nearest its back goes.
    pub fn evict(&mut self) -> (r: Option<FrameId>)
        requires
            old(self).wf(),
        ensures
            final(self).wf(),
            (final(self)@, r) == evict_spec(old(self)@),
    {
        if self.mru.len() >= self.mru_target_size {
            if let Some(f) = self.evict_from_mru_ghost() {
                return Some(f);
            }
            self.evict_from_mfu_ghost()
        } else {
            if let Some(f) = self.evict_from_mfu_ghost() {
                return Some(f);
            }
            self.evict_from_mru_ghost()
        }
    }

    /// Removes the entries held in `frame` for good: from the recency list
    /// if it holds one, else from the frequency list. Their page leaves both
    /// ghost lists and the dirty set, the frame stops being evictable, and
    /// the access record goes; no ghost entry is left. A frame that holds no
    /// entry changes nothing.
    ///
    /// Removal does not depend on whether the frame is evictable: the page
    /// is deleted, so nobody refers to it any more.
    pub fn remove(&mut self, frame: FrameId)
        requires
            old(self).wf(),
        ensures
            final(self).wf(),
            final(self)@ == remove_spec(old(self)@, frame),
    {
        let ghost v = self@;
        let (kept_mru, in_mru) = split_frame(&self.mru, frame);
        let found = match in_mru {
            Some(page) => {
                self.mru = kept_mru;
                Some(page)
            },
            None => {
                let (kept_mfu, in_mfu) = split_frame(&self.mfu, frame);
                if in_mfu.is_some() {
                    self.mfu = kept_mfu;
                }
                in_mfu
            },
        };
        if let Some(page) = found {
            proof {
                lemma_evictable_len(v);
            }
            self.timestamp_access.remove(&stamp_key_of(frame, page));
            if self.evictable_pages.remove(&frame) {
                self.curr_size = self.curr_size - 1;
            }
            self.dirty_pages.remove(&page);
            self.mru_ghost = without_page(&self.mru_ghost, page);
            self.mfu_ghost = without_page(&self.mfu_ghost, page);
            proof {
                lemma_stamp_key_injective();
                lemma_without(v.mru_ghost, page);
                lemma_without(v.mfu_ghost, page);
                lemma_without_frame(v.mru, frame);
                lemma_without_frame(v.mfu, frame);
                assert(self@.stamped =~= v.stamped.remove((frame, page)));
                assert(self@.evictable =~= v.evictable.remove(frame));
                assert(self@ =~= remove_spec(v, frame));
                assert forall|g: FrameId| self@.evictable.contains(g) implies
                    self@.resident_frames().contains(g) by {
                    assert(g != frame);
                    let in_mru = last_in_frames(v.mru, set![frame]) >= 0;
                    if frames_of(v.mru).contains(g) {
                        let j = choose|j: int| 0 <= j < v.mru.len() && v.mru[j].0 == g;
                        let x = v.mru[j];
                        assert(v.mru.contains(x));
                        if in_mru {
                            assert(without_frame(v.mru, frame).contains(x));
                            let k = choose|k: int| 0 <= k < self.mru@.len() && self.mru@[k] == x;
                        }
                        assert(frames_of(self.mru@).contains(g));
                    } else {
                        let j = choose|j: int| 0 <= j < v.mfu.len() && v.mfu[j].0 == g;
                        let x = v.mfu[j];
                        assert(v.mfu.contains(x));
                        if !in_mru {
                            assert(without_frame(v.mfu, frame).contains(x));
                            let k = choose|k: int| 0 <= k < self.mfu@.len() && self.mfu@[k] == x;
                        }
                        assert(frames_of(self.mfu@).contains(g));
                    }
                }
            }
        } else {
            proof {
                assert(self@ =~= v);
            }
        }
    }

    /// Marks `frame` evictable. A frame that holds no resident entry is left
    /// as it is, and marking a frame twice counts it once.
    pub fn set_evictable(&mut self, frame: FrameId)
        requires
            old(self).wf(),
        ensures
            final(self).wf(),
            final(self)@ == set_evictable_spec(old(self)@, frame),
    {
        let resident = holds_frame(&self.mru, frame) || holds_frame(&self.mfu, frame);
        if resident && !self.evictable_pages.contains(&frame) {
            proof {
                lemma_evictable_len(self@);
            }
            self.evictable_pages.insert(frame);
            self.curr_size = self.curr_size + 1;
        }
        proof {
            if resident {
                assert(self@.evictable =~= old(self)@.evictable.insert(frame));
            }
        }
    }

    /// Marks `frame` not evictable; a frame that is not evictable is left as
    /// it is.
    pub fn clear_evictable(&mut self, frame: FrameId)
        requires
            old(self).wf(),
        ensures
            final(self).wf(),
            final(self)@ == (ArcView { evictable: old(self)@.evictable.remove(frame), ..old(self)@ }),
    {
        if self.evictable_pages.contains(&frame) {
            proof {
                lemma_evictable_len(self@);
            }
            self.evictable_pages.remove(&frame);
            self.curr_size = self.curr_size - 1;
        }
        proof {
            assert(self@.evictable =~= old(self)@.evictable.remove(frame));
        }
    }
}

} // verus!
