//! Properties of the replacement policy that relate its operations, proved
//! over the model that their contracts speak of.

use vstd::prelude::*;
use crate::model::{
    after_accesses, evict_spec, record_access_spec, remove_spec, removed_page, set_evictable_spec,
    take_mfu_spec, take_mru_spec, ArcView,
};
use crate::seqs::{
    lemma_last_in_frames, lemma_last_in_frames_none, lemma_without, lemma_without_concat,
    lemma_without_frame, without, Entry, FrameId, PageId,
};

verus! {

/// A fresh page enters the front of the recency list, with the frequency
/// list, the target size and the evictable set unchanged, and the recency
/// ghost list too while the recency side has room; a second access moves it
/// to the front of the frequency list and out of the recency list; a third
/// access leaves the state as the second left it.
pub proof fn lemma_promotion(v: ArcView, frame: FrameId, page: PageId)
    requires
        v.bounded(),
        !v.is_resident((frame, page)),
        !v.mru_ghost.contains(page),
        !v.mfu_ghost.contains(page),
    ensures
        ({
            let e = (frame, page);
            let v1 = record_access_spec(v, frame, page);
            let v2 = record_access_spec(v1, frame, page);
            &&& v1.mru == seq![e] + v.mru
            &&& v1.mfu == v.mfu
            &&& v1.target == v.target
            &&& v1.evictable == v.evictable
            &&& v.mru.len() + v.mru_ghost.len() < v.capacity ==> v1.mru_ghost == v.mru_ghost
            &&& v1.mru.len() > 0 && v1.mru[0] == e
            &&& !v1.mfu.contains(e)
            &&& v2.mfu.len() > 0 && v2.mfu[0] == e
            &&& !v2.mru.contains(e)
            &&& record_access_spec(v2, frame, page) == v2
        }),
{
    let e = (frame, page);
    let v1 = record_access_spec(v, frame, page);
    assert(v1.mru[0] == e);
    assert(v1.mru.contains(e));
    assert(v1.mfu == v.mfu);
    let v2 = record_access_spec(v1, frame, page);
    lemma_without(v1.mru, e);
    lemma_without(v1.mfu, e);
    let w = without(v1.mfu, e);
    assert(v2.mfu[0] == e);
    assert(v2.mfu.contains(e));
    let v3 = record_access_spec(v2, frame, page);
    lemma_without(v2.mru, e);
    lemma_without_concat(seq![e], w, e);
    assert(seq![e].drop_last() =~= Seq::<(FrameId, PageId)>::empty());
    assert(seq![e].last() == e);
    assert(without(Seq::<(FrameId, PageId)>::empty(), e) == Seq::<(FrameId, PageId)>::empty());
    assert(without(seq![e], e) =~= Seq::<(FrameId, PageId)>::empty());
    assert(Seq::<(FrameId, PageId)>::empty() + w =~= w);
    assert(v2.stamped.insert(e) =~= v2.stamped);
    assert(v3 =~= v2);
}

/// Every operation keeps the list bounds: the recency list and its ghost
/// list together hold at most `capacity` entries, all four lists at most
/// `2 * capacity`, the resident lists at most `capacity`, and the target size
/// stays within `[0, capacity]`. An access must fit the pool (`admits`).
pub proof fn lemma_capacity_conserved(v: ArcView, frame: FrameId, page: PageId)
    requires
        v.bounded(),
    ensures
        v.admits((frame, page)) ==> record_access_spec(v, frame, page).bounded(),
        evict_spec(v).0.bounded(),
        remove_spec(v, frame).bounded(),
        set_evictable_spec(v, frame).bounded(),
{
    let e = (frame, page);
    lemma_without(v.mru, e);
    lemma_without(v.mfu, e);
    lemma_without(v.mru_ghost, page);
    lemma_without(v.mfu_ghost, page);
    lemma_last_in_frames(v.mru, v.evictable);
    lemma_last_in_frames(v.mfu, v.evictable);
    lemma_evict_bounded(v);
    let p = removed_page(v, frame);
    if p is Some {
        let q = p->0;
        lemma_without(v.mru_ghost, q);
        lemma_without(v.mfu_ghost, q);
        lemma_without_frame(v.mru, frame);
        lemma_without_frame(v.mfu, frame);
    }
}

/// The list bounds hold after any sequence of accesses, each of which fits
/// the pool in the state that it meets.
pub proof fn lemma_accesses_bounded(v: ArcView, s: Seq<Entry>)
    requires
        v.bounded(),
        forall|i: int| 0 <= i < s.len() ==> #[trigger] after_accesses(v, s.take(i)).admits(s[i]),
    ensures
        after_accesses(v, s).bounded(),
    decreases s.len(),
{
    if s.len() > 0 {
        let d = s.drop_last();
        assert forall|i: int| 0 <= i < d.len() implies #[trigger] after_accesses(
            v,
            d.take(i),
        ).admits(d[i]) by {
            assert(d.take(i) =~= s.take(i));
            assert(after_accesses(v, s.take(i)).admits(s[i]));
        }
        lemma_accesses_bounded(v, d);
        assert(s.take(s.len() - 1) =~= d);
        assert(after_accesses(v, s.take(s.len() - 1)).admits(s[s.len() - 1]));
        lemma_capacity_conserved(after_accesses(v, d), s.last().0, s.last().1);
    }
}

proof fn lemma_evict_bounded(v: ArcView)
    requires
        v.bounded(),
    ensures
        take_mru_spec(v).0.bounded(),
        take_mfu_spec(v).0.bounded(),
        evict_spec(v).0.bounded(),
{
    lemma_last_in_frames(v.mru, v.evictable);
    lemma_last_in_frames(v.mfu, v.evictable);
}

/// With no resident entry evictable (an empty policy among others), eviction
/// finds no victim and changes nothing.
pub proof fn lemma_no_victim(v: ArcView)
    requires
        forall|i: int| 0 <= i < v.mru.len() ==> !v.evictable.contains(#[trigger] v.mru[i].0),
        forall|i: int| 0 <= i < v.mfu.len() ==> !v.evictable.contains(#[trigger] v.mfu[i].0),
    ensures
        evict_spec(v) == (v, None::<FrameId>),
{
    lemma_last_in_frames_none(v.mru, v.evictable);
    lemma_last_in_frames_none(v.mfu, v.evictable);
}

/// Removing a frame erases its page from both ghost lists, so a later access
/// of that page through a frame that does not hold it is a plain miss: the
/// target size stays as it is, the entry goes to the front of the recency
/// list, and the frequency list is untouched.
pub proof fn lemma_remove_clears_history(v: ArcView, frame: FrameId, page: PageId, next: FrameId)
    requires
        v.bounded(),
        removed_page(v, frame) == Some(page),
        !remove_spec(v, frame).is_resident((next, page)),
    ensures
        ({
            let w = remove_spec(v, frame);
            let w2 = record_access_spec(w, next, page);
            &&& !w.mru_ghost.contains(page)
            &&& !w.mfu_ghost.contains(page)
            &&& w2.target == w.target
            &&& w2.mru.len() > 0 && w2.mru[0] == (next, page)
            &&& w2.mfu == w.mfu
        }),
{
    lemma_capacity_conserved(v, frame, page);
    lemma_without(v.mru_ghost, page);
    lemma_without(v.mfu_ghost, page);
    let w = remove_spec(v, frame);
    let w2 = record_access_spec(w, next, page);
    assert(w2.mru[0] == (next, page));
}

} // verus!
