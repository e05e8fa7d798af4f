//! Sequence operations used by the replacement policy's model, with the
//! facts about them that its proofs rely on.

use vstd::prelude::*;

verus! {

/// A frame id: a physical slot of the buffer pool.
pub type FrameId = u32;

/// A page id: a logical page of the storage engine.
pub type PageId = u32;

/// A resident entry: the frame that holds a page.
pub type Entry = (FrameId, PageId);

/// `s` with every occurrence of `x` taken out, the rest kept in order.
pub open spec fn without<T>(s: Seq<T>, x: T) -> Seq<T>
    decreases s.len(),
{
    if s.len() == 0 {
        s
    } else if s.last() == x {
        without(s.drop_last(), x)
    } else {
        without(s.drop_last(), x).push(s.last())
    }
}

/// `s` with every entry held in frame `f` taken out, the rest kept in order.
pub open spec fn without_frame(s: Seq<Entry>, f: FrameId) -> Seq<Entry>
    decreases s.len(),
{
    if s.len() == 0 {
        s
    } else if s.last().0 == f {
        without_frame(s.drop_last(), f)
    } else {
        without_frame(s.drop_last(), f).push(s.last())
    }
}

/// Index of the last entry of `s` whose frame is in `frames`, or -1 when
/// there is none.
pub open spec fn last_in_frames(s: Seq<Entry>, frames: Set<FrameId>) -> int
    decreases s.len(),
{
    if s.len() == 0 {
        -1
    } else if frames.contains(s.last().0) {
        s.len() - 1
    } else {
        last_in_frames(s.drop_last(), frames)
    }
}

/// The frames that hold the entries of `s`.
pub open spec fn frames_of(s: Seq<Entry>) -> Set<FrameId> {
    Set::new(|f: FrameId| exists|i: int| 0 <= i < s.len() && s[i].0 == f)
}

pub proof fn lemma_without<T>(s: Seq<T>, x: T)
    ensures
        without(s, x).len() <= s.len(),
        s.contains(x) ==> without(s, x).len() < s.len(),
        !s.contains(x) ==> without(s, x) == s,
        forall|y: T| #[trigger] without(s, x).contains(y) <==> (s.contains(y) && y != x),
    decreases s.len(),
{
    if s.len() > 0 {
        let d = s.drop_last();
        lemma_without(d, x);
        assert(s =~= d.push(s.last()));
        assert forall|y: T| #[trigger] s.contains(y) <==> (d.contains(y) || y == s.last()) by {
            if s.contains(y) {
                let i = choose|i: int| 0 <= i < s.len() && s[i] == y;
                if i < s.len() - 1 {
                    assert(d[i] == y);
                }
            }
            if d.contains(y) {
                let i = choose|i: int| 0 <= i < d.len() && d[i] == y;
                assert(s[i] == y);
            }
            if y == s.last() {
                assert(s[s.len() - 1] == y);
            }
        }
        let w = without(d, x);
        if s.last() != x {
            assert forall|y: T| #[trigger] w.push(s.last()).contains(y) <==> (w.contains(y)
                || y == s.last()) by {
                if w.push(s.last()).contains(y) {
                    let i = choose|i: int| 0 <= i < w.len() + 1 && w.push(s.last())[i] == y;
                    if i < w.len() {
                        assert(w[i] == y);
                    }
                }
                if w.contains(y) {
                    let i = choose|i: int| 0 <= i < w.len() && w[i] == y;
                    assert(w.push(s.last())[i] == y);
                }
                if y == s.last() {
                    assert(w.push(s.last())[w.len() as int] == y);
                }
            }
        }
    }
}

/// What a sequence with `x` put in front contains.
pub proof fn lemma_contains_prepend<T>(x: T, s: Seq<T>)
    ensures
        forall|y: T| #[trigger] (seq![x] + s).contains(y) <==> (y == x || s.contains(y)),
{
    let t = seq![x] + s;
    assert forall|y: T| #[trigger] t.contains(y) <==> (y == x || s.contains(y)) by {
        if t.contains(y) {
            let i = choose|i: int| 0 <= i < t.len() && t[i] == y;
            if i > 0 {
                assert(s[i - 1] == y);
            }
        }
        if y == x {
            assert(t[0] == y);
        }
        if s.contains(y) {
            let i = choose|i: int| 0 <= i < s.len() && s[i] == y;
            assert(t[i + 1] == y);
        }
    }
}

/// Taking elements out adds none.
pub proof fn lemma_contains_shrink<T>(s: Seq<T>, i: int)
    requires
        0 <= i < s.len(),
    ensures
        forall|y: T| #[trigger] s.remove(i).contains(y) ==> s.contains(y),
        forall|y: T| #[trigger] s.drop_last().contains(y) ==> s.contains(y),
{
    assert forall|y: T| #[trigger] s.remove(i).contains(y) implies s.contains(y) by {
        let j = choose|j: int| 0 <= j < s.remove(i).len() && s.remove(i)[j] == y;
        if j < i {
            assert(s[j] == y);
        } else {
            assert(s[j + 1] == y);
        }
    }
    assert forall|y: T| #[trigger] s.drop_last().contains(y) implies s.contains(y) by {
        let j = choose|j: int| 0 <= j < s.drop_last().len() && s.drop_last()[j] == y;
        assert(s[j] == y);
    }
}

/// Taking `x` out of a concatenation takes it out of each part.
pub proof fn lemma_without_concat<T>(a: Seq<T>, b: Seq<T>, x: T)
    ensures
        without(a + b, x) == without(a, x) + without(b, x),
    decreases b.len(),
{
    if b.len() == 0 {
        assert(a + b =~= a);
        assert(without(a, x) + without(b, x) =~= without(a, x));
    } else {
        lemma_without_concat(a, b.drop_last(), x);
        assert((a + b).drop_last() =~= a + b.drop_last());
        assert((a + b).last() == b.last());
        if b.last() != x {
            assert(without(a, x) + without(b.drop_last(), x).push(b.last()) =~= (without(a, x)
                + without(b.drop_last(), x)).push(b.last()));
        }
    }
}

pub proof fn lemma_without_frame(s: Seq<Entry>, f: FrameId)
    ensures
        without_frame(s, f).len() <= s.len(),
        forall|y: Entry| #[trigger]
            without_frame(s, f).contains(y) <==> (s.contains(y) && y.0 != f),
    decreases s.len(),
{
    if s.len() > 0 {
        let d = s.drop_last();
        lemma_without_frame(d, f);
        assert(s =~= d.push(s.last()));
        assert forall|y: Entry| #[trigger] s.contains(y) <==> (d.contains(y) || y == s.last()) by {
            if s.contains(y) {
                let i = choose|i: int| 0 <= i < s.len() && s[i] == y;
                if i < s.len() - 1 {
                    assert(d[i] == y);
                }
            }
            if d.contains(y) {
                let i = choose|i: int| 0 <= i < d.len() && d[i] == y;
                assert(s[i] == y);
            }
            if y == s.last() {
                assert(s[s.len() - 1] == y);
            }
        }
        let w = without_frame(d, f);
        if s.last().0 != f {
            assert forall|y: Entry| #[trigger] w.push(s.last()).contains(y) <==> (w.contains(y)
                || y == s.last()) by {
                if w.push(s.last()).contains(y) {
                    let i = choose|i: int| 0 <= i < w.len() + 1 && w.push(s.last())[i] == y;
                    if i < w.len() {
                        assert(w[i] == y);
                    }
                }
                if w.contains(y) {
                    let i = choose|i: int| 0 <= i < w.len() && w[i] == y;
                    assert(w.push(s.last())[i] == y);
                }
                if y == s.last() {
                    assert(w.push(s.last())[w.len() as int] == y);
                }
            }
        }
    }
}

/// `last_in_frames` finds `k` when `k` is in `frames` and no later entry is.
pub proof fn lemma_last_in_frames_at(s: Seq<Entry>, frames: Set<FrameId>, k: int)
    requires
        0 <= k < s.len(),
        frames.contains(s[k].0),
        forall|j: int| k < j < s.len() ==> !frames.contains(#[trigger] s[j].0),
    ensures
        last_in_frames(s, frames) == k,
    decreases s.len(),
{
    if k < s.len() - 1 {
        let d = s.drop_last();
        assert(!frames.contains(s[s.len() - 1].0));
        assert forall|j: int| k < j < d.len() implies !frames.contains(#[trigger] d[j].0) by {
            assert(d[j] == s[j]);
        }
        lemma_last_in_frames_at(d, frames, k);
    }
}

/// `last_in_frames` is -1 when no entry is in `frames`.
pub proof fn lemma_last_in_frames_none(s: Seq<Entry>, frames: Set<FrameId>)
    requires
        forall|j: int| 0 <= j < s.len() ==> !frames.contains(#[trigger] s[j].0),
    ensures
        last_in_frames(s, frames) == -1,
    decreases s.len(),
{
    if s.len() > 0 {
        let d = s.drop_last();
        assert(!frames.contains(s[s.len() - 1].0));
        assert forall|j: int| 0 <= j < d.len() implies !frames.contains(#[trigger] d[j].0) by {
            assert(d[j] == s[j]);
        }
        lemma_last_in_frames_none(d, frames);
    }
}

/// What `last_in_frames` returns is -1 or an index into `s` whose frame is in
/// `frames`, after which no frame is.
pub proof fn lemma_last_in_frames(s: Seq<Entry>, frames: Set<FrameId>)
    ensures
        -1 <= last_in_frames(s, frames) < s.len(),
        last_in_frames(s, frames) >= 0 ==> frames.contains(s[last_in_frames(s, frames)].0),
        forall|j: int|
            last_in_frames(s, frames) < j < s.len() ==> !frames.contains(#[trigger] s[j].0),
    decreases s.len(),
{
    if s.len() > 0 {
        let d = s.drop_last();
        lemma_last_in_frames(d, frames);
        if !frames.contains(s.last().0) {
            assert forall|j: int|
                last_in_frames(s, frames) < j < s.len() implies !frames.contains(
                #[trigger] s[j].0) by {
                if j < s.len() - 1 {
                    assert(d[j] == s[j]);
                }
            }
        }
    }
}

/// The frames of `s` are finitely many, no more than its length.
pub proof fn lemma_frames_of_len(s: Seq<Entry>)
    ensures
        frames_of(s).finite(),
        frames_of(s).len() <= s.len(),
    decreases s.len(),
{
    if s.len() == 0 {
        assert(frames_of(s) =~= Set::empty());
    } else {
        let d = s.drop_last();
        lemma_frames_of_len(d);
        assert(frames_of(s) =~= frames_of(d).insert(s.last().0)) by {
            assert forall|f: FrameId| frames_of(s).contains(f) implies frames_of(d).insert(
                s.last().0,
            ).contains(f) by {
                let i = choose|i: int| 0 <= i < s.len() && s[i].0 == f;
                if i < s.len() - 1 {
                    assert(d[i].0 == f);
                }
            }
            assert forall|f: FrameId| frames_of(d).insert(s.last().0).contains(f) implies frames_of(
                s,
            ).contains(f) by {
                if f == s.last().0 {
                    assert(s[s.len() - 1].0 == f);
                } else {
                    let i = choose|i: int| 0 <= i < d.len() && d[i].0 == f;
                    assert(s[i].0 == f);
                }
            }
        }
    }
}

} // verus!
