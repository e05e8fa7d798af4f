//! Scans over the policy's deques.

use std::collections::HashSet;
use std::collections::VecDeque;
use vstd::prelude::*;
use crate::seqs::{frames_of, last_in_frames, without, without_frame, Entry, FrameId, PageId};

verus! {

broadcast use vstd::std_specs::hash::group_hash_axioms;

pub fn contains_entry(list: &VecDeque<Entry>, e: Entry) -> (r: bool)
    ensures
        r == list@.contains(e),
{
    let mut i: usize = 0;
    while i < list.len()
        invariant
            i <= list@.len(),
            forall|j: int| 0 <= j < i ==> list@[j] != e,
        decreases list@.len() - i,
    {
        let x = list[i];
        if x.0 == e.0 && x.1 == e.1 {
            return true;
        }
        i += 1;
    }
    false
}

pub fn contains_page(list: &VecDeque<PageId>, page: PageId) -> (r: bool)
    ensures
        r == list@.contains(page),
{
    let mut i: usize = 0;
    while i < list.len()
        invariant
            i <= list@.len(),
            forall|j: int| 0 <= j < i ==> list@[j] != page,
        decreases list@.len() - i,
    {
        if list[i] == page {
            return true;
        }
        i += 1;
    }
    false
}

pub fn holds_frame(list: &VecDeque<Entry>, frame: FrameId) -> (r: bool)
    ensures
        r == frames_of(list@).contains(frame),
{
    let mut i: usize = 0;
    while i < list.len()
        invariant
            i <= list@.len(),
            forall|j: int| 0 <= j < i ==> list@[j].0 != frame,
        decreases list@.len() - i,
    {
        if list[i].0 == frame {
            return true;
        }
        i += 1;
    }
    false
}

/// A copy of `list` without the entry `e`.
pub fn without_entry(list: &VecDeque<Entry>, e: Entry) -> (r: VecDeque<Entry>)
    ensures
        r@ == without(list@, e),
{
    let mut out: VecDeque<Entry> = VecDeque::new();
    let mut i: usize = 0;
    while i < list.len()
        invariant
            i <= list@.len(),
            out@ == without(list@.subrange(0, i as int), e),
        decreases list@.len() - i,
    {
        let x = list[i];
        proof {
            let s = list@.subrange(0, i as int + 1);
            assert(s.drop_last() =~= list@.subrange(0, i as int));
        }
        if !(x.0 == e.0 && x.1 == e.1) {
            out.push_back(x);
        }
        i += 1;
    }
    proof {
        assert(list@.subrange(0, list@.len() as int) =~= list@);
    }
    out
}

/// A copy of `list` without the page `page`.
pub fn without_page(list: &VecDeque<PageId>, page: PageId) -> (r: VecDeque<PageId>)
    ensures
        r@ == without(list@, page),
{
    let mut out: VecDeque<PageId> = VecDeque::new();
    let mut i: usize = 0;
    while i < list.len()
        invariant
            i <= list@.len(),
            out@ == without(list@.subrange(0, i as int), page),
        decreases list@.len() - i,
    {
        let x = list[i];
        proof {
            let s = list@.subrange(0, i as int + 1);
            assert(s.drop_last() =~= list@.subrange(0, i as int));
        }
        if x != page {
            out.push_back(x);
        }
        i += 1;
    }
    proof {
        assert(list@.subrange(0, list@.len() as int) =~= list@);
    }
    out
}

/// A copy of `list` without the entries held in `frame`, and the page of the
/// last such entry.
pub fn split_frame(list: &VecDeque<Entry>, frame: FrameId) -> (r: (VecDeque<Entry>, Option<PageId>))
    ensures
        r.0@ == without_frame(list@, frame),
        ({
            let k = last_in_frames(list@, set![frame]);
            r.1 == if k >= 0 {
                Some(list@[k].1)
            } else {
                None::<PageId>
            }
        }),
{
    let mut out: VecDeque<Entry> = VecDeque::new();
    let mut found: Option<PageId> = None;
    let mut i: usize = 0;
    while i < list.len()
        invariant
            i <= list@.len(),
            out@ == without_frame(list@.subrange(0, i as int), frame),
            ({
                let s = list@.subrange(0, i as int);
                let k = last_in_frames(s, set![frame]);
                found == if k >= 0 {
                    Some(s[k].1)
                } else {
                    None::<PageId>
                }
            }),
        decreases list@.len() - i,
    {
        let x = list[i];
        proof {
            let s = list@.subrange(0, i as int + 1);
            let d = list@.subrange(0, i as int);
            assert(s.drop_last() =~= d);
            let k = last_in_frames(d, set![frame]);
            crate::seqs::lemma_last_in_frames(d, set![frame]);
            if k >= 0 {
                assert(s[k] == d[k]);
            }
        }
        if x.0 == frame {
            found = Some(x.1);
        } else {
            out.push_back(x);
        }
        i += 1;
    }
    proof {
        assert(list@.subrange(0, list@.len() as int) =~= list@);
    }
    (out, found)
}

/// Index of the last entry of `list` whose frame is in `evictable`.
pub fn last_evictable(list: &VecDeque<Entry>, evictable: &HashSet<FrameId>) -> (r: Option<usize>)
    ensures
        match r {
            Some(i) => i as int == last_in_frames(list@, evictable@),
            None => last_in_frames(list@, evictable@) == -1,
        },
{
    let mut i: usize = list.len();
    while i > 0
        invariant
            i <= list@.len(),
            forall|j: int| i <= j < list@.len() ==> !evictable@.contains(#[trigger] list@[j].0),
        decreases i,
    {
        i -= 1;
        let x = list[i];
        if evictable.contains(&x.0) {
            proof {
                crate::seqs::lemma_last_in_frames_at(list@, evictable@, i as int);
            }
            return Some(i);
        }
    }
    proof {
        crate::seqs::lemma_last_in_frames_none(list@, evictable@);
    }
    None
}

} // verus!
