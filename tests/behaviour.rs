use arc_replacer::replacer::ArcReplacer;

fn within_bounds(r: &ArcReplacer) -> bool {
    r.mru.len() + r.mru_ghost.len() <= r.replacer_size
        && r.mru.len() + r.mfu.len() + r.mru_ghost.len() + r.mfu_ghost.len() <= 2 * r.replacer_size
        && r.mru_target_size <= r.replacer_size
}

#[test]
fn third_access_leaves_entry_at_front_of_mfu() {
    let mut r = ArcReplacer::new(10);
    r.record_access(7, 70);
    assert_eq!(r.mru.front(), Some(&(7, 70)));
    assert!(!r.mfu.contains(&(7, 70)));
    r.record_access(7, 70);
    assert_eq!(r.mfu.front(), Some(&(7, 70)));
    assert!(!r.mru.contains(&(7, 70)));
    let mru_before = r.mru.clone();
    let mfu_before = r.mfu.clone();
    r.record_access(7, 70);
    assert_eq!(r.mfu.front(), Some(&(7, 70)));
    assert_eq!(r.mfu, mfu_before);
    assert_eq!(r.mru, mru_before);
    assert_eq!(r.mfu.len(), 1);
}

#[test]
fn bounds_hold_through_access_and_eviction_cycles() {
    let mut r = ArcReplacer::new(3);
    let mut page: u32 = 100;
    for round in 0..20u32 {
        // fill free frames, mark them evictable, evict one, touch one again
        while r.mru.len() + r.mfu.len() < 3 {
            let frame = (0..3u32)
                .find(|f| !r.mru.iter().chain(r.mfu.iter()).any(|e| e.0 == *f))
                .unwrap();
            r.record_access(frame, page);
            page += 1;
            assert!(within_bounds(&r));
        }
        for f in 0..3u32 {
            r.set_evictable(f);
        }
        assert_eq!(r.size(), 3);
        let victim = r.evict();
        assert!(victim.is_some());
        assert!(within_bounds(&r));
        if round % 3 == 0 {
            let e = r.mru.back().copied().or(r.mfu.back().copied()).unwrap();
            r.record_access(e.0, e.1);
            assert!(within_bounds(&r));
        }
        for f in 0..3u32 {
            r.clear_evictable(f);
        }
        assert_eq!(r.size(), 0);
    }
}

#[test]
fn ghost_hit_after_eviction_adapts_target() {
    let mut r = ArcReplacer::new(10);
    r.record_access(1, 1);
    r.record_access(2, 2);
    r.set_evictable(1);
    assert_eq!(r.evict(), Some(1));
    assert!(r.mru_ghost.contains(&1));
    assert!(!r.has_access_record(1, 1));
    r.record_access(1, 1);
    assert_eq!(r.mru_target_size, 1);
    assert_eq!(r.mfu.front(), Some(&(1, 1)));
    assert!(!r.mru_ghost.contains(&1));
}

#[test]
fn empty_replacer_has_no_victim() {
    let mut r = ArcReplacer::new(5);
    assert_eq!(r.evict(), None);
    assert_eq!(r.size(), 0);
    assert!(r.mru.is_empty() && r.mfu.is_empty());
    assert!(r.mru_ghost.is_empty() && r.mfu_ghost.is_empty());
}

#[test]
fn no_victim_leaves_lists_unchanged() {
    let mut r = ArcReplacer::new(5);
    r.record_access(1, 1);
    r.record_access(2, 2);
    r.record_access(2, 2);
    let mru = r.mru.clone();
    let mfu = r.mfu.clone();
    assert_eq!(r.evict(), None);
    assert_eq!(r.mru, mru);
    assert_eq!(r.mfu, mfu);
    assert!(r.mru_ghost.is_empty() && r.mfu_ghost.is_empty());
}

#[test]
fn remove_purges_stale_ghost_entry() {
    let mut r = ArcReplacer::new(10);
    r.mru_ghost.push_front(8);
    r.mfu_ghost.push_front(8);
    r.mfu_ghost.push_front(9);
    r.mru.push_front((4, 8));
    r.remove(4);
    assert!(!r.mru_ghost.contains(&8));
    assert!(!r.mfu_ghost.contains(&8));
    assert!(r.mfu_ghost.contains(&9));
    r.record_access(5, 8);
    assert_eq!(r.mru_target_size, 0);
    assert_eq!(r.mru.front(), Some(&(5, 8)));
    assert!(!r.mfu.contains(&(5, 8)));
}

#[test]
fn remove_unknown_frame_changes_nothing() {
    let mut r = ArcReplacer::new(10);
    r.mru_ghost.push_front(0);
    r.record_access(1, 1);
    r.remove(3);
    assert!(r.mru_ghost.contains(&0));
    assert!(r.mru.contains(&(1, 1)));
    assert!(r.has_access_record(1, 1));
}

#[test]
fn remove_evictable_frame_clears_everything() {
    let mut r = ArcReplacer::new(10);
    r.record_access(1, 11);
    r.record_access(1, 11);
    r.set_evictable(1);
    r.dirty_pages.insert(11);
    r.remove(1);
    assert!(!r.mfu.contains(&(1, 11)));
    assert!(!r.mru.contains(&(1, 11)));
    assert!(!r.evictable_pages.contains(&1));
    assert!(!r.dirty_pages.contains(&11));
    assert!(!r.has_access_record(1, 11));
    assert_eq!(r.curr_size, 0);
    assert!(r.mru_ghost.is_empty() && r.mfu_ghost.is_empty());
}

#[test]
fn set_evictable_counts_each_frame_once() {
    let mut r = ArcReplacer::new(4);
    r.record_access(2, 2);
    r.set_evictable(2);
    r.set_evictable(2);
    assert_eq!(r.size(), 1);
    assert_eq!(r.curr_size, 1);
    r.set_evictable(3);
    assert_eq!(r.size(), 1);
    r.clear_evictable(2);
    r.clear_evictable(2);
    assert_eq!(r.size(), 0);
    assert_eq!(r.curr_size, 0);
}

#[test]
fn shrink_below_zero_is_skipped() {
    let mut r = ArcReplacer::new(10);
    r.mru_ghost.push_front(1);
    r.mru_ghost.push_front(2);
    r.mru_ghost.push_front(3);
    r.mfu_ghost.push_front(4);
    r.mru_target_size = 1;
    r.record_access(4, 4);
    assert_eq!(r.mru_target_size, 1);
    assert_eq!(r.mfu.front(), Some(&(4, 4)));
}

#[test]
fn growth_beyond_capacity_is_skipped() {
    let mut r = ArcReplacer::new(4);
    r.mru_ghost.push_front(1);
    r.mfu_ghost.push_front(2);
    r.mfu_ghost.push_front(3);
    r.mfu_ghost.push_front(5);
    r.mru_target_size = 3;
    r.record_access(1, 1);
    assert_eq!(r.mru_target_size, 3);
    assert!(!r.mru_ghost.contains(&1));
}

#[test]
fn evict_skips_pinned_entries_at_the_back() {
    let mut r = ArcReplacer::new(10);
    r.record_access(1, 1);
    r.record_access(2, 2);
    r.record_access(3, 3);
    r.set_evictable(2);
    r.set_evictable(3);
    assert_eq!(r.evict(), Some(2));
    assert_eq!(r.mru_ghost.front(), Some(&2));
    assert_eq!(r.evict(), Some(3));
    assert_eq!(r.mru_ghost.front(), Some(&3));
    assert_eq!(r.evict(), None);
    assert_eq!(r.curr_size, 0);
}

#[test]
fn admits_access_needs_a_free_frame_for_a_new_entry() {
    let mut r = ArcReplacer::new(2);
    assert!(r.admits_access(1, 1));
    r.record_access(1, 1);
    r.record_access(2, 2);
    assert!(r.admits_access(1, 1));
    assert!(!r.admits_access(3, 3));
    r.set_evictable(1);
    assert_eq!(r.evict(), Some(1));
    assert!(r.admits_access(3, 3));
}
