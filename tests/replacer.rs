use arc_replacer::replacer::ArcReplacer;

#[test]
fn basic_record_access() {
    let mut replacer = ArcReplacer::new(10);

    assert!(replacer.replacer_size == 10);

    replacer.record_access(1, 1);
    replacer.record_access(22, 1);

    assert!(replacer.mru.contains(&(1, 1)));
    assert!(replacer.mru.contains(&(22, 1)));

    assert!(replacer.mru.len() == 2);
    assert!(replacer.mfu.len() == 0);
    assert!(replacer.mru_target_size == 0);

    assert_eq!(replacer.has_access_record(1, 1), true);
    assert_eq!(replacer.has_access_record(22, 1), true);
}

#[test]
fn promote_from_mru_to_mfu() {
    let mut replacer = ArcReplacer::new(10);
    replacer.record_access(1, 1);
    replacer.record_access(2, 2);

    assert!(replacer.mru.contains(&(1, 1)));
    assert!(replacer.mru.contains(&(2, 2)));

    replacer.record_access(1, 1);

    assert!(replacer.mfu.contains(&(1, 1)));
    assert_eq!(replacer.mru.contains(&(1, 1)), false);
}

#[test]
fn evict_from_mru_lge_target_size() {
    let mut replacer = ArcReplacer::new(10);
    replacer.record_access(1, 1);
    replacer.record_access(2, 2);
    replacer.record_access(3, 3);

    replacer.set_evictable(1);

    assert_eq!(replacer.curr_size, 1);
    assert_eq!(replacer.evictable_pages.contains(&1), true);

    replacer.evict();

    assert!(replacer.mru_ghost.contains(&1));
    assert_eq!(replacer.mru.contains(&(1, 1)), false);
    assert_eq!(replacer.mru.contains(&(2, 2)), true);
    assert_eq!(replacer.mru.contains(&(3, 3)), true);
    assert_eq!(replacer.mfu_ghost.len(), 0);
}

#[test]
fn evict_from_mfu_mru_lge_target_size() {
    let mut replacer = ArcReplacer::new(10);
    replacer.mfu.push_front((1, 1));
    replacer.mfu.push_front((2, 2));
    replacer.mfu.push_front((3, 3));
    replacer.mfu.push_front((4, 4));

    replacer.set_evictable(3);

    let evicted = replacer.evict();
    assert_eq!(evicted, Some(3));

    assert!(replacer.mfu_ghost.contains(&3));
    assert_eq!(replacer.mru_ghost.len(), 0);
}

#[test]
fn evict_from_mfu_mru_sml_target_size() {
    let mut replacer = ArcReplacer::new(10);

    replacer.mru.push_front((1, 1));
    replacer.mru_target_size = 5;

    replacer.mfu.push_front((2, 2));
    replacer.mfu.push_front((3, 3));

    replacer.set_evictable(3);

    let evicted = replacer.evict();
    assert_eq!(evicted, Some(3));

    assert!(replacer.mfu_ghost.contains(&3));
    assert_eq!(replacer.mru_ghost.len(), 0)
}

#[test]
fn evict_from_mru_mru_sml_target_size() {
    let mut replacer = ArcReplacer::new(10);

    replacer.mru.push_front((1, 1));
    replacer.mru_target_size = 5;

    replacer.mfu.push_front((2, 2));
    replacer.mfu.push_front((3, 3));

    replacer.set_evictable(1);

    replacer.evict();

    assert!(replacer.mru_ghost.contains(&1));
}

#[test]
fn no_evict() {
    let mut replacer = ArcReplacer::new(10);
    replacer.mru.push_front((1, 1));
    replacer.mfu.push_front((2, 2));

    let evicted = replacer.evict();

    assert_eq!(evicted, None);
}

#[test]
fn mru_hit_increase_target_size_by_one() {
    let mut replacer = ArcReplacer::new(10);

    replacer.mru_ghost.push_front(1);
    replacer.mfu_ghost.push_front(2);

    replacer.record_access(1, 1);

    assert_eq!(replacer.mru_target_size, 1);
    assert!(replacer.mfu.contains(&(1, 1)));
}

#[test]
fn mru_hit_increase_target_size_by_mod() {
    let mut replacer = ArcReplacer::new(10);

    replacer.mru_ghost.push_front(1);
    replacer.mfu_ghost.push_front(2);
    replacer.mfu_ghost.push_front(3);

    replacer.record_access(1, 1);

    assert_eq!(replacer.mru_target_size, 2);
    assert!(replacer.mfu.contains(&(1, 1)));
}

#[test]
fn mfu_hit_decrease_target_size_by_one() {
    let mut replacer = ArcReplacer::new(10);
    replacer.mru_ghost.push_front(2);
    replacer.mfu_ghost.push_front(1);

    replacer.mru_target_size = 3;
    replacer.record_access(1, 1);

    assert_eq!(replacer.mru_target_size, 2);
    assert!(replacer.mfu.contains(&(1, 1)));
}

#[test]
fn mfu_hit_decrease_target_size_by_mod() {
    let mut replacer = ArcReplacer::new(10);

    replacer.mru_ghost.push_front(1);
    replacer.mru_ghost.push_front(2);
    replacer.mfu_ghost.push_front(3);

    replacer.mru_target_size = 2;
    replacer.record_access(3, 3);

    assert_eq!(replacer.mru_target_size, 0);
    assert!(replacer.mfu.contains(&(3, 3)));
}

#[test]
fn mru_mru_ghost_eq_replacer_size() {
    let mut replacer = ArcReplacer::new(4);

    replacer.mru.push_front((1, 1));
    replacer.mru.push_front((2, 2));
    replacer.mru_ghost.push_front(3);
    replacer.mru_ghost.push_front(4);

    replacer.record_access(5, 5);

    assert!(replacer.mru.contains(&(5, 5)));
    assert_eq!(replacer.mru_ghost.contains(&3), false);
}

#[test]
fn mru_all_less_than_replacer_size_and_all_full() {
    let mut replacer = ArcReplacer::new(4);

    replacer.mru.push_front((1, 1));
    replacer.mfu.push_front((2, 2));
    replacer.mru_ghost.push_front(3);
    replacer.mfu_ghost.push_front(4);

    replacer.record_access(5, 5);

    assert_eq!(replacer.mfu_ghost.contains(&5), false);
    assert!(replacer.mru.contains(&(5, 5)));
    assert_eq!(replacer.mru_ghost.contains(&3), true);
    assert_eq!(replacer.mfu.contains(&(2, 2)), true);
    assert_eq!(replacer.mru_target_size, 0);
}

#[test]
fn mru_all_less_than_replacer_size_and_not_full() {
    let mut replacer = ArcReplacer::new(9);
    replacer.mru.push_front((1, 1));
    replacer.mfu.push_front((2, 2));
    replacer.mru_ghost.push_front(3);
    replacer.mfu_ghost.push_front(4);

    replacer.record_access(5, 5);

    assert_eq!(replacer.mru.contains(&(1, 1)), true);
    assert_eq!(replacer.mru.contains(&(5, 5)), true);
    assert_eq!(replacer.mfu.contains(&(2, 2)), true);
    assert_eq!(replacer.mru_ghost.contains(&3), true);
    assert_eq!(replacer.mfu_ghost.contains(&4), true);
}
