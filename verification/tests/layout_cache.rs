use lunar_render::layout_cache::LayoutCache;

#[test]
fn read_gives_back_what_was_written() {
    let mut c: LayoutCache<Vec<u32>> = LayoutCache::new(4);
    assert!(c.get([1, 2, 3, 4]).is_none());
    c.insert([1, 2, 3, 4], vec![7, 8]);
    assert_eq!(c.get([1, 2, 3, 4]), Some(&vec![7, 8]));
    c.insert([1, 2, 3, 4], vec![9]);
    assert_eq!(c.get([1, 2, 3, 4]), Some(&vec![9]));
}

#[test]
fn full_cache_evicts_oldest_entry() {
    let mut c: LayoutCache<u32> = LayoutCache::new(2);
    c.insert([1, 0, 0, 0], 1);
    c.insert([2, 0, 0, 0], 2);
    c.insert([3, 0, 0, 0], 3);
    assert!(c.get([1, 0, 0, 0]).is_none());
    assert_eq!(c.get([2, 0, 0, 0]), Some(&2));
    assert_eq!(c.get([3, 0, 0, 0]), Some(&3));
}

#[test]
fn reading_an_entry_protects_it_from_eviction() {
    let mut c: LayoutCache<u32> = LayoutCache::new(3);
    c.insert([1, 0, 0, 0], 1);
    c.insert([2, 0, 0, 0], 2);
    c.insert([3, 0, 0, 0], 3);
    // the read stamps the first key with the current generation
    assert_eq!(c.get([1, 0, 0, 0]), Some(&1));
    c.insert([4, 0, 0, 0], 4);
    assert!(c.get([2, 0, 0, 0]).is_none());
    assert_eq!(c.get([1, 0, 0, 0]), Some(&1));
    assert_eq!(c.get([4, 0, 0, 0]), Some(&4));
}

#[test]
fn zero_capacity_keeps_the_latest_entry() {
    let mut c: LayoutCache<u32> = LayoutCache::new(0);
    c.insert([1, 0, 0, 0], 1);
    c.insert([2, 0, 0, 0], 2);
    assert!(c.get([1, 0, 0, 0]).is_none());
    assert_eq!(c.get([2, 0, 0, 0]), Some(&2));
}

#[test]
fn clear_drops_everything() {
    let mut c: LayoutCache<u32> = LayoutCache::new(3);
    c.insert([1, 0, 0, 0], 1);
    c.clear();
    assert!(c.get([1, 0, 0, 0]).is_none());
    c.insert([1, 0, 0, 0], 5);
    assert_eq!(c.get([1, 0, 0, 0]), Some(&5));
}

#[test]
fn read_entry_outlives_the_last_inserted_one() {
    let mut c: LayoutCache<u32> = LayoutCache::new(2);
    c.insert([1, 0, 0, 0], 1);
    c.insert([2, 0, 0, 0], 2);
    assert_eq!(c.get([1, 0, 0, 0]), Some(&1));
    c.insert([3, 0, 0, 0], 3);
    assert!(c.get([2, 0, 0, 0]).is_none());
    assert_eq!(c.get([1, 0, 0, 0]), Some(&1));
    assert_eq!(c.get([3, 0, 0, 0]), Some(&3));
}

#[test]
fn every_hit_and_insert_starts_a_generation() {
    let mut c: LayoutCache<u32> = LayoutCache::new(2);
    assert_eq!(c.generation(), 0);
    c.insert([1, 0, 0, 0], 1);
    assert_eq!(c.generation(), 1);
    assert!(c.get([9, 0, 0, 0]).is_none());
    assert_eq!(c.generation(), 1);
    c.get([1, 0, 0, 0]);
    assert_eq!(c.generation(), 2);
}
