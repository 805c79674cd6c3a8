use hyparview::bounded_set::BoundedSet;

const TEST_ELEM: u32 = 1;

fn singleton_set() -> Vec<u32> {
    let mut data: Vec<u32> = Vec::new();
    data.push(TEST_ELEM);
    data
}

#[test]
fn init_should_pass_initial_state() {
    let set = BoundedSet::single(1, TEST_ELEM);
    assert_eq!(set.len(), 1)
}

#[test]
fn is_full_when_capacity_is_size() {
    // Capacity == size
    let set: BoundedSet<u32> = BoundedSet::new(0);
    assert!(BoundedSet::is_full(&set));
    // Capacity > size
    let set: BoundedSet<u32> = BoundedSet::new(1);
    assert!(!set.is_full())
}

#[test]
fn empty_random_element() {
    let set: BoundedSet<u32> = BoundedSet::new(1);
    assert!(set.sample_one().is_none());
}

#[test]
fn singleton_random_element() {
    let set: BoundedSet<u32> = BoundedSet::single(1, TEST_ELEM);
    assert!(set.sample_one().unwrap() == &TEST_ELEM);
}

#[test]
fn empty_sample() {
    let set: BoundedSet<u32> = BoundedSet::new(1);
    assert!(set.sample(10).is_empty());
}

#[test]
fn bounded_sample() {
    let set: BoundedSet<u32> = BoundedSet::single(1, TEST_ELEM);
    assert!(set.sample(0).is_empty());
}

#[test]
fn max_sample() {
    let set: BoundedSet<u32> = BoundedSet::single(1, TEST_ELEM);
    let sample = set.sample(10);
    assert_eq!(sample.len(), 1);
    assert!(sample.contains(&TEST_ELEM));
}

#[test]
fn contains() {
    let set = BoundedSet::init(1, singleton_set());
    assert!(set.contains(&TEST_ELEM));
    assert!(!set.contains(&1337));
}

#[test]
fn insert() {
    let mut set1: BoundedSet<u32> = BoundedSet::new(1);
    let set2: BoundedSet<u32> = BoundedSet::single(1, TEST_ELEM);

    assert!(set1.insert(TEST_ELEM));
    assert_eq!(set1, set2);
}

#[test]
fn insert_respects_capacity() {
    let mut set: BoundedSet<u32> = BoundedSet::new(0);
    assert!(!set.insert(TEST_ELEM));
}

#[test]
fn remove() {
    let mut set: BoundedSet<u32> = BoundedSet::single(1, TEST_ELEM);
    assert!(!set.remove(&1337));
    assert_eq!(set.len(), 1);

    assert!(set.remove(&TEST_ELEM));
    assert_eq!(set.len(), 0);
}

#[test]
fn bounded_union() {
    let mut set1: BoundedSet<u32> = BoundedSet::single(10, TEST_ELEM);
    let mut set2: Vec<u32> = Vec::new();
    set2.push(2);
    set1.bounded_union(&set2, &Vec::new());

    assert!(set1.contains(&TEST_ELEM));
    assert!(set1.contains(&2));
}

#[test]
fn bounded_union_drop_priority() {
    let mut set: BoundedSet<u32> = BoundedSet::single(1, TEST_ELEM);
    let mut to_merge: Vec<u32> = Vec::new();
    to_merge.push(2);
    let mut drop_prio: Vec<u32> = Vec::new();
    drop_prio.push(TEST_ELEM);

    set.bounded_union(&to_merge, &drop_prio);
    assert_eq!(set.len(), 1);
    assert!(set.contains(&2));
}
