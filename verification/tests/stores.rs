use hyades_engine::ecs::{ComponentStore, Entity};
use hyades_engine::knowledge::{PlanetId, ScannedSet, VisitedMask};

#[test]
fn a_component_reads_back_what_was_written() {
    let mut s: ComponentStore<u32> = ComponentStore::new();
    assert!(!s.contains(Entity(0)));
    s.insert(Entity(4), 40);
    s.insert(Entity(1), 10);
    assert_eq!(s.get(Entity(4)), Some(&40));
    assert_eq!(s.get(Entity(1)), Some(&10));
    assert_eq!(s.get(Entity(2)), None);
    assert_eq!(s.get(Entity(99)), None);
    assert!(s.contains(Entity(4)));
    s.insert(Entity(4), 41);
    assert_eq!(s.get(Entity(4)), Some(&41));
    if let Some(v) = s.get_mut(Entity(1)) {
        *v += 5;
    }
    assert_eq!(s.get(Entity(1)), Some(&15));
    assert!(s.get_mut(Entity(3)).is_none());
}

#[test]
fn removing_a_component_vacates_the_slot() {
    let mut s: ComponentStore<Vec<u8>> = ComponentStore::new();
    s.insert(Entity(2), vec![1, 2]);
    assert_eq!(s.remove(Entity(2)), Some(vec![1, 2]));
    assert!(!s.contains(Entity(2)));
    assert_eq!(s.remove(Entity(2)), None);
    assert_eq!(s.remove(Entity(50)), None);
}

#[test]
fn entry_or_insert_with_creates_once() {
    let mut s: ComponentStore<Vec<f64>> = ComponentStore::new();
    s.entry_or_insert_with(Entity(3), Vec::new).push(1.5);
    s.entry_or_insert_with(Entity(3), || vec![9.0]).push(2.5);
    assert_eq!(s.get(Entity(3)), Some(&vec![1.5, 2.5]));
}

#[test]
fn a_slot_grows_the_store_with_empty_slots() {
    let mut s: ComponentStore<i64> = ComponentStore::new();
    assert!(s.slot(6).is_none());
    *s.slot(6) = Some(-3);
    assert_eq!(s.get(Entity(6)), Some(&-3));
    for i in 0..6 {
        assert!(!s.contains(Entity(i)));
    }
}

#[test]
fn scanned_ids_stay_sorted_and_unique() {
    let mut s = ScannedSet::default();
    assert!(s.is_empty());
    assert!(s.insert(PlanetId(9)));
    assert!(s.insert(PlanetId(2)));
    assert!(s.insert(PlanetId(5)));
    assert!(!s.insert(PlanetId(2)));
    assert_eq!(s.len(), 3);
    let ids: Vec<u32> = s.iter().map(|p| p.0).collect();
    assert_eq!(ids, vec![2, 5, 9]);
}

#[test]
fn subset_is_a_merge_over_sorted_ids() {
    let mut big = ScannedSet::new();
    for i in [1, 3, 5, 7, 9] {
        big.insert(PlanetId(i));
    }
    let mut small = ScannedSet::new();
    small.insert(PlanetId(7));
    small.insert(PlanetId(3));
    assert!(small.is_subset(&big));
    assert!(!big.is_subset(&small));
    small.insert(PlanetId(4));
    assert!(!small.is_subset(&big));
    assert!(ScannedSet::new().is_subset(&small));
    assert!(big.is_subset(&big));
}

#[test]
fn a_visited_mask_marks_and_grows() {
    let mut m = VisitedMask::default();
    assert!(!m.contains(PlanetId(0)));
    m.insert(PlanetId(12));
    assert!(m.contains(PlanetId(12)));
    assert!(!m.contains(PlanetId(11)));
    assert!(!m.contains(PlanetId(13)));
    m.insert(PlanetId(3));
    m.insert(PlanetId(3));
    assert!(m.contains(PlanetId(3)));
    assert!(m.contains(PlanetId(12)));
}
