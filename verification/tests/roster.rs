use hyades_engine::hulls::{role_hull_type, Class, HullType, Role, Roster};

#[test]
fn roster_unlocks_are_idempotent_and_deterministically_ordered() {
    let mut r = Roster::default();
    assert!(r.is_empty());
    r.unlock(HullType::MediumSystems, Class::Unnamed);
    r.unlock(HullType::LimitedSystems, Class::Meadow);
    r.unlock(HullType::LimitedSystems, Class::Meadow); // repeat is a no-op
    assert_eq!(r.len(), 2, "unlocking twice must not duplicate");
    assert!(r.has(HullType::LimitedSystems, Class::Meadow));
    assert!(r.has_hull(HullType::MediumSystems));
    assert!(!r.has_hull(HullType::GeneralOffensive));
    assert_eq!(r.class_for(HullType::LimitedSystems), Some(Class::Meadow));
    assert_eq!(r.class_for(HullType::GeneralSystems), None);
    let mut sorted = r.designs().to_vec();
    sorted.sort();
    assert_eq!(r.designs(), &sorted[..]);
}

#[test]
fn a_seeded_roster_holds_the_limited_pair_and_not_the_medium_hull() {
    let mut r = Roster::default();
    r.unlock(HullType::LimitedSystems, Class::Meadow);
    r.unlock(HullType::LimitedContactVehicle, Class::Tor);
    assert_eq!(r.len(), 2);
    assert!(r.has(HullType::LimitedSystems, Class::Meadow));
    assert!(r.has(HullType::LimitedContactVehicle, Class::Tor));
    assert!(!r.has_hull(HullType::MediumSystems));
    assert!(!r.has(HullType::LimitedSystems, Class::Tor));
    r.unlock(HullType::MediumSystems, Class::Unnamed);
    assert!(r.has_hull(HullType::MediumSystems));
}

#[test]
fn unlock_order_does_not_change_the_roster() {
    let designs = [
        (HullType::GeneralOffensive, Class::Unnamed),
        (HullType::LimitedSystems, Class::Tor),
        (HullType::LimitedSystems, Class::Meadow),
        (HullType::RapidOffensive, Class::Meadow),
        (HullType::MediumSystems, Class::Unnamed),
    ];
    let mut forward = Roster::default();
    for &(h, c) in designs.iter() {
        forward.unlock(h, c);
    }
    let mut backward = Roster::default();
    for &(h, c) in designs.iter().rev() {
        backward.unlock(h, c);
        backward.unlock(h, c);
    }
    assert_eq!(forward.designs(), backward.designs());
    assert_eq!(
        forward.designs(),
        &[
            (HullType::LimitedSystems, Class::Meadow),
            (HullType::LimitedSystems, Class::Tor),
            (HullType::MediumSystems, Class::Unnamed),
            (HullType::RapidOffensive, Class::Meadow),
            (HullType::GeneralOffensive, Class::Unnamed),
        ][..]
    );
}

#[test]
fn class_for_takes_the_first_class_of_a_hull() {
    let mut r = Roster::default();
    r.unlock(HullType::GeneralSystems, Class::Unnamed);
    r.unlock(HullType::GeneralSystems, Class::Tor);
    assert_eq!(r.class_for(HullType::GeneralSystems), Some(Class::Tor));
    r.unlock(HullType::GeneralSystems, Class::Meadow);
    assert_eq!(r.class_for(HullType::GeneralSystems), Some(Class::Meadow));
    assert_eq!(r.class_for(HullType::LimitedOffensive), None);
}

#[test]
fn the_ordered_hull_is_the_hull_that_is_priced_and_flown() {
    for (hull, role) in [
        (HullType::MediumSystems, Role::Colonizer),
        (HullType::LimitedSystems, Role::Miner),
        (HullType::LimitedContactVehicle, Role::Scout),
    ] {
        assert_eq!(role_hull_type(role), hull, "{role:?} still maps back to {hull:?}");
    }
    assert_eq!(role_hull_type(Role::Freighter), HullType::MediumSystems);
    assert_eq!(role_hull_type(Role::Reserve), HullType::LimitedSystems);
    assert_eq!(role_hull_type(Role::Scrapped), HullType::LimitedSystems);
}

#[test]
fn every_hull_is_listed_once_in_declaration_order() {
    assert_eq!(HullType::ALL.len(), 10);
    for (i, h) in HullType::ALL.iter().enumerate() {
        assert_eq!(h.rank() as usize, i);
    }
    let mut sorted = HullType::ALL.to_vec();
    sorted.sort();
    sorted.dedup();
    assert_eq!(&sorted[..], &HullType::ALL[..]);
}

#[test]
fn ranks_follow_declaration_order() {
    assert_eq!(Class::Meadow.rank(), 0);
    assert_eq!(Class::Tor.rank(), 1);
    assert_eq!(Class::Unnamed.rank(), 2);
    assert_eq!(Role::Scout.rank(), 0);
    assert_eq!(Role::Scrapped.rank(), 5);
    assert!(Role::Miner < Role::Freighter);
}

#[test]
fn a_cloned_roster_holds_the_same_designs() {
    let mut r = Roster::default();
    r.unlock(HullType::LimitedContactVehicle, Class::Tor);
    r.unlock(HullType::LimitedSystems, Class::Meadow);
    let c = r.clone();
    assert_eq!(c.designs(), r.designs());
    r.unlock(HullType::GeneralSystems, Class::Unnamed);
    assert_eq!(c.len(), 2);
    assert_eq!(r.len(), 3);
}
