use hyades_engine::fleets::{group_fleets, FleetSummary};
use hyades_engine::ecs::Entity;
use hyades_engine::hulls::Role;
use hyades_engine::knowledge::PlanetId;
use hyades_engine::resources::{basic_index, Basic};
use hyades_engine::snapshot::VehicleKind;
use hyades_engine::units::BandTier;

#[test]
fn the_rungs_are_ordered_and_indexed_consistently() {
    for (i, t) in BandTier::ALL.iter().enumerate() {
        assert_eq!(t.index(), i as i8 - 1);
    }
    for (i, t) in BandTier::PLAYABLE.iter().enumerate() {
        assert_eq!(t.index() as usize, i);
    }
    assert!(BandTier::Zero < BandTier::Empty);
    assert!(BandTier::Empty < BandTier::I && BandTier::I < BandTier::IV);
    for w in BandTier::ALL.windows(2) {
        assert!(w[0] < w[1] && w[0].index() < w[1].index());
    }
}

#[test]
fn band_v_is_one_past_the_playable_end() {
    assert_eq!(BandTier::MAX_PLAYABLE, BandTier::IV);
    assert!(BandTier::V > BandTier::MAX_PLAYABLE);
    assert!(!BandTier::PLAYABLE.contains(&BandTier::V), "V must not be in the playable set");
    assert_eq!(BandTier::PLAYABLE.len() + 2, BandTier::ALL.len());
    assert_eq!(BandTier::V.index(), 5);
}

#[test]
fn band_zero_is_one_past_the_bottom_and_unreachable() {
    assert_eq!(BandTier::MIN_PLAYABLE, BandTier::Empty);
    assert!(BandTier::Zero < BandTier::MIN_PLAYABLE);
    assert!(!BandTier::PLAYABLE.contains(&BandTier::Zero));
    assert_eq!(BandTier::Zero.index(), -1);
}

#[test]
fn each_role_shows_as_its_own_kind() {
    assert_eq!(Role::Scout.kind(), VehicleKind::Scout);
    assert_eq!(Role::Colonizer.kind(), VehicleKind::Colonizer);
    assert_eq!(Role::Miner.kind(), VehicleKind::Miner);
    assert_eq!(Role::Freighter.kind(), VehicleKind::Freighter);
    assert_eq!(Role::Reserve.kind(), VehicleKind::Reserve);
    assert_eq!(Role::Scrapped.kind(), VehicleKind::Scrapped);
}

#[test]
fn colours_index_their_arrays() {
    for (i, &c) in Basic::ALL.iter().enumerate() {
        assert_eq!(basic_index(c), i);
    }
    assert_eq!(basic_index(Basic::Yellow), 2);
}

fn summary(f: &FleetSummary) -> (u32, Role, u32, Vec<u64>) {
    (f.owner, f.role, f.theater.0, f.ships.iter().map(|e| e.0).collect())
}

#[test]
fn placements_group_by_owner_role_and_theater() {
    let placed = vec![
        (Entity(10), 1, Role::Miner, PlanetId(4)),
        (Entity(11), 0, Role::Scout, PlanetId(7)),
        (Entity(12), 1, Role::Miner, PlanetId(4)),
        (Entity(13), 1, Role::Freighter, PlanetId(4)),
        (Entity(14), 0, Role::Scout, PlanetId(2)),
        (Entity(15), 1, Role::Miner, PlanetId(3)),
        (Entity(16), 0, Role::Scout, PlanetId(7)),
    ];
    let fleets = group_fleets(&placed);
    let got: Vec<_> = fleets.iter().map(summary).collect();
    assert_eq!(
        got,
        vec![
            (0, Role::Scout, 2, vec![14]),
            (0, Role::Scout, 7, vec![11, 16]),
            (1, Role::Miner, 3, vec![15]),
            (1, Role::Miner, 4, vec![10, 12]),
            (1, Role::Freighter, 4, vec![13]),
        ]
    );
    let mut seen = std::collections::BTreeSet::new();
    for fl in &fleets {
        assert!(!fl.ships.is_empty());
        for ship in &fl.ships {
            assert!(seen.insert(*ship), "ship {ship:?} appeared in more than one fleet");
        }
    }
    assert_eq!(seen.len(), placed.len());
    assert!(group_fleets(&Vec::new()).is_empty());
}

#[test]
fn tiers_are_written_with_their_band_name() {
    assert_eq!(BandTier::II.label(), "Band II");
    assert_eq!(BandTier::Empty.label(), "Empty");
    assert_eq!(BandTier::Zero.label(), "Band Zero");
    assert_eq!(BandTier::V.label(), "Band V");
}
