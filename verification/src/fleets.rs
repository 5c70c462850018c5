//! Fleets: an owner's same-role ships standing in the same theater, grouped
//! fresh on every query rather than stored.
use vstd::prelude::*;
use std::collections::BTreeMap;
use vstd::std_specs::iter::IteratorSpec;
use crate::ecs::Entity;
use crate::hulls::{Role, role_rank};
use crate::knowledge::PlanetId;

verus! {

/// One group of ships: same owner, same role, same theater.
#[derive(Clone, Debug)]
pub struct FleetSummary {
    pub owner: u32,
    pub role: Role,
    pub theater: PlanetId,
    pub ships: Vec<Entity>,
}

/// Where one ship stands: `(ship, owner, role, theater)`.
pub type Placement = (Entity, u32, Role, PlanetId);

/// The order fleets are listed in: by owner, then role, then theater.
pub open spec fn fleet_key(owner: u32, role: Role, theater: PlanetId) -> int {
    (owner * 6 + role_rank(role)) * 0x1_0000_0000 + theater.0
}

pub open spec fn placement_key(p: Placement) -> int {
    fleet_key(p.1, p.2, p.3)
}

pub open spec fn summary_key(f: FleetSummary) -> int {
    fleet_key(f.owner, f.role, f.theater)
}

/// The ships among `placements` whose fleet key is `key`, in placement order.
pub open spec fn ships_in(placements: Seq<Placement>, key: int) -> Seq<Entity>
    decreases placements.len(),
{
    if placements.len() == 0 {
        Seq::empty()
    } else {
        let earlier = ships_in(placements.drop_last(), key);
        if placement_key(placements.last()) == key {
            earlier.push(placements.last().0)
        } else {
            earlier
        }
    }
}

/// Fleets listed in ascending key order, no key twice.
pub open spec fn fleets_sorted(fs: Seq<FleetSummary>) -> bool {
    forall|i: int, j: int| 0 <= i < j < fs.len() ==> summary_key(fs[i]) < summary_key(fs[j])
}

/// Owner, role and theater are recovered from the fleet key.
pub proof fn lemma_fleet_key_injective(o1: u32, r1: Role, t1: PlanetId, o2: u32, r2: Role, t2: PlanetId)
    requires
        fleet_key(o1, r1, t1) == fleet_key(o2, r2, t2),
    ensures
        o1 == o2,
        r1 == r2,
        t1 == t2,
{
    let a1 = o1 * 6 + role_rank(r1);
    let a2 = o2 * 6 + role_rank(r2);
    assert(0 <= role_rank(r1) < 6 && 0 <= role_rank(r2) < 6);
    assert((a1 - a2) * 0x1_0000_0000 == t2.0 - t1.0);
    assert(a1 == a2) by (nonlinear_arith)
        requires
            (a1 - a2) * 0x1_0000_0000 == t2.0 - t1.0,
            0 <= t1.0 < 0x1_0000_0000,
            0 <= t2.0 < 0x1_0000_0000,
    ;
    assert(t1.0 == t2.0);
    assert(o1 == o2 && role_rank(r1) == role_rank(r2)) by (nonlinear_arith)
        requires
            o1 * 6 + role_rank(r1) == o2 * 6 + role_rank(r2),
            0 <= role_rank(r1) < 6,
            0 <= role_rank(r2) < 6,
    ;
}

fn fleet_key_of(owner: u32, role: Role, theater: PlanetId) -> (k: u128)
    ensures
        k == fleet_key(owner, role, theater),
{
    ((owner as u128) * 6 + (role.rank() as u128)) * 0x1_0000_0000 + (theater.0 as u128)
}

/// Fleets are ordered owner first, then role in declaration order, then
/// theater by planet id.
pub open spec fn listed_before(o1: u32, r1: Role, t1: PlanetId, o2: u32, r2: Role, t2: PlanetId) -> bool {
    ||| o1 < o2
    ||| o1 == o2 && role_rank(r1) < role_rank(r2)
    ||| o1 == o2 && r1 == r2 && t1.0 < t2.0
}

/// The fleet key orders fleets owner-major: by owner, then by role in
/// declaration order, then by theater.
pub proof fn law_fleet_key_is_owner_major(o1: u32, r1: Role, t1: PlanetId, o2: u32, r2: Role, t2: PlanetId)
    ensures
        fleet_key(o1, r1, t1) < fleet_key(o2, r2, t2) <==> listed_before(o1, r1, t1, o2, r2, t2),
{
    let a1 = o1 * 6 + role_rank(r1);
    let a2 = o2 * 6 + role_rank(r2);
    assert(0 <= role_rank(r1) < 6 && 0 <= role_rank(r2) < 6);
    if o1 < o2 {
        assert(a1 + 1 <= a2);
        assert(a1 * 0x1_0000_0000 + 0x1_0000_0000 <= a2 * 0x1_0000_0000);
    } else if o1 > o2 {
        assert(a2 + 1 <= a1);
        assert(a2 * 0x1_0000_0000 + 0x1_0000_0000 <= a1 * 0x1_0000_0000);
    } else if role_rank(r1) < role_rank(r2) {
        assert(a1 + 1 <= a2);
        assert(a1 * 0x1_0000_0000 + 0x1_0000_0000 <= a2 * 0x1_0000_0000);
    } else if role_rank(r1) > role_rank(r2) {
        assert(a2 + 1 <= a1);
        assert(a2 * 0x1_0000_0000 + 0x1_0000_0000 <= a1 * 0x1_0000_0000);
    } else {
        assert(r1 == r2);
    }
}

/// A grouping lists its fleets owner first, then role in declaration order,
/// then theater by planet id.
pub proof fn law_fleets_listed_by_owner_role_theater(fs: Seq<FleetSummary>, placements: Seq<Placement>)
    requires
        groups(fs, placements),
    ensures
        forall|a: int, b: int|
            0 <= a < b < fs.len() ==> listed_before(
                (#[trigger] fs[a]).owner,
                fs[a].role,
                fs[a].theater,
                (#[trigger] fs[b]).owner,
                fs[b].role,
                fs[b].theater,
            ),
{
    assert forall|a: int, b: int| 0 <= a < b < fs.len() implies listed_before(
        (#[trigger] fs[a]).owner,
        fs[a].role,
        fs[a].theater,
        (#[trigger] fs[b]).owner,
        fs[b].role,
        fs[b].theater,
    ) by {
        assert(summary_key(fs[a]) < summary_key(fs[b]));
        law_fleet_key_is_owner_major(fs[a].owner, fs[a].role, fs[a].theater, fs[b].owner, fs[b].role, fs[b].theater);
    }
}

/// Some fleet in `fs` has key `key`.
pub open spec fn has_fleet(fs: Seq<FleetSummary>, key: int) -> bool {
    exists|g: int| 0 <= g < fs.len() && summary_key(#[trigger] fs[g]) == key
}

/// Every key no fleet in `fs` carries has no ships among `placements`.
pub open spec fn unlisted_are_empty(fs: Seq<FleetSummary>, placements: Seq<Placement>) -> bool {
    forall|key: int| #![trigger ships_in(placements, key)] !has_fleet(fs, key) ==> ships_in(placements, key).len() == 0
}

/// A fleet's ships are exactly placements carrying its key, so each one
/// shares the fleet's owner, role and theater.
pub proof fn law_fleet_members_share_its_key(placements: Seq<Placement>, key: int, ship: Entity)
    requires
        ships_in(placements, key).contains(ship),
    ensures
        exists|j: int| 0 <= j < placements.len() && #[trigger] placements[j].0 == ship
            && placement_key(placements[j]) == key,
    decreases placements.len(),
{
    let earlier = placements.drop_last();
    if placements.len() > 0 {
        if placement_key(placements.last()) == key && ship == placements.last().0 {
            assert(placements[placements.len() - 1].0 == ship);
        } else {
            if placement_key(placements.last()) == key {
                let s = ships_in(earlier, key);
                let i = choose|i: int| 0 <= i < s.push(placements.last().0).len() && s.push(placements.last().0)[i] == ship;
                assert(i < s.len());
                assert(s[i] == ship);
            }
            law_fleet_members_share_its_key(earlier, key, ship);
            let j = choose|j: int| 0 <= j < earlier.len() && #[trigger] earlier[j].0 == ship
                && placement_key(earlier[j]) == key;
            assert(placements[j] == earlier[j]);
        }
    }
}

/// Every ship a grouping lists in a fleet was placed with that fleet's
/// owner, role and theater.
pub proof fn law_fleet_ships_match_the_fleet(
    fs: Seq<FleetSummary>,
    placements: Seq<Placement>,
    i: int,
    ship: Entity,
)
    requires
        groups(fs, placements),
        0 <= i < fs.len(),
        fs[i].ships@.contains(ship),
    ensures
        exists|j: int|
            0 <= j < placements.len() && #[trigger] placements[j].0 == ship && placements[j].1 == fs[i].owner
                && placements[j].2 == fs[i].role && placements[j].3 == fs[i].theater,
{
    let f = fs[i];
    law_fleet_members_share_its_key(placements, summary_key(f), ship);
    let j = choose|j: int| 0 <= j < placements.len() && #[trigger] placements[j].0 == ship
        && placement_key(placements[j]) == summary_key(f);
    lemma_fleet_key_injective(placements[j].1, placements[j].2, placements[j].3, f.owner, f.role, f.theater);
}

/// When no ship is placed twice, no ship belongs to two fleets.
pub proof fn law_ship_in_one_fleet(placements: Seq<Placement>, k1: int, k2: int, ship: Entity)
    requires
        forall|i: int, j: int| 0 <= i < j < placements.len() ==> #[trigger] placements[i].0 != #[trigger] placements[j].0,
        ships_in(placements, k1).contains(ship),
        ships_in(placements, k2).contains(ship),
    ensures
        k1 == k2,
{
    law_fleet_members_share_its_key(placements, k1, ship);
    law_fleet_members_share_its_key(placements, k2, ship);
    let a = choose|j: int| 0 <= j < placements.len() && #[trigger] placements[j].0 == ship
        && placement_key(placements[j]) == k1;
    let b = choose|j: int| 0 <= j < placements.len() && #[trigger] placements[j].0 == ship
        && placement_key(placements[j]) == k2;
    if a < b {
        assert(placements[a].0 != placements[b].0);
    } else if b < a {
        assert(placements[b].0 != placements[a].0);
    }
}

/// `fs` is the grouping of `placements`: sorted by key, each fleet holding
/// exactly the ships of its key, none empty, and every placement's key listed.
pub open spec fn groups(fs: Seq<FleetSummary>, placements: Seq<Placement>) -> bool {
    &&& fleets_sorted(fs)
    &&& forall|i: int| 0 <= i < fs.len() ==> (#[trigger] fs[i]).ships@ == ships_in(placements, summary_key(fs[i]))
    &&& forall|i: int| 0 <= i < fs.len() ==> (#[trigger] fs[i]).ships@.len() > 0
    &&& forall|j: int| 0 <= j < placements.len() ==> has_fleet(fs, placement_key(#[trigger] placements[j]))
    &&& unlisted_are_empty(fs, placements)
}

proof fn lemma_ships_in_push(placements: Seq<Placement>, p: Placement, key: int)
    ensures
        ships_in(placements.push(p), key) == if placement_key(p) == key {
            ships_in(placements, key).push(p.0)
        } else {
            ships_in(placements, key)
        },
{
    assert(placements.push(p).drop_last() =~= placements);
}

/// `m`, keyed by fleet key, is the grouping of `placed`: each entry is the
/// fleet of its key with exactly the ships of that key, none empty, and every
/// key that has ships is present.
spec fn map_groups(m: Map<u128, FleetSummary>, placed: Seq<Placement>) -> bool {
    &&& forall|k: u128|
        #[trigger] m.contains_key(k) ==> summary_key(m[k]) == k && m[k].ships@ == ships_in(placed, k as int)
            && m[k].ships@.len() > 0
    &&& forall|j: int| 0 <= j < placed.len() ==> m.contains_key(placement_key(#[trigger] placed[j]) as u128)
    &&& forall|key: int|
        #![trigger ships_in(placed, key)]
        ships_in(placed, key).len() > 0 ==> 0 <= key <= u128::MAX && m.contains_key(key as u128)
}

/// Fleet keys are machine integers, which the ordered map holds in order.
proof fn lemma_fleet_keys_are_ordered()
    ensures
        vstd::laws_cmp::obeys_cmp::<u128>(),
        vstd::std_specs::btree::key_obeys_cmp_spec::<u128>(),
{
    broadcast use vstd::laws_cmp::group_laws_cmp, vstd::std_specs::btree::group_btree_axioms;
}

/// The keys of an ordered walk of the map ascend.
proof fn lemma_walk_ascends(s: Seq<u128>)
    requires
        vstd::std_specs::btree::increasing_seq(s),
    ensures
        forall|i: int, j: int| 0 <= i < j < s.len() ==> s[i] < s[j],
{
    broadcast use vstd::laws_cmp::group_laws_cmp, vstd::std_specs::btree::group_btree_axioms;

    assert(vstd::laws_cmp::obeys_cmp::<u128>());
    assert forall|i: int, j: int| 0 <= i < j < s.len() implies s[i] < s[j] by {
        assert(vstd::std_specs::cmp::OrdSpec::cmp_spec(&s[i], &s[j]) is Less);
    }
}

fn copy_ships(v: &Vec<Entity>) -> (r: Vec<Entity>)
    ensures
        r@ == v@,
{
    let mut r: Vec<Entity> = Vec::new();
    let n = v.len();
    for i in 0..n
        invariant
            n == v@.len(),
            r@ == v@.take(i as int),
    {
        r.push(v[i]);
        proof {
            assert(v@.take(i + 1) =~= v@.take(i as int).push(v@[i as int]));
        }
    }
    proof {
        assert(v@.take(n as int) =~= v@);
    }
    r
}

/// Add one placed ship to the map of fleets by key.
fn add_to_fleets(map: &mut BTreeMap<u128, FleetSummary>, p: Placement, Ghost(placed): Ghost<Seq<Placement>>)
    requires
        map_groups(old(map)@, placed),
    ensures
        map_groups(final(map)@, placed.push(p)),
{
    broadcast use vstd::std_specs::btree::group_btree_axioms;

    proof {
        lemma_fleet_keys_are_ordered();
    }
    let (ship, owner, role, theater) = p;
    let k = fleet_key_of(owner, role, theater);
    let ghost prev = map@;
    let ghost next = placed.push(p);
    proof {
        assert forall|key: int| #![trigger ships_in(next, key)]
            ships_in(next, key) == if k == key {
                ships_in(placed, key).push(ship)
            } else {
                ships_in(placed, key)
            } by {
            lemma_ships_in_push(placed, p, key);
        }
    }
    match map.remove(&k) {
        Some(mut f) => {
            proof {
                assert(prev.contains_key(k) && f == prev[k]);
            }
            f.ships.push(ship);
            proof {
                assert(summary_key(f) == k);
                assert(f.ships@ == ships_in(next, k as int));
            }
            map.insert(k, f);
        },
        None => {
            let mut ships: Vec<Entity> = Vec::new();
            ships.push(ship);
            map.insert(k, FleetSummary { owner, role, theater, ships });
            proof {
                assert(!prev.contains_key(k));
                assert(ships_in(placed, k as int).len() == 0);
                assert(ships_in(next, k as int) =~= seq![ship]);
            }
        },
    }
    proof {
        let m = map@;
        assert(m == prev.insert(k, m[k]));
        assert forall|key: u128| #[trigger] m.contains_key(key) implies summary_key(m[key]) == key
            && m[key].ships@ == ships_in(next, key as int) && m[key].ships@.len() > 0 by {
            if key != k {
                assert(prev.contains_key(key));
            }
        }
        assert forall|j: int| 0 <= j < next.len() implies m.contains_key(placement_key(#[trigger] next[j]) as u128) by {
            if j < placed.len() {
                assert(next[j] == placed[j]);
            }
        }
        assert forall|key: int| #![trigger ships_in(next, key)]
            ships_in(next, key).len() > 0 implies 0 <= key <= u128::MAX && m.contains_key(key as u128) by {
            if key != k {
                assert(ships_in(placed, key).len() > 0);
            }
        }
    }
}

/// Group placed ships into fleets: one fleet per distinct `(owner, role,
/// theater)`, listed in that order, each holding its ships in placement order.
pub fn group_fleets(placements: &Vec<Placement>) -> (out: Vec<FleetSummary>)
    ensures
        groups(out@, placements@),
        forall|a: int, b: int|
            0 <= a < b < out@.len() ==> listed_before(
                (#[trigger] out@[a]).owner,
                out@[a].role,
                out@[a].theater,
                (#[trigger] out@[b]).owner,
                out@[b].role,
                out@[b].theater,
            ),
{
    broadcast use vstd::std_specs::btree::group_btree_axioms;

    let mut map: BTreeMap<u128, FleetSummary> = BTreeMap::new();
    let n = placements.len();
    proof {
        assert(placements@.take(0) =~= Seq::<Placement>::empty());
        assert(map_groups(map@, placements@.take(0)));
    }
    for i in 0..n
        invariant
            n == placements@.len(),
            map_groups(map@, placements@.take(i as int)),
    {
        proof {
            assert(placements@.take(i + 1) =~= placements@.take(i as int).push(placements@[i as int]));
        }
        add_to_fleets(&mut map, placements[i], Ghost(placements@.take(i as int)));
    }
    proof {
        assert(placements@.take(n as int) =~= placements@);
        lemma_fleet_keys_are_ordered();
    }
    let ghost m = map@;
    let walk = map.iter();
    let ghost entries = walk.remaining();
    proof {
        lemma_walk_ascends(entries.map_values(|kv: (&u128, &FleetSummary)| *kv.0));
    }
    let mut out: Vec<FleetSummary> = Vec::new();
    for kv in it: walk
        invariant
            it.seq() == entries,
            entries.len() == m.dom().len(),
            forall|g: int| 0 <= g < entries.len() ==> m.contains_key(*(#[trigger] entries[g]).0)
                && m[*entries[g].0] == *entries[g].1,
            out@.len() == it.index(),
            forall|g: int| 0 <= g < it.index() ==> (#[trigger] out@[g]).owner == (*entries[g].1).owner
                && out@[g].role == (*entries[g].1).role && out@[g].theater == (*entries[g].1).theater
                && out@[g].ships@ == (*entries[g].1).ships@,
    {
        let f = kv.1;
        out.push(FleetSummary { owner: f.owner, role: f.role, theater: f.theater, ships: copy_ships(&f.ships) });
    }
    proof {
        let keys = entries.map_values(|kv: (&u128, &FleetSummary)| *kv.0);
        assert forall|g: int| 0 <= g < out@.len() implies summary_key(#[trigger] out@[g]) == keys[g] && (
            #[trigger] out@[g]).ships@ == ships_in(placements@, keys[g] as int) && out@[g].ships@.len() > 0 by {
            assert(m.contains_key(*entries[g].0));
        }
        assert(fleets_sorted(out@)) by {
            assert forall|a: int, b: int| 0 <= a < b < out@.len() implies summary_key(out@[a]) < summary_key(
                out@[b],
            ) by {
                assert(summary_key(out@[a]) == keys[a]);
                assert(summary_key(out@[b]) == keys[b]);
            }
        }
        assert forall|key: u128| m.contains_key(key) implies has_fleet(out@, key as int) by {
            assert(entries.contains((&key, &m[key])));
            let g = choose|g: int| 0 <= g < entries.len() && entries[g] == (&key, &m[key]);
            assert(summary_key(out@[g]) == keys[g]);
        }
        assert forall|j: int| 0 <= j < placements@.len() implies has_fleet(
            out@,
            placement_key(#[trigger] placements@[j]),
        ) by {
            let key = placement_key(placements@[j]) as u128;
            assert(m.contains_key(key));
            assert(has_fleet(out@, key as int));
            assert(0 <= placement_key(placements@[j]) <= u128::MAX) by {
                lemma_fleet_key_range(placements@[j].1, placements@[j].2, placements@[j].3);
            }
        }
        assert forall|key: int| #![trigger ships_in(placements@, key)]
            !has_fleet(out@, key) implies ships_in(placements@, key).len() == 0 by {
            if ships_in(placements@, key).len() > 0 {
                assert(m.contains_key(key as u128));
                assert(has_fleet(out@, (key as u128) as int));
            }
        }
    }
    proof {
        law_fleets_listed_by_owner_role_theater(out@, placements@);
    }
    out
}

/// A fleet key fits the key type of the map.
proof fn lemma_fleet_key_range(owner: u32, role: Role, theater: PlanetId)
    ensures
        0 <= fleet_key(owner, role, theater) <= u128::MAX,
{
    assert(0 <= owner * 6 + role_rank(role) <= 0xffff_ffff * 6 + 5);
    assert(0 <= (owner * 6 + role_rank(role)) * 0x1_0000_0000 <= (0xffff_ffff * 6 + 5) * 0x1_0000_0000) by (
    nonlinear_arith)
        requires
            0 <= owner * 6 + role_rank(role) <= 0xffff_ffff * 6 + 5,
    ;
}

} // verus!
