//! The hull taxonomy, vehicle roles, design classes, and the per-empire
//! Design roster.
use vstd::prelude::*;
use crate::sorted::{
    strictly_sorted, key_injective, lemma_sorted_determined_by_set, sorted_insert, lemma_sorted_insert,
    Keyed, search_sorted, insert_sorted,
};

verus! {

/// A ship's current mission. Distinct from its [`HullType`], which is what
/// the ship *is* and is fixed at build; a role can change during play.
#[derive(Clone, Copy, Debug, PartialEq, Eq, PartialOrd, Ord, Hash, Structural)]
pub enum Role {
    Scout,
    Colonizer,
    Miner,
    Freighter,
    /// Standing, re-taskable, never scrapped automatically.
    Reserve,
    /// Terminal: recycled for its mineral value.
    Scrapped,
}

/// The size × class × posture hull taxonomy, in its declaration order.
#[derive(Clone, Copy, Debug, PartialEq, Eq, PartialOrd, Ord, Hash, Structural)]
pub enum HullType {
    LimitedSystems,
    MediumSystems,
    GeneralSystems,
    LimitedContactVehicle,
    LimitedContactUnit,
    GeneralContactVehicle,
    GeneralContactUnit,
    LimitedOffensive,
    RapidOffensive,
    GeneralOffensive,
}

/// A named design within a hull type.
#[derive(Clone, Copy, Debug, PartialEq, Eq, PartialOrd, Ord, Hash, Structural)]
pub enum Class {
    /// The Limited Systems Vehicle design.
    Meadow,
    /// The Limited Contact Vehicle design.
    Tor,
    /// A hull type whose classes are not yet named.
    Unnamed,
}

/// Position of a role in declaration order.
pub open spec fn role_rank(r: Role) -> int {
    match r {
        Role::Scout => 0,
        Role::Colonizer => 1,
        Role::Miner => 2,
        Role::Freighter => 3,
        Role::Reserve => 4,
        Role::Scrapped => 5,
    }
}

impl Role {
    /// Every role, in declaration order.
    pub const ALL: [Role; 6] = [
        Role::Scout,
        Role::Colonizer,
        Role::Miner,
        Role::Freighter,
        Role::Reserve,
        Role::Scrapped,
    ];

    /// Position in declaration order.
    pub fn rank(self) -> (r: u8)
        ensures
            r == role_rank(self),
    {
        match self {
            Role::Scout => 0,
            Role::Colonizer => 1,
            Role::Miner => 2,
            Role::Freighter => 3,
            Role::Reserve => 4,
            Role::Scrapped => 5,
        }
    }
}

/// Position of a hull type in declaration order.
pub open spec fn hull_rank(h: HullType) -> int {
    match h {
        HullType::LimitedSystems => 0,
        HullType::MediumSystems => 1,
        HullType::GeneralSystems => 2,
        HullType::LimitedContactVehicle => 3,
        HullType::LimitedContactUnit => 4,
        HullType::GeneralContactVehicle => 5,
        HullType::GeneralContactUnit => 6,
        HullType::LimitedOffensive => 7,
        HullType::RapidOffensive => 8,
        HullType::GeneralOffensive => 9,
    }
}

/// Position of a class in declaration order.
pub open spec fn class_rank(c: Class) -> int {
    match c {
        Class::Meadow => 0,
        Class::Tor => 1,
        Class::Unnamed => 2,
    }
}

/// The order designs are kept in: by hull type, then by class — the
/// lexicographic order of `(HullType, Class)`.
pub open spec fn design_key(d: (HullType, Class)) -> int {
    hull_rank(d.0) * 3 + class_rank(d.1)
}

pub open spec fn design_key_fn() -> spec_fn((HullType, Class)) -> int {
    |d: (HullType, Class)| design_key(d)
}

/// A design list in the roster's canonical order.
pub open spec fn designs_sorted(s: Seq<(HullType, Class)>) -> bool {
    strictly_sorted(s, design_key_fn())
}

/// Distinct designs have distinct keys.
pub proof fn lemma_design_key_injective()
    ensures
        key_injective(design_key_fn()),
{
    assert forall|a: (HullType, Class), b: (HullType, Class)|
        #[trigger] design_key_fn()(a) == #[trigger] design_key_fn()(b) implies a == b by {
        assert(0 <= class_rank(a.1) < 3 && 0 <= class_rank(b.1) < 3);
        assert(hull_rank(a.0) == hull_rank(b.0));
        assert(class_rank(a.1) == class_rank(b.1));
    }
}

/// Roles are ranked by declaration order: `Role::ALL` lists every role once,
/// each at its rank.
pub proof fn law_roles_ranked_in_declaration_order(r: Role)
    ensures
        0 <= role_rank(r) < 6,
        Role::ALL@[role_rank(r)] == r,
        forall|i: int| 0 <= i < 6 ==> role_rank(#[trigger] Role::ALL@[i]) == i,
{
}

/// Classes are ranked by declaration order: `Class::ALL` lists every class
/// once, each at its rank.
pub proof fn law_classes_ranked_in_declaration_order(c: Class)
    ensures
        0 <= class_rank(c) < 3,
        Class::ALL@[class_rank(c)] == c,
        forall|i: int| 0 <= i < 3 ==> class_rank(#[trigger] Class::ALL@[i]) == i,
{
}

/// Designs are ordered lexicographically: first by hull type, then by class,
/// each in declaration order.
pub proof fn law_designs_ordered_by_hull_then_class(a: (HullType, Class), b: (HullType, Class))
    ensures
        design_key(a) < design_key(b) <==> (hull_rank(a.0) < hull_rank(b.0) || (hull_rank(a.0) == hull_rank(
            b.0,
        ) && class_rank(a.1) < class_rank(b.1))),
{
    assert(0 <= class_rank(a.1) < 3 && 0 <= class_rank(b.1) < 3);
}

/// `HullType::ALL` lists every hull type exactly once, each at its rank.
pub proof fn law_all_hulls_listed_once(h: HullType)
    ensures
        0 <= hull_rank(h) < 10,
        HullType::ALL@[hull_rank(h)] == h,
        forall|i: int| 0 <= i < 10 ==> hull_rank(#[trigger] HullType::ALL@[i]) == i,
{
}

impl HullType {
    /// Every hull type, in declaration order.
    pub const ALL: [HullType; 10] = [
        HullType::LimitedSystems,
        HullType::MediumSystems,
        HullType::GeneralSystems,
        HullType::LimitedContactVehicle,
        HullType::LimitedContactUnit,
        HullType::GeneralContactVehicle,
        HullType::GeneralContactUnit,
        HullType::LimitedOffensive,
        HullType::RapidOffensive,
        HullType::GeneralOffensive,
    ];

    /// Position in declaration order.
    pub fn rank(self) -> (r: u8)
        ensures
            r == hull_rank(self),
    {
        match self {
            HullType::LimitedSystems => 0,
            HullType::MediumSystems => 1,
            HullType::GeneralSystems => 2,
            HullType::LimitedContactVehicle => 3,
            HullType::LimitedContactUnit => 4,
            HullType::GeneralContactVehicle => 5,
            HullType::GeneralContactUnit => 6,
            HullType::LimitedOffensive => 7,
            HullType::RapidOffensive => 8,
            HullType::GeneralOffensive => 9,
        }
    }
}

impl Class {
    /// Every class, in declaration order.
    pub const ALL: [Class; 3] = [Class::Meadow, Class::Tor, Class::Unnamed];

    /// Position in declaration order.
    pub fn rank(self) -> (r: u8)
        ensures
            r == class_rank(self),
    {
        match self {
            Class::Meadow => 0,
            Class::Tor => 1,
            Class::Unnamed => 2,
        }
    }
}

fn design_key_of(hull: HullType, class: Class) -> (k: u8)
    ensures
        k == design_key((hull, class)),
{
    hull.rank() * 3 + class.rank()
}

/// Which hull type the baseline autopilot builds for each role: Scout → LCV,
/// Colonizer → MSV, Miner → LSV, Freighter → MSV; the inert roles map to LSV.
pub open spec fn spec_role_hull_type(role: Role) -> HullType {
    match role {
        Role::Scout => HullType::LimitedContactVehicle,
        Role::Colonizer => HullType::MediumSystems,
        Role::Miner => HullType::LimitedSystems,
        Role::Freighter => HullType::MediumSystems,
        Role::Reserve | Role::Scrapped => HullType::LimitedSystems,
    }
}

/// Which hull type the baseline autopilot builds for `role`.
pub fn role_hull_type(role: Role) -> (h: HullType)
    ensures
        h == spec_role_hull_type(role),
{
    match role {
        Role::Scout => HullType::LimitedContactVehicle,
        Role::Colonizer => HullType::MediumSystems,
        Role::Miner => HullType::LimitedSystems,
        Role::Freighter => HullType::MediumSystems,
        Role::Reserve | Role::Scrapped => HullType::LimitedSystems,
    }
}

/// The roster: which `(hull, class)` designs a player can build.
///
/// Designs are only ever added, and the list is kept sorted and free of
/// duplicates so that iterating it is deterministic.
#[derive(Debug)]
pub struct Roster {
    unlocked: Vec<(HullType, Class)>,
}

impl View for Roster {
    type V = Seq<(HullType, Class)>;

    closed spec fn view(&self) -> Seq<(HullType, Class)> {
        self.unlocked@
    }
}

impl Keyed for (HullType, Class) {
    open spec fn spec_key(self) -> int {
        design_key(self)
    }

    fn key(&self) -> (k: u64) {
        design_key_of(self.0, self.1) as u64
    }
}

impl Roster {
    #[verifier::type_invariant]
    spec fn sorted_invariant(self) -> bool {
        designs_sorted(self.unlocked@)
    }

    /// Add a design. Idempotent; keeps the list sorted so iteration is stable.
    pub fn unlock(&mut self, hull: HullType, class: Class)
        ensures
            final(self)@ == sorted_insert(old(self)@, (hull, class), design_key_fn()),
            final(self)@.to_set() == old(self)@.to_set().insert((hull, class)),
            designs_sorted(final(self)@),
    {
        proof {
            use_type_invariant(&*self);
            lemma_design_key_injective();
        }
        let ghost before = self.unlocked@;
        proof {
            lemma_sorted_insert(before, (hull, class), design_key_fn());
        }
        let mut v: Vec<(HullType, Class)> = Vec::new();
        std::mem::swap(&mut v, &mut self.unlocked);
        insert_sorted(&mut v, (hull, class), Ghost(design_key_fn()));
        self.unlocked = v;
    }

    /// Whether this exact design is unlocked.
    pub fn has(&self, hull: HullType, class: Class) -> (r: bool)
        ensures
            r == self@.contains((hull, class)),
    {
        proof {
            use_type_invariant(self);
            lemma_design_key_injective();
        }
        let key = design_key_of(hull, class) as u64;
        let (found, at) = search_sorted(&self.unlocked, key, Ghost(design_key_fn()));
        proof {
            if found {
                assert(design_key_fn()(self.unlocked@[at as int]) == design_key_fn()((hull, class)));
                assert(self@[at as int] == (hull, class));
            } else if self@.contains((hull, class)) {
                let i = choose|i: int| 0 <= i < self@.len() && self@[i] == (hull, class);
                if i < at {
                } else {
                    if i > at {
                        assert(design_key_fn()(self.unlocked@[at as int]) < design_key_fn()(self.unlocked@[i]));
                    }
                }
            }
        }
        found
    }

    /// Can this empire build *any* design of this hull type?
    pub fn has_hull(&self, hull: HullType) -> (r: bool)
        ensures
            r == exists|c: Class| self@.contains((hull, c)),
    {
        let mut i: usize = 0;
        while i < self.unlocked.len()
            invariant
                i <= self.unlocked@.len(),
                forall|j: int| 0 <= j < i ==> (#[trigger] self.unlocked@[j]).0 != hull,
            decreases self.unlocked@.len() - i,
        {
            if self.unlocked[i].0 == hull {
                proof {
                    assert(self@.contains((hull, self.unlocked@[i as int].1)));
                }
                return true;
            }
            i += 1;
        }
        proof {
            assert forall|c: Class| !self@.contains((hull, c)) by {
                if self@.contains((hull, c)) {
                    let j = choose|j: int| 0 <= j < self@.len() && self@[j] == (hull, c);
                    assert(self.unlocked@[j].0 == hull);
                }
            }
        }
        false
    }

    /// The first unlocked class for `hull`, in class order, if any — what a
    /// build order uses when doctrine names a hull but not a design.
    pub fn class_for(&self, hull: HullType) -> (r: Option<Class>)
        ensures
            match r {
                Some(c) => self@.contains((hull, c)) && forall|c2: Class|
                    #[trigger] self@.contains((hull, c2)) ==> class_rank(c) <= class_rank(c2),
                None => forall|c2: Class| !self@.contains((hull, c2)),
            },
    {
        proof {
            use_type_invariant(self);
        }
        let mut i: usize = 0;
        while i < self.unlocked.len()
            invariant
                i <= self.unlocked@.len(),
                designs_sorted(self.unlocked@),
                forall|j: int| 0 <= j < i ==> (#[trigger] self.unlocked@[j]).0 != hull,
            decreases self.unlocked@.len() - i,
        {
            if self.unlocked[i].0 == hull {
                let c = self.unlocked[i].1;
                proof {
                    assert(self.unlocked@[i as int] == (hull, c));
                    assert forall|c2: Class| #[trigger] self@.contains((hull, c2)) implies class_rank(c)
                        <= class_rank(c2) by {
                        let j = choose|j: int| 0 <= j < self@.len() && self@[j] == (hull, c2);
                        assert(self.unlocked@[j].0 == hull);
                        if j > i {
                            assert(design_key_fn()(self.unlocked@[i as int]) < design_key_fn()(
                                self.unlocked@[j],
                            ));
                        }
                    }
                }
                return Some(c);
            }
            i += 1;
        }
        proof {
            assert forall|c: Class| !self@.contains((hull, c)) by {
                if self@.contains((hull, c)) {
                    let j = choose|j: int| 0 <= j < self@.len() && self@[j] == (hull, c);
                    assert(self.unlocked@[j].0 == hull);
                }
            }
        }
        None
    }

    /// Every unlocked design, in canonical order.
    pub fn designs(&self) -> (r: &[(HullType, Class)])
        ensures
            r@ == self@,
            designs_sorted(r@),
            forall|i: int, j: int|
                0 <= i < j < r@.len() ==> hull_rank((#[trigger] r@[i]).0) < hull_rank((#[trigger] r@[j]).0) || (
                hull_rank(r@[i].0) == hull_rank(r@[j].0) && class_rank(r@[i].1) < class_rank(r@[j].1)),
    {
        proof {
            use_type_invariant(self);
            assert forall|i: int, j: int| 0 <= i < j < self@.len() implies hull_rank((#[trigger] self@[i]).0)
                < hull_rank((#[trigger] self@[j]).0) || (hull_rank(self@[i].0) == hull_rank(self@[j].0)
                && class_rank(self@[i].1) < class_rank(self@[j].1)) by {
                assert(design_key_fn()(self@[i]) < design_key_fn()(self@[j]));
                law_designs_ordered_by_hull_then_class(self@[i], self@[j]);
            }
        }
        self.unlocked.as_slice()
    }

    pub fn len(&self) -> (r: usize)
        ensures
            r == self@.len(),
    {
        self.unlocked.len()
    }

    pub fn is_empty(&self) -> (r: bool)
        ensures
            r == (self@.len() == 0),
    {
        self.unlocked.len() == 0
    }
}

/// Unlocking a design that is already unlocked changes nothing: unlocking
/// twice is the same as unlocking once.
pub proof fn law_unlock_idempotent(designs: Seq<(HullType, Class)>, d: (HullType, Class))
    requires
        designs_sorted(designs),
    ensures
        sorted_insert(sorted_insert(designs, d, design_key_fn()), d, design_key_fn())
            == sorted_insert(designs, d, design_key_fn()),
{
    lemma_design_key_injective();
    lemma_sorted_insert(designs, d, design_key_fn());
    let once = sorted_insert(designs, d, design_key_fn());
    assert(once.to_set().contains(d));
    assert(once.contains(d));
    lemma_sorted_insert(once, d, design_key_fn());
}

/// The roster does not depend on the order designs were unlocked in.
pub proof fn law_unlock_order_independent(
    designs: Seq<(HullType, Class)>,
    a: (HullType, Class),
    b: (HullType, Class),
)
    requires
        designs_sorted(designs),
    ensures
        sorted_insert(sorted_insert(designs, a, design_key_fn()), b, design_key_fn())
            == sorted_insert(sorted_insert(designs, b, design_key_fn()), a, design_key_fn()),
{
    let k = design_key_fn();
    lemma_design_key_injective();
    lemma_sorted_insert(designs, a, k);
    lemma_sorted_insert(designs, b, k);
    let ab = sorted_insert(sorted_insert(designs, a, k), b, k);
    let ba = sorted_insert(sorted_insert(designs, b, k), a, k);
    lemma_sorted_insert(sorted_insert(designs, a, k), b, k);
    lemma_sorted_insert(sorted_insert(designs, b, k), a, k);
    assert(ab.to_set() =~= ba.to_set());
    lemma_sorted_determined_by_set(ab, ba, k);
}

/// Design is permanent: unlocking never removes a design that was unlocked.
pub proof fn law_unlock_never_removes(
    designs: Seq<(HullType, Class)>,
    d: (HullType, Class),
    kept: (HullType, Class),
)
    requires
        designs_sorted(designs),
        designs.contains(kept),
    ensures
        sorted_insert(designs, d, design_key_fn()).contains(kept),
        sorted_insert(designs, d, design_key_fn()).contains(d),
{
    lemma_design_key_injective();
    lemma_sorted_insert(designs, d, design_key_fn());
    assert(sorted_insert(designs, d, design_key_fn()).to_set().contains(kept));
    assert(sorted_insert(designs, d, design_key_fn()).to_set().contains(d));
}

impl Clone for Roster {
    /// A roster with the same designs.
    fn clone(&self) -> (r: Roster)
        ensures
            r@ == self@,
    {
        proof {
            use_type_invariant(self);
        }
        let mut unlocked: Vec<(HullType, Class)> = Vec::new();
        let n = self.unlocked.len();
        for i in 0..n
            invariant
                n == self.unlocked@.len(),
                unlocked@ == self.unlocked@.take(i as int),
        {
            unlocked.push(self.unlocked[i]);
            proof {
                assert(self.unlocked@.take(i + 1) =~= self.unlocked@.take(i as int).push(self.unlocked@[i as int]));
            }
        }
        proof {
            assert(self.unlocked@.take(n as int) =~= self.unlocked@);
        }
        Roster { unlocked }
    }
}

impl Default for Roster {
    fn default() -> (r: Roster)
        ensures
            r@ == Seq::<(HullType, Class)>::empty(),
    {
        Roster { unlocked: Vec::new() }
    }
}

} // verus!
