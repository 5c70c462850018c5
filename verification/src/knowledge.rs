//! Planet and player ids, and the per-empire knowledge sets: which worlds an
//! empire has scanned (iterated in id order) and which it has dispatched a
//! craft to or claimed (tested for membership only).
use vstd::prelude::*;
use vstd::std_specs::slice::{into_iter_elts, spec_slice_iter};
use crate::sorted::{strictly_sorted, key_injective, sorted_insert, lemma_sorted_insert, Keyed, insert_sorted};

verus! {

/// A planet's id: its index in the galaxy.
#[derive(Clone, Copy, Debug, PartialEq, Eq, Hash, PartialOrd, Ord, Structural)]
pub struct PlanetId(pub u32);

/// A player's id: its seat index.
#[derive(Clone, Copy, Debug, PartialEq, Eq, Hash, PartialOrd, Ord, Structural)]
pub struct PlayerId(pub u32);

pub open spec fn planet_key(p: PlanetId) -> int {
    p.0 as int
}

pub open spec fn planet_key_fn() -> spec_fn(PlanetId) -> int {
    |p: PlanetId| planet_key(p)
}

/// Planets are ordered by their id: a lower id sorts first, and equal keys
/// mean the same planet.
pub proof fn law_planets_ordered_by_id(p: PlanetId, q: PlanetId)
    ensures
        p.0 < q.0 ==> planet_key(p) < planet_key(q),
        planet_key(p) == planet_key(q) ==> p == q,
{
}

/// Planet ids are told apart by their index.
pub proof fn lemma_planet_key_injective()
    ensures
        key_injective(planet_key_fn()),
{
    assert forall|a: PlanetId, b: PlanetId| #[trigger] planet_key_fn()(a) == #[trigger] planet_key_fn()(b)
        implies a == b by {
        assert(a.0 == b.0);
    }
}

impl Keyed for PlanetId {
    open spec fn spec_key(self) -> int {
        planet_key(self)
    }

    fn key(&self) -> (k: u64) {
        self.0 as u64
    }
}

/// A sorted, deduplicated set of planet ids, kept in a contiguous `Vec` so
/// that iteration is a sequential read in id order.
#[derive(Debug)]
pub struct ScannedSet {
    ids: Vec<PlanetId>,
}

impl View for ScannedSet {
    type V = Seq<PlanetId>;

    closed spec fn view(&self) -> Seq<PlanetId> {
        self.ids@
    }
}

impl ScannedSet {
    #[verifier::type_invariant]
    spec fn sorted_invariant(self) -> bool {
        strictly_sorted(self.ids@, planet_key_fn())
    }

    /// An empty set.
    pub fn new() -> (r: ScannedSet)
        ensures
            r@ == Seq::<PlanetId>::empty(),
    {
        ScannedSet { ids: Vec::new() }
    }

    /// Add `pid`; `true` if it was not already present.
    pub fn insert(&mut self, pid: PlanetId) -> (r: bool)
        ensures
            r == !old(self)@.contains(pid),
            final(self)@ == sorted_insert(old(self)@, pid, planet_key_fn()),
            final(self)@.to_set() == old(self)@.to_set().insert(pid),
            strictly_sorted(final(self)@, planet_key_fn()),
            forall|i: int, j: int|
                0 <= i < j < final(self)@.len() ==> (#[trigger] final(self)@[i]).0 < (#[trigger] final(self)@[j]).0,
    {
        proof {
            use_type_invariant(&*self);
            lemma_planet_key_injective();
        }
        let ghost before = self.ids@;
        proof {
            lemma_sorted_insert(before, pid, planet_key_fn());
        }
        let mut v: Vec<PlanetId> = Vec::new();
        std::mem::swap(&mut v, &mut self.ids);
        let added = insert_sorted(&mut v, pid, Ghost(planet_key_fn()));
        self.ids = v;
        proof {
            assert forall|i: int, j: int| 0 <= i < j < self@.len() implies (#[trigger] self@[i]).0
                < (#[trigger] self@[j]).0 by {
                assert(planet_key_fn()(self@[i]) < planet_key_fn()(self@[j]));
            }
        }
        added
    }

    /// The ids, in ascending order.
    pub fn iter(&self) -> (r: core::slice::Iter<'_, PlanetId>)
        ensures
            into_iter_elts(r) == self@,
            forall|i: int, j: int|
                0 <= i < j < into_iter_elts(r).len() ==> (#[trigger] into_iter_elts(r)[i]).0
                    < (#[trigger] into_iter_elts(r)[j]).0,
    {
        proof {
            use_type_invariant(self);
            assert forall|i: int, j: int| 0 <= i < j < self@.len() implies (#[trigger] self@[i]).0
                < (#[trigger] self@[j]).0 by {
                assert(planet_key_fn()(self@[i]) < planet_key_fn()(self@[j]));
            }
        }
        let s = self.ids.as_slice();
        let r = s.iter();
        proof {
            broadcast use vstd::std_specs::slice::axiom_spec_slice_iter;
            assert(into_iter_elts(r) =~= self@);
        }
        r
    }

    pub fn len(&self) -> (r: usize)
        ensures
            r == self@.len(),
    {
        self.ids.len()
    }

    pub fn is_empty(&self) -> (r: bool)
        ensures
            r == (self@.len() == 0),
    {
        self.ids.len() == 0
    }

    /// Whether every id here is also in `other`. Both sides are sorted, so
    /// this is one linear merge.
    pub fn is_subset(&self, other: &ScannedSet) -> (r: bool)
        ensures
            r == self@.to_set().subset_of(other@.to_set()),
    {
        proof {
            use_type_invariant(self);
            use_type_invariant(other);
        }
        let a = &self.ids;
        let b = &other.ids;
        let mut i: usize = 0;
        let mut j: usize = 0;
        while i < a.len()
            invariant
                i <= a@.len(),
                j <= b@.len(),
                a@ == self@,
                b@ == other@,
                strictly_sorted(a@, planet_key_fn()),
                strictly_sorted(b@, planet_key_fn()),
                forall|k: int| 0 <= k < i ==> other@.contains(#[trigger] a@[k]),
                i < a@.len() ==> forall|l: int| 0 <= l < j ==> (#[trigger] b@[l]).0 < a@[i as int].0,
            decreases a@.len() - i, b@.len() - j,
        {
            while j < b.len() && b[j].0 < a[i].0
                invariant
                    i < a@.len(),
                    j <= b@.len(),
                    forall|l: int| 0 <= l < j ==> (#[trigger] b@[l]).0 < a@[i as int].0,
                decreases b@.len() - j,
            {
                j += 1;
            }
            if j < b.len() && b[j].0 == a[i].0 {
                proof {
                    assert(b@[j as int] == a@[i as int]);
                    assert(other@.contains(a@[i as int]));
                    if i + 1 < a@.len() {
                        assert(planet_key_fn()(a@[i as int]) < planet_key_fn()(a@[i + 1]));
                        assert forall|l: int| 0 <= l < j + 1 implies (#[trigger] b@[l]).0 < a@[i + 1].0 by {
                            if l < j {
                            }
                        }
                    }
                }
                i += 1;
                j += 1;
            } else {
                proof {
                    let x = a@[i as int];
                    assert(self@.to_set().contains(x));
                    assert(!other@.to_set().contains(x)) by {
                        if other@.contains(x) {
                            let l = choose|l: int| 0 <= l < b@.len() && b@[l] == x;
                            if l > j {
                                assert(planet_key_fn()(b@[j as int]) < planet_key_fn()(b@[l]));
                            }
                        }
                    }
                }
                return false;
            }
        }
        proof {
            assert forall|x: PlanetId| self@.to_set().contains(x) implies other@.to_set().contains(x) by {
                let k = choose|k: int| 0 <= k < a@.len() && a@[k] == x;
                assert(other@.contains(a@[k]));
            }
        }
        true
    }
}

impl Default for ScannedSet {
    fn default() -> (r: ScannedSet)
        ensures
            r@ == Seq::<PlanetId>::empty(),
    {
        ScannedSet::new()
    }
}

/// Dense per-planet flag set, indexed by planet id; grows on demand.
#[derive(Debug)]
pub struct VisitedMask {
    bits: Vec<bool>,
}

impl View for VisitedMask {
    type V = Set<PlanetId>;

    closed spec fn view(&self) -> Set<PlanetId> {
        Set::new(|p: PlanetId| (p.0 as int) < self.bits@.len() && self.bits@[p.0 as int])
    }
}

impl VisitedMask {
    /// An empty mask.
    pub fn new() -> (r: VisitedMask)
        ensures
            r@ == Set::<PlanetId>::empty(),
    {
        let r = VisitedMask { bits: Vec::new() };
        assert(r@ =~= Set::<PlanetId>::empty());
        r
    }

    /// Mark `pid`.
    pub fn insert(&mut self, pid: PlanetId)
        ensures
            final(self)@ == old(self)@.insert(pid),
    {
        let i = pid.0 as usize;
        let ghost before = self.bits@;
        while self.bits.len() <= i
            invariant
                self.bits@.len() >= before.len(),
                forall|j: int| 0 <= j < before.len() ==> #[trigger] self.bits@[j] == before[j],
                forall|j: int| before.len() <= j < self.bits@.len() ==> !#[trigger] self.bits@[j],
            decreases i + 1 - self.bits@.len(),
        {
            self.bits.push(false);
        }
        self.bits.set(i, true);
        assert(final(self)@ =~= old(self)@.insert(pid));
    }

    /// Whether `pid` is marked.
    pub fn contains(&self, pid: PlanetId) -> (r: bool)
        ensures
            r == self@.contains(pid),
    {
        let i = pid.0 as usize;
        if i < self.bits.len() {
            self.bits[i]
        } else {
            false
        }
    }
}

impl Default for VisitedMask {
    fn default() -> (r: VisitedMask)
        ensures
            r@ == Set::<PlanetId>::empty(),
    {
        VisitedMask::new()
    }
}

} // verus!
