//! Entity handles and dense, index-ordered component storage.
use vstd::prelude::*;

verus! {

/// An entity handle: a bare unique id. Nothing is ever despawned, so an id
/// never dangles and never aliases a reused slot.
#[derive(Clone, Copy, Debug, PartialEq, Eq, Hash, PartialOrd, Ord, Structural)]
pub struct Entity(pub u64);

/// The storage slot an entity's components live at.
pub open spec fn slot_of(e: Entity) -> usize {
    e.0 as usize
}

/// Dense component storage keyed by entity index; iteration is index-ordered
/// for determinism. An empty slot means the entity lacks the component.
pub struct ComponentStore<T> {
    items: Vec<Option<T>>,
}

impl<T> View for ComponentStore<T> {
    type V = Map<usize, T>;

    /// The components present, by slot.
    open spec fn view(&self) -> Map<usize, T> {
        Map::new(|k: usize| self.lookup(k) is Some, |k: usize| self.lookup(k)->0)
    }
}

impl<T> ComponentStore<T> {
    /// What slot `idx` holds; slots past the end are empty.
    pub closed spec fn lookup(self, idx: usize) -> Option<T> {
        if idx < self.items@.len() {
            self.items@[idx as int]
        } else {
            None
        }
    }

    /// An empty store.
    pub fn new() -> (r: Self)
        ensures
            r@ == Map::<usize, T>::empty(),
    {
        let r = ComponentStore { items: Vec::new() };
        assert(r@ =~= Map::<usize, T>::empty());
        r
    }

    /// The slot at `idx`, growing the store with empty slots to reach it.
    pub fn slot(&mut self, idx: usize) -> (r: &mut Option<T>)
        ensures
            *r == old(self).lookup(idx),
            final(self).lookup(idx) == *final(r),
            forall|j: usize| j != idx ==> #[trigger] final(self).lookup(j) == old(self).lookup(j),
    {
        let ghost before = self.items@;
        while self.items.len() <= idx
            invariant
                self.items@.len() >= before.len(),
                forall|j: int| 0 <= j < before.len() ==> #[trigger] self.items@[j] == before[j],
                forall|j: int| before.len() <= j < self.items@.len() ==> #[trigger] self.items@[j] is None,
            decreases idx + 1 - self.items@.len(),
        {
            self.items.push(None);
        }
        &mut self.items[idx]
    }

    /// Give `e` the component `v`, replacing any it had.
    pub fn insert(&mut self, e: Entity, v: T)
        ensures
            final(self)@ == old(self)@.insert(slot_of(e), v),
    {
        let s = self.slot(e.0 as usize);
        *s = Some(v);
        assert(final(self)@ =~= old(self)@.insert(slot_of(e), v));
    }

    /// `e`'s component, if it has one.
    pub fn get(&self, e: Entity) -> (r: Option<&T>)
        ensures
            match r {
                Some(v) => self@.contains_key(slot_of(e)) && *v == self@[slot_of(e)],
                None => !self@.contains_key(slot_of(e)),
            },
    {
        let idx = e.0 as usize;
        if idx < self.items.len() {
            match &self.items[idx] {
                Some(v) => Some(v),
                None => None,
            }
        } else {
            None
        }
    }

    /// Mutable access to `e`'s component, if it has one.
    pub fn get_mut(&mut self, e: Entity) -> (r: Option<&mut T>)
        ensures
            match r {
                Some(v) => old(self)@.contains_key(slot_of(e)) && *v == old(self)@[slot_of(e)]
                    && final(self)@ == old(self)@.insert(slot_of(e), *final(v)),
                None => !old(self)@.contains_key(slot_of(e)) && final(self)@ == old(self)@,
            },
    {
        let idx = e.0 as usize;
        if idx < self.items.len() {
            match &mut self.items[idx] {
                Some(v) => Some(v),
                None => None,
            }
        } else {
            None
        }
    }

    /// `e`'s component, created from `f` first if it has none.
    pub fn entry_or_insert_with<F: FnOnce() -> T>(&mut self, e: Entity, f: F) -> (r: &mut T)
        requires
            !old(self)@.contains_key(slot_of(e)) ==> f.requires(()),
        ensures
            old(self)@.contains_key(slot_of(e)) ==> *r == old(self)@[slot_of(e)],
            !old(self)@.contains_key(slot_of(e)) ==> f.ensures((), *r),
            final(self)@ == old(self)@.insert(slot_of(e), *final(r)),
    {
        let slot = self.slot(e.0 as usize);
        if slot.is_none() {
            *slot = Some(f());
        }
        let r = match slot {
            Some(v) => v,
            None => unreached(),
        };
        r
    }

    /// Whether `e` has this component.
    pub fn contains(&self, e: Entity) -> (r: bool)
        ensures
            r == self@.contains_key(slot_of(e)),
    {
        self.get(e).is_some()
    }

    /// Clear `e`'s component, returning what was there.
    pub fn remove(&mut self, e: Entity) -> (r: Option<T>)
        ensures
            r == old(self)@.get(slot_of(e)),
            final(self)@ == old(self)@.remove(slot_of(e)),
    {
        let idx = e.0 as usize;
        if idx < self.items.len() {
            let mut out: Option<T> = None;
            std::mem::swap(&mut out, &mut self.items[idx]);
            assert(final(self)@ =~= old(self)@.remove(slot_of(e)));
            out
        } else {
            assert(final(self)@ =~= old(self)@.remove(slot_of(e)));
            None
        }
    }
}

} // verus!
