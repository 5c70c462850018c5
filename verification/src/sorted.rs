//! Facts about sequences kept in strictly ascending order of an integer key.
//!
//! Both the Design roster and the scanned-world set store a set as such a
//! sequence, so that iterating it is deterministic. The central fact here is
//! that the sequence is then a function of the set alone: two strictly sorted
//! sequences holding the same elements are the same sequence.
use vstd::prelude::*;

verus! {

/// `s` is strictly ascending under `key`.
pub open spec fn strictly_sorted<A>(s: Seq<A>, key: spec_fn(A) -> int) -> bool {
    forall|i: int, j: int| 0 <= i < j < s.len() ==> key(s[i]) < key(s[j])
}

/// `key` tells elements apart.
pub open spec fn key_injective<A>(key: spec_fn(A) -> int) -> bool {
    forall|a: A, b: A| #[trigger] key(a) == #[trigger] key(b) ==> a == b
}

/// `x` added to the strictly sorted `s` at its place in key order; `s` itself
/// when an element with the same key is already there.
pub open spec fn sorted_insert<A>(s: Seq<A>, x: A, key: spec_fn(A) -> int) -> Seq<A>
    decreases s.len(),
{
    if s.len() == 0 {
        seq![x]
    } else if key(x) < key(s[0]) {
        seq![x] + s
    } else if key(x) == key(s[0]) {
        s
    } else {
        seq![s[0]] + sorted_insert(s.drop_first(), x, key)
    }
}

/// Inserting keeps the order, and adds exactly `x` to the elements.
pub proof fn lemma_sorted_insert<A>(s: Seq<A>, x: A, key: spec_fn(A) -> int)
    requires
        strictly_sorted(s, key),
        key_injective(key),
    ensures
        strictly_sorted(sorted_insert(s, x, key), key),
        sorted_insert(s, x, key).to_set() == s.to_set().insert(x),
        sorted_insert(s, x, key).len() == if s.contains(x) { s.len() } else { s.len() + 1 },
        s.contains(x) ==> sorted_insert(s, x, key) == s,
    decreases s.len(),
{
    let r = sorted_insert(s, x, key);
    if s.len() == 0 {
        assert(r.to_set() =~= s.to_set().insert(x)) by {
            assert(r[0] == x);
        }
    } else if key(x) < key(s[0]) {
        assert(!s.contains(x)) by {
            if s.contains(x) {
                let i = choose|i: int| 0 <= i < s.len() && s[i] == x;
                if i > 0 {
                    assert(key(s[0]) < key(s[i]));
                }
            }
        }
        assert(strictly_sorted(r, key)) by {
            assert forall|i: int, j: int| 0 <= i < j < r.len() implies key(r[i]) < key(r[j]) by {
                assert(r[j] == s[j - 1]);
                if i > 0 {
                    assert(r[i] == s[i - 1]);
                } else if j - 1 > 0 {
                    assert(key(s[0]) < key(s[j - 1]));
                }
            }
        }
        assert(r.to_set() =~= s.to_set().insert(x)) by {
            assert forall|y: A| r.to_set().contains(y) implies s.to_set().insert(x).contains(y) by {
                let i = choose|i: int| 0 <= i < r.len() && r[i] == y;
                if i > 0 {
                    assert(s[i - 1] == y);
                }
            }
            assert forall|y: A| s.to_set().insert(x).contains(y) implies r.to_set().contains(y) by {
                if y == x {
                    assert(r[0] == x);
                } else {
                    let i = choose|i: int| 0 <= i < s.len() && s[i] == y;
                    assert(r[i + 1] == y);
                }
            }
        }
    } else if key(x) == key(s[0]) {
        assert(x == s[0]);
        assert(s.contains(x));
        assert(s.to_set().insert(x) =~= s.to_set());
    } else {
        let t = s.drop_first();
        assert(strictly_sorted(t, key)) by {
            assert forall|i: int, j: int| 0 <= i < j < t.len() implies key(t[i]) < key(t[j]) by {
                assert(t[i] == s[i + 1]);
                assert(t[j] == s[j + 1]);
            }
        }
        lemma_sorted_insert(t, x, key);
        let rt = sorted_insert(t, x, key);
        assert(r == seq![s[0]] + rt);
        assert(x != s[0]);
        assert(s.contains(x) == t.contains(x)) by {
            if s.contains(x) {
                let i = choose|i: int| 0 <= i < s.len() && s[i] == x;
                assert(i > 0);
                assert(t[i - 1] == x);
            }
            if t.contains(x) {
                let i = choose|i: int| 0 <= i < t.len() && t[i] == x;
                assert(s[i + 1] == x);
            }
        }
        // every element of rt lies above s[0]
        assert forall|k: int| 0 <= k < rt.len() implies key(s[0]) < key(#[trigger] rt[k]) by {
            assert(rt.to_set().contains(rt[k]));
            assert(t.to_set().insert(x).contains(rt[k]));
            if rt[k] != x {
                let i = choose|i: int| 0 <= i < t.len() && t[i] == rt[k];
                assert(s[i + 1] == rt[k]);
            }
        }
        assert(strictly_sorted(r, key)) by {
            assert forall|i: int, j: int| 0 <= i < j < r.len() implies key(r[i]) < key(r[j]) by {
                assert(r[j] == rt[j - 1]);
                if i > 0 {
                    assert(r[i] == rt[i - 1]);
                }
            }
        }
        assert(r.to_set() =~= s.to_set().insert(x)) by {
            assert forall|y: A| r.to_set().contains(y) implies s.to_set().insert(x).contains(y) by {
                let i = choose|i: int| 0 <= i < r.len() && r[i] == y;
                if i == 0 {
                    assert(s[0] == y);
                } else {
                    assert(rt[i - 1] == y);
                    assert(rt.to_set().contains(y));
                    if y != x {
                        assert(t.to_set().contains(y));
                        let m = choose|m: int| 0 <= m < t.len() && t[m] == y;
                        assert(s[m + 1] == y);
                    }
                }
            }
            assert forall|y: A| s.to_set().insert(x).contains(y) implies r.to_set().contains(y) by {
                if y == s[0] {
                    assert(r[0] == y);
                } else {
                    if y != x {
                        let i = choose|i: int| 0 <= i < s.len() && s[i] == y;
                        assert(i > 0);
                        assert(t[i - 1] == y);
                        assert(t.to_set().contains(y));
                    }
                    assert(rt.to_set().contains(y));
                    let m = choose|m: int| 0 <= m < rt.len() && rt[m] == y;
                    assert(r[m + 1] == y);
                }
            }
        }
    }
}

/// A strictly sorted sequence is determined by the set of its elements.
pub proof fn lemma_sorted_determined_by_set<A>(s1: Seq<A>, s2: Seq<A>, key: spec_fn(A) -> int)
    requires
        strictly_sorted(s1, key),
        strictly_sorted(s2, key),
        key_injective(key),
        s1.to_set() == s2.to_set(),
    ensures
        s1 == s2,
    decreases s1.len(),
{
    if s1.len() == 0 {
        if s2.len() > 0 {
            assert(s2.to_set().contains(s2[0]));
            assert(!s1.to_set().contains(s2[0]));
        }
        assert(s1 =~= s2);
    } else {
        if s2.len() == 0 {
            assert(s1.to_set().contains(s1[0]));
            assert(!s2.to_set().contains(s1[0]));
        }
        assert(s2.len() > 0);
        let a = s1[0];
        let b = s2[0];
        assert(s2.to_set().contains(a)) by {
            assert(s1.to_set().contains(a));
        }
        assert(s1.to_set().contains(b)) by {
            assert(s2.to_set().contains(b));
        }
        let j = choose|j: int| 0 <= j < s2.len() && s2[j] == a;
        let k = choose|k: int| 0 <= k < s1.len() && s1[k] == b;
        assert(key(a) >= key(b)) by {
            if j > 0 {
                assert(key(s2[0]) < key(s2[j]));
            }
        }
        assert(key(b) >= key(a)) by {
            if k > 0 {
                assert(key(s1[0]) < key(s1[k]));
            }
        }
        assert(a == b);
        let t1 = s1.drop_first();
        let t2 = s2.drop_first();
        assert(strictly_sorted(t1, key)) by {
            assert forall|i: int, j: int| 0 <= i < j < t1.len() implies key(t1[i]) < key(t1[j]) by {
                assert(t1[i] == s1[i + 1]);
                assert(t1[j] == s1[j + 1]);
            }
        }
        assert(strictly_sorted(t2, key)) by {
            assert forall|i: int, j: int| 0 <= i < j < t2.len() implies key(t2[i]) < key(t2[j]) by {
                assert(t2[i] == s2[i + 1]);
                assert(t2[j] == s2[j + 1]);
            }
        }
        assert(t1.to_set() == t2.to_set()) by {
            assert forall|x: A| t1.to_set().contains(x) implies t2.to_set().contains(x) by {
                let i = choose|i: int| 0 <= i < t1.len() && t1[i] == x;
                assert(s1[i + 1] == x);
                assert(key(s1[0]) < key(x));
                assert(s1.to_set().contains(x));
                assert(s2.to_set().contains(x));
                let m = choose|m: int| 0 <= m < s2.len() && s2[m] == x;
                assert(m != 0);
                assert(t2[m - 1] == x);
            }
            assert forall|x: A| t2.to_set().contains(x) implies t1.to_set().contains(x) by {
                let i = choose|i: int| 0 <= i < t2.len() && t2[i] == x;
                assert(s2[i + 1] == x);
                assert(key(s2[0]) < key(x));
                assert(s2.to_set().contains(x));
                assert(s1.to_set().contains(x));
                let m = choose|m: int| 0 <= m < s1.len() && s1[m] == x;
                assert(m != 0);
                assert(t1[m - 1] == x);
            }
            assert(t1.to_set() =~= t2.to_set());
        }
        lemma_sorted_determined_by_set(t1, t2, key);
        assert(s1 =~= s2) by {
            assert forall|i: int| 0 <= i < s1.len() implies s1[i] == s2[i] by {
                if i > 0 {
                    assert(s1[i] == t1[i - 1]);
                    assert(s2[i] == t2[i - 1]);
                }
            }
        }
    }
}

/// An element with an executable sort key that agrees with its spec key.
pub trait Keyed: Sized {
    spec fn spec_key(self) -> int;

    fn key(&self) -> (k: u64)
        ensures
            k == self.spec_key(),
    ;
}

/// Binary search in a strictly sorted vector: where `key` is or would be
/// inserted, and whether it is there.
pub(crate) fn search_sorted<T: Keyed>(v: &Vec<T>, key: u64, Ghost(k): Ghost<spec_fn(T) -> int>) -> (r: (
    bool,
    usize,
))
    requires
        strictly_sorted(v@, k),
        forall|x: T| #[trigger] k(x) == x.spec_key(),
    ensures
        r.1 <= v@.len(),
        forall|i: int| 0 <= i < r.1 ==> k(#[trigger] v@[i]) < key,
        forall|i: int| r.1 <= i < v@.len() ==> k(#[trigger] v@[i]) >= key,
        r.0 == (r.1 < v@.len() && k(v@[r.1 as int]) == key),
{
    let mut lo: usize = 0;
    let mut hi: usize = v.len();
    while lo < hi
        invariant
            lo <= hi <= v@.len(),
            strictly_sorted(v@, k),
            forall|x: T| #[trigger] k(x) == x.spec_key(),
            forall|i: int| 0 <= i < lo ==> k(#[trigger] v@[i]) < key,
            forall|i: int| hi <= i < v@.len() ==> k(#[trigger] v@[i]) >= key,
        decreases hi - lo,
    {
        let mid = lo + (hi - lo) / 2;
        let km = v[mid].key();
        assert(k(v@[mid as int]) == km);
        if km < key {
            assert forall|i: int| 0 <= i <= mid implies k(#[trigger] v@[i]) < key by {
                if i < mid {
                    assert(k(v@[i]) < k(v@[mid as int]));
                }
            }
            lo = mid + 1;
        } else {
            assert forall|i: int| mid <= i < v@.len() implies k(#[trigger] v@[i]) >= key by {
                if i > mid {
                    assert(k(v@[mid as int]) < k(v@[i]));
                }
            }
            hi = mid;
        }
    }
    if lo < v.len() {
        let kl = v[lo].key();
        assert(k(v@[lo as int]) == kl);
        (kl == key, lo)
    } else {
        (false, lo)
    }
}

/// Inserting `x` at the place a search found for its key, when no element
/// carries that key, is the sorted insert.
pub proof fn lemma_insert_at_search_point<A>(s: Seq<A>, at: int, x: A, key: spec_fn(A) -> int)
    requires
        strictly_sorted(s, key),
        key_injective(key),
        0 <= at <= s.len(),
        forall|i: int| 0 <= i < at ==> key(#[trigger] s[i]) < key(x),
        forall|i: int| at <= i < s.len() ==> key(#[trigger] s[i]) >= key(x),
        !(at < s.len() && key(s[at]) == key(x)),
    ensures
        !s.contains(x),
        s.insert(at, x) == sorted_insert(s, x, key),
{
    let v = s.insert(at, x);
    assert forall|i: int| at <= i < s.len() implies key(#[trigger] s[i]) > key(x) by {
        if i > at {
            assert(key(s[at]) < key(s[i]));
        }
    }
    assert(!s.contains(x)) by {
        if s.contains(x) {
            let i = choose|i: int| 0 <= i < s.len() && s[i] == x;
            assert(key(s[i]) != key(x));
        }
    }
    assert(strictly_sorted(v, key)) by {
        assert forall|i: int, j: int| 0 <= i < j < v.len() implies key(v[i]) < key(v[j]) by {
            if j < at {
                assert(v[i] == s[i] && v[j] == s[j]);
            } else if j == at {
                assert(v[i] == s[i]);
            } else if i < at {
                assert(v[i] == s[i] && v[j] == s[j - 1]);
            } else if i == at {
                assert(v[j] == s[j - 1]);
            } else {
                assert(v[i] == s[i - 1] && v[j] == s[j - 1]);
            }
        }
    }
    assert(v.to_set() =~= s.to_set().insert(x)) by {
        assert forall|y: A| v.to_set().contains(y) implies s.to_set().insert(x).contains(y) by {
            let i = choose|i: int| 0 <= i < v.len() && v[i] == y;
            if i < at {
                assert(s[i] == y);
            } else if i > at {
                assert(s[i - 1] == y);
            }
        }
        assert forall|y: A| s.to_set().insert(x).contains(y) implies v.to_set().contains(y) by {
            if y == x {
                assert(v[at] == y);
            } else {
                let i = choose|i: int| 0 <= i < s.len() && s[i] == y;
                if i < at {
                    assert(v[i] == y);
                } else {
                    assert(v[i + 1] == y);
                }
            }
        }
    }
    lemma_sorted_insert(s, x, key);
    lemma_sorted_determined_by_set(v, sorted_insert(s, x, key), key);
}

/// Insert `x` into a strictly sorted vector at its place in key order; `true`
/// if it was not already there.
pub(crate) fn insert_sorted<T: Keyed>(v: &mut Vec<T>, x: T, Ghost(k): Ghost<spec_fn(T) -> int>) -> (added:
    bool)
    requires
        strictly_sorted(old(v)@, k),
        key_injective(k),
        forall|y: T| #[trigger] k(y) == y.spec_key(),
    ensures
        added == !old(v)@.contains(x),
        final(v)@ == sorted_insert(old(v)@, x, k),
{
    let ghost before = v@;
    let kx = x.key();
    assert(k(x) == kx);
    let (found, at) = search_sorted(v, kx, Ghost(k));
    if found {
        proof {
            assert(k(v@[at as int]) == k(x));
            assert(v@[at as int] == x);
            assert(before.contains(x));
            lemma_sorted_insert(before, x, k);
        }
        false
    } else {
        proof {
            lemma_insert_at_search_point(before, at as int, x, k);
        }
        v.insert(at, x);
        true
    }
}

} // verus!
