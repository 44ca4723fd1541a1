//! Asset cache: one shared, immutable asset per key.
use vstd::prelude::*;

verus! {

/// Names one asset of a cache. Two handles are the same asset exactly when
/// they are equal.
#[derive(Clone, Copy, Debug, PartialEq, Eq, Structural)]
pub struct AssetHandle {
    pub index: usize,
}

/// Keys and assets stand at the same positions; keys are distinct. Assets are
/// only ever added, never replaced.
pub struct AssetCache<A> {
    keys: Vec<String>,
    assets: Vec<A>,
}

/// Position of key `k` in `keys`, if it is there.
pub open spec fn position_in(keys: Seq<Seq<char>>, k: Seq<char>) -> Option<int> {
    if keys.contains(k) {
        Some(choose|i: int| 0 <= i < keys.len() && keys[i] == k)
    } else {
        None
    }
}

impl<A> AssetCache<A> {
    pub closed spec fn spec_keys(&self) -> Seq<Seq<char>> {
        Seq::new(self.keys@.len(), |i: int| self.keys@[i]@)
    }

    pub closed spec fn spec_assets(&self) -> Seq<A> {
        self.assets@
    }

    pub open spec fn well_formed(&self) -> bool {
        &&& self.spec_keys().len() == self.spec_assets().len()
        &&& forall|i: int, j: int|
            0 <= i < j < self.spec_keys().len() ==> #[trigger] self.spec_keys()[i]
                != #[trigger] self.spec_keys()[j]
    }

    /// Where key `k` stands in the cache.
    pub open spec fn position_of(&self, k: Seq<char>) -> Option<int> {
        position_in(self.spec_keys(), k)
    }

    pub fn new() -> (c: Self)
        ensures
            c.well_formed(),
            c.spec_keys().len() == 0,
    {
        AssetCache { keys: Vec::new(), assets: Vec::new() }
    }

    pub fn len(&self) -> (r: usize)
        ensures
            r == self.spec_assets().len(),
    {
        self.assets.len()
    }

    /// The handle of the asset stored under `key`.
    pub fn lookup(&self, key: &String) -> (r: Option<AssetHandle>)
        requires
            self.well_formed(),
        ensures
            match self.position_of(key@) {
                Some(i) => r is Some && r->0.index == i,
                None => r is None,
            },
    {
        let mut i: usize = 0;
        while i < self.keys.len()
            invariant
                self.well_formed(),
                0 <= i <= self.spec_keys().len(),
                self.keys@.len() == self.spec_keys().len(),
                forall|j: int| 0 <= j < i ==> self.spec_keys()[j] != key@,
            decreases self.keys@.len() - i,
        {
            if self.keys[i] == *key {
                proof {
                    assert(self.spec_keys()[i as int] == key@);
                    assert(self.spec_keys().contains(key@));
                    lemma_position_unique(self.spec_keys(), key@, i as int);
                }
                return Some(AssetHandle { index: i });
            }
            i = i + 1;
        }
        proof {
            if self.spec_keys().contains(key@) {
                let j = choose|j: int| 0 <= j < self.spec_keys().len() && self.spec_keys()[j] == key@;
                assert(self.spec_keys()[j] != key@);
            }
        }
        None
    }

    /// The asset behind a handle.
    pub fn get(&self, h: AssetHandle) -> (r: &A)
        requires
            h.index < self.spec_assets().len(),
        ensures
            *r == self.spec_assets()[h.index as int],
    {
        &self.assets[h.index]
    }

    /// The asset stored under `key`; if there is none, `factory` builds it
    /// and the cache keeps it. The factory runs only for a key not yet
    /// present.
    pub fn intern<F: FnOnce() -> A>(&mut self, key: &String, factory: F) -> (h: AssetHandle)
        requires
            old(self).well_formed(),
            factory.requires(()),
        ensures
            final(self).well_formed(),
            final(self).spec_keys()[h.index as int] == key@,
            h.index < final(self).spec_assets().len(),
            match old(self).position_of(key@) {
                Some(i) => h.index == i && *final(self) == *old(self),
                None => {
                    &&& h.index == old(self).spec_assets().len()
                    &&& final(self).spec_keys() == old(self).spec_keys().push(key@)
                    &&& final(self).spec_assets().drop_last() == old(self).spec_assets()
                    &&& factory.ensures((), final(self).spec_assets().last())
                },
            },
    {
        proof {
            lemma_position_found(self.spec_keys(), key@);
        }
        match self.lookup(key) {
            Some(h) => h,
            None => {
                let a = factory();
                let ghost old_keys = self.spec_keys();
                let ghost old_assets = self.assets@;
                let h = AssetHandle { index: self.assets.len() };
                self.keys.push(key.clone());
                self.assets.push(a);
                proof {
                    assert(self.spec_keys() =~= old_keys.push(key@));
                    assert(self.assets@.drop_last() =~= old_assets);
                    assert forall|i: int, j: int|
                        0 <= i < j < self.spec_keys().len() implies #[trigger] self.spec_keys()[i]
                        != #[trigger] self.spec_keys()[j] by {
                        if j == old_keys.len() {
                            assert(old_keys[i] == self.spec_keys()[i]);
                            assert(old_keys.contains(old_keys[i]));
                        } else {
                            assert(old_keys[i] == self.spec_keys()[i]);
                            assert(old_keys[j] == self.spec_keys()[j]);
                        }
                    }
                }
                h
            },
        }
    }
}

pub proof fn lemma_position_found(keys: Seq<Seq<char>>, k: Seq<char>)
    ensures
        position_in(keys, k) matches Some(i) ==> 0 <= i < keys.len() && keys[i] == k,
        position_in(keys, k) is None ==> !keys.contains(k),
{
}

proof fn lemma_position_unique(keys: Seq<Seq<char>>, k: Seq<char>, i: int)
    requires
        0 <= i < keys.len(),
        keys[i] == k,
        forall|a: int, b: int| 0 <= a < b < keys.len() ==> #[trigger] keys[a] != #[trigger] keys[b],
    ensures
        position_in(keys, k) == Some(i),
{
    assert(keys.contains(k));
    let j = choose|j: int| 0 <= j < keys.len() && keys[j] == k;
    if j < i {
        assert(keys[j] != keys[i]);
    } else if i < j {
        assert(keys[i] != keys[j]);
    }
}

/// Once `intern` has stored an asset under a key, that key resolves to the
/// handle it returned. A later `intern` of the same key therefore returns the
/// same handle and leaves the cache unchanged, without running its factory.
pub proof fn lemma_intern_returns_first<A>(c: AssetCache<A>, k: Seq<char>, h: AssetHandle)
    requires
        c.well_formed(),
        h.index < c.spec_keys().len(),
        c.spec_keys()[h.index as int] == k,
    ensures
        c.position_of(k) == Some(h.index as int),
{
    lemma_position_unique(c.spec_keys(), k, h.index as int);
}

} // verus!
