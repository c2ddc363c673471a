//! The persisted record of a mirrored pair: its roots, its filters, and the
//! fingerprint of every source file seen by the last completed pass.
use vstd::prelude::*;
use vstd::hash_map::StringHashMap;

verus! {

/// A map from source path text to fingerprint, whose keys can be listed in
/// the order they were first inserted.
pub struct DigestMap {
    index: StringHashMap<String>,
    order: Vec<String>,
}

impl View for DigestMap {
    type V = Map<Seq<char>, Seq<char>>;

    closed spec fn view(&self) -> Map<Seq<char>, Seq<char>> {
        Map::new(|k: Seq<char>| self.index@.contains_key(k), |k: Seq<char>| self.index@[k]@)
    }
}

impl DigestMap {
    pub closed spec fn wf(&self) -> bool {
        &&& forall|i: int, j: int|
            0 <= i < j < self.order@.len() ==> self.order@[i]@ != self.order@[j]@
        &&& forall|k: Seq<char>|
            self.index@.contains_key(k) <==> exists|i: int|
                0 <= i < self.order@.len() && self.order@[i]@ == k
    }

    /// An empty map.
    pub fn new() -> (r: DigestMap)
        ensures
            r.wf(),
            r@ == Map::<Seq<char>, Seq<char>>::empty(),
    {
        let r = DigestMap { index: StringHashMap::new(), order: Vec::new() };
        assert(r@ =~= Map::<Seq<char>, Seq<char>>::empty());
        r
    }

    /// The fingerprint recorded for a source path.
    pub fn get(&self, key: &str) -> (r: Option<&String>)
        requires
            self.wf(),
        ensures
            match r {
                Some(d) => self@.contains_key(key@) && self@[key@] == d@,
                None => !self@.contains_key(key@),
            },
    {
        self.index.get(key)
    }

    /// Records the fingerprint of a source path, replacing an earlier one.
    pub fn insert(&mut self, key: String, digest: String)
        requires
            old(self).wf(),
        ensures
            final(self).wf(),
            final(self)@ == old(self)@.insert(key@, digest@),
    {
        let ghost old_order = self.order@;
        let ghost k = key@;
        if !self.index.contains_key(key.as_str()) {
            let copy = key.clone();
            self.order.push(copy);
            assert(forall|i: int| 0 <= i < old_order.len() ==> old_order[i]@ != k);
            assert(forall|i: int| 0 <= i < old_order.len() ==> self.order@[i] == old_order[i]);
            assert(self.order@[old_order.len() as int]@ == k);
        }
        self.index.insert(key, digest);
        assert forall|q: Seq<char>| self.index@.contains_key(q) implies exists|i: int|
            0 <= i < self.order@.len() && self.order@[i]@ == q by {
            if q == k {
                if old(self).index@.contains_key(k) {
                    let i = choose|i: int| 0 <= i < old_order.len() && old_order[i]@ == q;
                    assert(self.order@[i] == old_order[i]);
                } else {
                    assert(self.order@[old_order.len() as int]@ == q);
                }
            } else {
                let i = choose|i: int| 0 <= i < old_order.len() && old_order[i]@ == q;
                assert(self.order@[i] == old_order[i]);
            }
        }
        assert forall|q: Seq<char>| (exists|i: int| 0 <= i < self.order@.len() && self.order@[i]@ == q)
            implies self.index@.contains_key(q) by {
            let i = choose|i: int| 0 <= i < self.order@.len() && self.order@[i]@ == q;
            if i < old_order.len() {
                assert(self.order@[i] == old_order[i]);
            }
        }
        assert(self@ =~= old(self)@.insert(key@, digest@));
    }

    /// The number of source paths in the map.
    pub fn len(&self) -> (r: usize)
        requires
            self.wf(),
        ensures
            r == self@.len(),
            r == self.keys().len(),
    {
        proof {
            let ks = self.keys();
            assert(ks.no_duplicates());
            ks.unique_seq_to_set();
            assert forall|k: Seq<char>| self@.dom().contains(k) implies ks.to_set().contains(k) by {
                let i = choose|i: int| 0 <= i < self.order@.len() && self.order@[i]@ == k;
                assert(ks[i] == k);
            }
            assert forall|k: Seq<char>| ks.to_set().contains(k) implies self@.dom().contains(k) by {
                let i = choose|i: int| 0 <= i < ks.len() && ks[i] == k;
                assert(self.order@[i]@ == k);
            }
            assert(self@.dom() =~= ks.to_set());
        }
        self.order.len()
    }

    /// The keys, in the order they were first inserted.
    pub closed spec fn keys(&self) -> Seq<Seq<char>> {
        self.order.deep_view()
    }

    /// The key at a position of the insertion order.
    pub fn key(&self, i: usize) -> (r: &String)
        requires
            self.wf(),
            i < self.keys().len(),
        ensures
            r@ == self.keys()[i as int],
            self@.contains_key(r@),
            forall|j: int| 0 <= j < self.keys().len() && j != i ==> self.keys()[j] != r@,
    {
        &self.order[i]
    }
}

/// The state of one mirrored pair. Paths are held as their components.
pub struct Database {
    filters: Vec<String>,
    source_path: Vec<String>,
    mirror_path: Vec<String>,
    hashes: DigestMap,
}

impl Database {
    pub closed spec fn wf(&self) -> bool {
        self.hashes.wf()
    }

    /// The filter programs, in the order in which they are asked.
    pub closed spec fn filter_list(&self) -> Seq<Seq<char>> {
        self.filters.deep_view()
    }

    pub closed spec fn source_root(&self) -> Seq<Seq<char>> {
        self.source_path.deep_view()
    }

    pub closed spec fn mirror_root(&self) -> Seq<Seq<char>> {
        self.mirror_path.deep_view()
    }

    /// The fingerprints of the last completed pass, by source path text.
    pub closed spec fn digests(&self) -> Map<Seq<char>, Seq<char>> {
        self.hashes@
    }

    /// A new mirrored pair, with no file seen yet.
    pub fn new(source_path: Vec<String>, mirror_path: Vec<String>, filters: Vec<String>) -> (r: Database)
        ensures
            r.wf(),
            r.source_root() == source_path.deep_view(),
            r.mirror_root() == mirror_path.deep_view(),
            r.filter_list() == filters.deep_view(),
            r.digests() == Map::<Seq<char>, Seq<char>>::empty(),
    {
        let hashes = DigestMap::new();
        Database { source_path, mirror_path, hashes, filters }
    }

    /// A mirrored pair as a stored record describes it.
    pub fn restore(
        source_path: Vec<String>,
        mirror_path: Vec<String>,
        filters: Vec<String>,
        hashes: DigestMap,
    ) -> (r: Database)
        requires
            hashes.wf(),
        ensures
            r.wf(),
            r.source_root() == source_path.deep_view(),
            r.mirror_root() == mirror_path.deep_view(),
            r.filter_list() == filters.deep_view(),
            r.digests() == hashes@,
    {
        Database { source_path, mirror_path, hashes, filters }
    }

    pub fn filters(&self) -> (r: &Vec<String>)
        ensures
            r.deep_view() == self.filter_list(),
    {
        &self.filters
    }

    pub fn source_path(&self) -> (r: &Vec<String>)
        ensures
            r.deep_view() == self.source_root(),
    {
        &self.source_path
    }

    pub fn mirror_path(&self) -> (r: &Vec<String>)
        ensures
            r.deep_view() == self.mirror_root(),
    {
        &self.mirror_path
    }

    pub fn hashes(&self) -> (r: &DigestMap)
        requires
            self.wf(),
        ensures
            r.wf(),
            r@ == self.digests(),
    {
        &self.hashes
    }

    /// Replaces the fingerprints wholesale, as a completed pass does.
    pub fn replace_digests(&mut self, fresh: DigestMap)
        requires
            fresh.wf(),
        ensures
            final(self).wf(),
            final(self).digests() == fresh@,
            final(self).source_root() == old(self).source_root(),
            final(self).mirror_root() == old(self).mirror_root(),
            final(self).filter_list() == old(self).filter_list(),
    {
        self.hashes = fresh;
    }
}

} // verus!
