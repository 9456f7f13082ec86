//! The package record written to `discovered.json`, and a keyed set of them.

use vstd::prelude::*;

verus! {

/// One discovered package.
pub struct PackageInfo {
    pub attr_path: String,
    pub pname: String,
    pub app_id: String,
    pub desktop_file: String,
    pub runtime_hint: String,
}

/// The fields of a [`PackageInfo`], as character sequences.
pub struct PackageSpec {
    pub attr_path: Seq<char>,
    pub pname: Seq<char>,
    pub app_id: Seq<char>,
    pub desktop_file: Seq<char>,
    pub runtime_hint: Seq<char>,
}

impl View for PackageInfo {
    type V = PackageSpec;

    open spec fn view(&self) -> PackageSpec {
        PackageSpec {
            attr_path: self.attr_path@,
            pname: self.pname@,
            app_id: self.app_id@,
            desktop_file: self.desktop_file@,
            runtime_hint: self.runtime_hint@,
        }
    }
}

/// Packages keyed by name, each name at most once.
pub struct PackageIndex {
    entries: Vec<(String, PackageInfo)>,
}

impl PackageIndex {
    /// The key of the `i`th entry.
    pub closed spec fn key_at(self, i: int) -> Seq<char> {
        self.entries@[i].0@
    }

    /// The number of entries.
    pub closed spec fn spec_len(self) -> nat {
        self.entries@.len()
    }

    /// The position of the entry with key `k`, where there is one.
    closed spec fn position_of(self, k: Seq<char>) -> int {
        choose|i: int| 0 <= i < self.entries@.len() && self.entries@[i].0@ == k
    }

    #[verifier::type_invariant]
    closed spec fn keys_distinct(self) -> bool {
        forall|i: int, j: int|
            0 <= i < j < self.entries@.len() ==> self.entries@[i].0@ != self.entries@[j].0@
    }
}

impl View for PackageIndex {
    type V = Map<Seq<char>, PackageSpec>;

    closed spec fn view(&self) -> Map<Seq<char>, PackageSpec> {
        Map::new(
            |k: Seq<char>| exists|i: int| 0 <= i < self.entries@.len() && self.entries@[i].0@ == k,
            |k: Seq<char>| self.entries@[self.position_of(k)].1@,
        )
    }
}

impl PackageIndex {
    /// An index with no packages.
    pub fn new() -> (r: Self)
        ensures
            r@ == Map::<Seq<char>, PackageSpec>::empty(),
    {
        let r = PackageIndex { entries: Vec::new() };
        assert(r@ =~= Map::<Seq<char>, PackageSpec>::empty());
        r
    }

    /// The number of packages.
    pub fn len(&self) -> (n: usize)
        ensures
            n == self@.len(),
            self@.dom().finite(),
    {
        proof {
            use_type_invariant(self);
            self.lemma_len();
        }
        self.entries.len()
    }

    proof fn lemma_len(&self)
        requires
            self.keys_distinct(),
        ensures
            self@.len() == self.entries@.len(),
            self@.dom().finite(),
        decreases self.entries@.len(),
    {
        let ks = self.entries@.map_values(|e: (String, PackageInfo)| e.0@);
        assert(self@.dom() =~= ks.to_set()) by {
            assert forall|k: Seq<char>| self@.dom().contains(k) implies ks.to_set().contains(k) by {
                let i = choose|i: int| 0 <= i < self.entries@.len() && self.entries@[i].0@ == k;
                assert(ks[i] == k);
            }
            assert forall|k: Seq<char>| ks.to_set().contains(k) implies self@.dom().contains(k) by {
                let i = choose|i: int| 0 <= i < ks.len() && ks[i] == k;
                assert(self.entries@[i].0@ == k);
            }
        }
        assert(ks.no_duplicates()) by {
            assert forall|i: int, j: int| 0 <= i < ks.len() && 0 <= j < ks.len() && i != j implies ks[i]
                != ks[j] by {
                if i < j {
                } else {
                }
            }
        }
        ks.unique_seq_to_set();
    }

    /// Whether a package is filed under `key`.
    pub fn contains_key(&self, key: &String) -> (b: bool)
        ensures
            b == self@.dom().contains(key@),
    {
        let ghost k = key@;
        for i in 0..self.entries.len()
            invariant
                k == key@,
                forall|j: int| 0 <= j < i ==> self.entries@[j].0@ != k,
        {
            if self.entries[i].0 == *key {
                return true;
            }
        }
        false
    }

    /// Files `info` under `key`, in place of what was filed there before.
    pub fn insert(&mut self, key: String, info: PackageInfo)
        ensures
            final(self)@ == old(self)@.insert(key@, info@),
            final(self)@.dom().finite(),
    {
        proof {
            use_type_invariant(&*self);
            self.lemma_len();
        }
        let ghost k = key@;
        let ghost v = info@;
        let ghost before = self.entries@;
        let mut found: Option<usize> = None;
        for i in 0..self.entries.len()
            invariant
                k == key@,
                self.entries@ == before,
                found is None ==> forall|j: int| 0 <= j < i ==> self.entries@[j].0@ != k,
                found matches Some(p) ==> p < self.entries@.len() && self.entries@[p as int].0@ == k,
        {
            if found.is_none() && self.entries[i].0 == key {
                found = Some(i);
            }
        }
        match found {
            Some(p) => {
                let mut entries: Vec<(String, PackageInfo)> = Vec::new();
                std::mem::swap(&mut entries, &mut self.entries);
                entries.set(p, (key, info));
                self.entries = entries;
                proof {
                    let m = old(self)@.insert(k, v);
                    assert(self.entries@ == before.update(p as int, self.entries@[p as int]));
                    assert forall|q: Seq<char>| #[trigger] self@.dom().contains(q) == m.dom().contains(q) by {
                        if q == k {
                            assert(self.entries@[p as int].0@ == q);
                        } else if self@.dom().contains(q) {
                            let i = choose|i: int| 0 <= i < self.entries@.len() && self.entries@[i].0@ == q;
                            assert(before[i].0@ == q);
                        } else if m.dom().contains(q) {
                            let i = choose|i: int| 0 <= i < before.len() && before[i].0@ == q;
                            assert(self.entries@[i].0@ == q);
                        }
                    }
                    assert forall|q: Seq<char>| #[trigger] self@.dom().contains(q) implies self@[q]
                        == m[q] by {
                        let i = self.position_of(q);
                        if q == k {
                            assert(i == p);
                        } else {
                            let j = old(self).position_of(q);
                            assert(before[i].0@ == q);
                            assert(i == j);
                        }
                    }
                    assert(self@ =~= m);
                }
            },
            None => {
                let mut entries: Vec<(String, PackageInfo)> = Vec::new();
                std::mem::swap(&mut entries, &mut self.entries);
                entries.push((key, info));
                self.entries = entries;
                proof {
                    let m = old(self)@.insert(k, v);
                    let n = before.len() as int;
                    assert forall|q: Seq<char>| #[trigger] self@.dom().contains(q) == m.dom().contains(q) by {
                        if q == k {
                            assert(self.entries@[n].0@ == q);
                        } else if self@.dom().contains(q) {
                            let i = choose|i: int| 0 <= i < self.entries@.len() && self.entries@[i].0@ == q;
                            assert(before[i].0@ == q);
                        } else if m.dom().contains(q) {
                            let i = choose|i: int| 0 <= i < before.len() && before[i].0@ == q;
                            assert(self.entries@[i].0@ == q);
                        }
                    }
                    assert forall|q: Seq<char>| #[trigger] self@.dom().contains(q) implies self@[q]
                        == m[q] by {
                        let i = self.position_of(q);
                        if q == k {
                            assert(i == n);
                        } else {
                            let j = old(self).position_of(q);
                            assert(before[i].0@ == q);
                            assert(i == j);
                        }
                    }
                    assert(self@ =~= m);
                }
            },
        }
    }

    /// The entries, each key with its package.
    pub fn into_entries(self) -> (v: Vec<(String, PackageInfo)>)
        ensures
            v@.len() == self@.len(),
            forall|i: int| 0 <= i < v@.len() ==> self@.dom().contains(#[trigger] v@[i].0@)
                && self@[v@[i].0@] == v@[i].1@,
            forall|i: int, j: int| 0 <= i < j < v@.len() ==> v@[i].0@ != v@[j].0@,
            forall|k: Seq<char>|
                #[trigger] self@.dom().contains(k) ==> exists|i: int| 0 <= i < v@.len() && v@[i].0@ == k,
    {
        proof {
            use_type_invariant(&self);
            self.lemma_len();
            assert forall|i: int| 0 <= i < self.entries@.len() implies self@.dom().contains(
                #[trigger] self.entries@[i].0@,
            ) && self@[self.entries@[i].0@] == self.entries@[i].1@ by {
                let j = self.position_of(self.entries@[i].0@);
                assert(i == j);
            }
        }
        self.entries
    }
}

} // verus!
