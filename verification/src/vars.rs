//! Association-list maps with string keys, used for exported variables,
//! subprocess environments and lookup tables. Each map's view is a
//! mathematical `Map`, and each keeps its keys pairwise distinct.

use vstd::prelude::*;
use vstd::pervasive::VecAdditionalExecFns;

verus! {

/// The finite map denoted by an association list, later entries winning.
pub open spec fn map_of<T>(entries: Seq<(Seq<char>, T)>) -> Map<Seq<char>, T>
    decreases entries.len(),
{
    if entries.len() == 0 {
        Map::empty()
    } else {
        map_of(entries.drop_last()).insert(entries.last().0, entries.last().1)
    }
}

/// The keys of an association list are pairwise distinct.
pub open spec fn distinct_keys<T>(entries: Seq<(Seq<char>, T)>) -> bool {
    forall|i: int, j: int| 0 <= i < j < entries.len() ==> entries[i].0 != entries[j].0
}

/// On an association list with distinct keys, `map_of` has exactly the
/// listed keys in its domain, maps each to the listed value, and has as
/// many entries as the list.
pub proof fn lemma_map_of_props<T>(entries: Seq<(Seq<char>, T)>)
    requires
        distinct_keys(entries),
    ensures
        map_of(entries).dom().finite(),
        map_of(entries).dom().len() == entries.len(),
        forall|k: Seq<char>| #[trigger] map_of(entries).dom().contains(k) <==> (exists|i: int|
            0 <= i < entries.len() && #[trigger] entries[i].0 == k),
        forall|i: int| 0 <= i < entries.len() ==> map_of(entries)[#[trigger] entries[i].0]
            == entries[i].1,
    decreases entries.len(),
{
    if entries.len() > 0 {
        let prefix = entries.drop_last();
        assert(distinct_keys(prefix)) by {
            assert(forall|i: int, j: int| 0 <= i < j < prefix.len() ==> prefix[i].0
                != prefix[j].0) by {
                assert(forall|i: int| 0 <= i < prefix.len() ==> prefix[i] == entries[i]);
            }
        }
        lemma_map_of_props(prefix);
        let last = entries.last();
        assert(!map_of(prefix).dom().contains(last.0)) by {
            assert(forall|i: int| 0 <= i < prefix.len() ==> #[trigger] prefix[i].0
                != last.0);
        }
        assert(map_of(entries).dom() == map_of(prefix).dom().insert(last.0));
        assert(forall|i: int| 0 <= i < prefix.len() ==> #[trigger] entries[i].0
            == prefix[i].0);
    }
}

/// The key-and-value views of a vector of `String` pairs.
pub open spec fn entry_views(entries: Seq<(String, String)>) -> Seq<(Seq<char>, Seq<char>)> {
    entries.map_values(|e: (String, String)| (e.0@, e.1@))
}

/// A map from variable names to variable values.
pub struct VarMap {
    entries: Vec<(String, String)>,
}

impl View for VarMap {
    type V = Map<Seq<char>, Seq<char>>;

    closed spec fn view(&self) -> Map<Seq<char>, Seq<char>> {
        map_of(entry_views(self.entries@))
    }
}

impl VarMap {
    /// The backing entries have pairwise-distinct keys.
    pub closed spec fn wf(&self) -> bool {
        distinct_keys(entry_views(self.entries@))
    }

    /// The empty map.
    pub fn new() -> (r: VarMap)
        ensures
            r.wf(),
            r@ == Map::<Seq<char>, Seq<char>>::empty(),
    {
        VarMap { entries: Vec::new() }
    }

    /// The number of variables held.
    pub fn len(&self) -> (r: usize)
        requires
            self.wf(),
        ensures
            r == self@.dom().len(),
    {
        proof {
            lemma_map_of_props(entry_views(self.entries@));
        }
        self.entries.len()
    }

    /// Whether no variable is held.
    pub fn is_empty(&self) -> (r: bool)
        requires
            self.wf(),
        ensures
            r == (self@ == Map::<Seq<char>, Seq<char>>::empty()),
    {
        proof {
            lemma_map_of_props(entry_views(self.entries@));
            if self.entries@.len() == 0 {
                assert(self@ =~= Map::<Seq<char>, Seq<char>>::empty());
            } else {
                assert(self@.dom().contains(entry_views(self.entries@)[0].0));
            }
        }
        self.entries.len() == 0
    }

    /// The value bound to `key`, if any.
    pub fn get(&self, key: &str) -> (r: Option<&String>)
        requires
            self.wf(),
        ensures
            match r {
                Some(v) => self@.dom().contains(key@) && v@ == self@[key@],
                None => !self@.dom().contains(key@),
            },
    {
        proof {
            lemma_map_of_props(entry_views(self.entries@));
        }
        let n: usize = self.entries.len();
        let mut i: usize = 0;
        while i < n
            invariant
                self.wf(),
                n == self.entries@.len(),
                i <= n,
                forall|j: int| 0 <= j < i ==> #[trigger] entry_views(self.entries@)[j].0
                    != key@,
            decreases n - i,
        {
            if crate::text::str_eq(self.entries[i].0.as_str(), key) {
                proof {
                    lemma_map_of_props(entry_views(self.entries@));
                    assert(entry_views(self.entries@)[i as int].0 == key@);
                }
                return Some(&self.entries[i].1);
            }
            i += 1;
        }
        proof {
            lemma_map_of_props(entry_views(self.entries@));
        }
        None
    }

    /// Whether a value is bound to `key`.
    pub fn contains_key(&self, key: &str) -> (r: bool)
        requires
            self.wf(),
        ensures
            r == self@.dom().contains(key@),
    {
        match self.get(key) {
            Some(_) => true,
            None => false,
        }
    }

    /// Bind `key` to `value`, replacing any earlier binding.
    pub fn insert(&mut self, key: String, value: String)
        requires
            old(self).wf(),
        ensures
            final(self).wf(),
            final(self)@ == old(self)@.insert(key@, value@),
    {
        proof {
            lemma_map_of_props(entry_views(self.entries@));
        }
        let n: usize = self.entries.len();
        let mut i: usize = 0;
        while i < n
            invariant
                self.wf(),
                self.entries@ == old(self).entries@,
                n == self.entries@.len(),
                i <= n,
                forall|j: int| 0 <= j < i ==> #[trigger] entry_views(self.entries@)[j].0
                    != key@,
            decreases n - i,
        {
            if crate::text::str_eq(self.entries[i].0.as_str(), key.as_str()) {
                proof {
                    assert(entry_views(self.entries@)[i as int].0 == key@);
                }
                self.entries.set(i, (key, value));
                proof {
                    let old_vs = entry_views(old(self).entries@);
                    let new_vs = entry_views(self.entries@);
                    assert(new_vs =~= old_vs.update(i as int, (key@, value@)));
                    assert(distinct_keys(new_vs)) by {
                        assert(forall|j: int| 0 <= j < new_vs.len() && j != i ==> new_vs[j]
                            == old_vs[j]);
                    }
                    lemma_map_of_props(new_vs);
                    lemma_map_of_props(old_vs);
                    assert(map_of(new_vs) =~= map_of(old_vs).insert(key@, value@)) by {
                        assert(forall|j: int| 0 <= j < new_vs.len() && j != i
                            ==> #[trigger] new_vs[j] == old_vs[j]);
                        assert(forall|k: Seq<char>| map_of(new_vs).dom().contains(k)
                            <==> map_of(old_vs).insert(key@, value@).dom().contains(k)) by {
                            assert(forall|j: int| 0 <= j < old_vs.len() && j != i
                                ==> old_vs[j].0 == new_vs[j].0);
                            assert(new_vs[i as int].0 == key@);
                            assert(old_vs[i as int].0 == key@);
                        }
                    }
                }
                return ;
            }
            i += 1;
        }
        let ghost old_vs = entry_views(self.entries@);
        self.entries.push((key, value));
        proof {
            let new_vs = entry_views(self.entries@);
            assert(new_vs =~= old_vs.push((key@, value@)));
            assert(new_vs.drop_last() =~= old_vs);
            assert(distinct_keys(new_vs)) by {
                assert(forall|j: int| 0 <= j < old_vs.len() ==> #[trigger] new_vs[j]
                    == old_vs[j]);
                lemma_map_of_props(old_vs);
            }
        }
    }

    /// The held bindings as a vector of pairs, each name exactly once.
    pub fn to_pairs(&self) -> (r: Vec<(String, String)>)
        requires
            self.wf(),
        ensures
            r@.len() == self@.dom().len(),
            forall|i: int| 0 <= i < r@.len() ==> self@.dom().contains((#[trigger] r@[i]).0@)
                && r@[i].1@ == self@[r@[i].0@],
    {
        proof {
            lemma_map_of_props(entry_views(self.entries@));
        }
        let n: usize = self.entries.len();
        let mut r: Vec<(String, String)> = Vec::new();
        let mut i: usize = 0;
        while i < n
            invariant
                self.wf(),
                n == self.entries@.len(),
                i <= n,
                r@.len() == i,
                forall|j: int| 0 <= j < i ==> (#[trigger] r@[j]).0@
                    == entry_views(self.entries@)[j].0 && r@[j].1@ == entry_views(
                    self.entries@,
                )[j].1,
            decreases n - i,
        {
            let ghost old_r = r@;
            r.push((self.entries[i].0.clone(), self.entries[i].1.clone()));
            proof {
                assert(forall|j: int| 0 <= j < old_r.len() ==> r@[j] == old_r[j]);
                assert(entry_views(self.entries@)[i as int].0 == self.entries@[i as int].0@);
            }
            i += 1;
        }
        proof {
            lemma_map_of_props(entry_views(self.entries@));
            assert forall|j: int| 0 <= j < r@.len() implies self@.dom().contains(
                (#[trigger] r@[j]).0@,
            ) && r@[j].1@ == self@[r@[j].0@] by {
                assert(entry_views(self.entries@)[j].0 == r@[j].0@);
                assert(map_of(entry_views(self.entries@))[entry_views(self.entries@)[j].0]
                    == entry_views(self.entries@)[j].1);
            }
        }
        r
    }

    /// Copy every binding of `other` into this map, `other` winning where
    /// both bind the same name.
    pub fn merge_from(&mut self, other: &VarMap)
        requires
            old(self).wf(),
            other.wf(),
        ensures
            final(self).wf(),
            final(self)@ == old(self)@.union_prefer_right(other@),
    {
        proof {
            lemma_map_of_props(entry_views(other.entries@));
        }
        let n: usize = other.entries.len();
        let mut i: usize = 0;
        while i < n
            invariant
                self.wf(),
                other.wf(),
                n == other.entries@.len(),
                i <= n,
                self@ == old(self)@.union_prefer_right(map_of(entry_views(
                    other.entries@.subrange(0, i as int),
                ))),
            decreases n - i,
    {
            let key: String = other.entries[i].0.clone();
            let value: String = other.entries[i].1.clone();
            let ghost pfx = entry_views(other.entries@.subrange(0, i as int));
            self.insert(key, value);
            proof {
                let pfx2 = entry_views(other.entries@.subrange(0, i + 1));
                assert(pfx2.drop_last() =~= pfx);
                assert(map_of(pfx2) == map_of(pfx).insert(
                    other.entries@[i as int].0@,
                    other.entries@[i as int].1@,
                ));
                assert(self@ =~= old(self)@.union_prefer_right(map_of(pfx2)));
            }
            i += 1;
        }
        proof {
            assert(entry_views(other.entries@.subrange(0, n as int)) =~= entry_views(
                other.entries@,
            ));
        }
    }
}

} // verus!
