//! A small string-keyed table that, unlike a bare hash map, can also
//! enumerate its keys. The sync tables are built from it: they must both
//! look rows up by file id and list every row of a transfer.

use vstd::prelude::*;

use crate::paths::str_eq;

verus! {

/// Pushing onto a vector of strings pushes the string's view onto the
/// deep view.
pub proof fn lemma_deep_view_push(a: Vec<String>, b: Vec<String>, x: String)
    requires
        b@ == a@.push(x),
    ensures
        b.deep_view() == a.deep_view().push(x@),
{
    assert forall|j: int| 0 <= j < b.deep_view().len() implies b.deep_view()[j]
        == a.deep_view().push(x@)[j] by {
        assert(b.deep_view()[j] == b@[j]@);
        if j < a@.len() {
            assert(a.deep_view()[j] == a@[j]@);
        }
    }
    assert(b.deep_view() =~= a.deep_view().push(x@));
}

/// A string-keyed table with enumerable keys.
///
/// The view is the key-to-value map; `key_seq` lists the keys in
/// insertion order, free of duplicates and covering exactly the map's
/// domain.
#[verifier::reject_recursive_types(V)]
pub struct StrTable<V> {
    keys: Vec<String>,
    map: vstd::hash_map::StringHashMap<V>,
}

impl<V> View for StrTable<V> {
    type V = Map<Seq<char>, V>;

    closed spec fn view(&self) -> Map<Seq<char>, V> {
        self.map@
    }
}

impl<V> StrTable<V> {
    /// The keys of the table, in insertion order.
    pub closed spec fn key_seq(self) -> Seq<Seq<char>> {
        self.keys.deep_view()
    }

    /// Well-formedness: the key list is duplicate-free and lists exactly
    /// the map's domain. Every operation preserves it.
    pub closed spec fn wf(self) -> bool {
        &&& self.keys.deep_view().no_duplicates()
        &&& forall|k: Seq<char>| self.map@.contains_key(k) <==> self.keys.deep_view().contains(k)
    }

    /// The keys list each member of the map's domain exactly once.
    pub fn keys_facts(&self)
        requires
            self.wf(),
        ensures
            self.key_seq().no_duplicates(),
            forall|k: Seq<char>| self@.contains_key(k) <==> self.key_seq().contains(k),
            forall|i: int| 0 <= i < self.key_seq().len() ==> self@.contains_key(
                #[trigger] self.key_seq()[i],
            ),
    {
        proof {
            assert forall|i: int| 0 <= i < self.key_seq().len() implies self@.contains_key(
                self.key_seq()[i],
            ) by {
                assert(self.key_seq().contains(self.key_seq()[i]));
            }
        }
    }

    /// An empty table.
    pub fn new() -> (r: Self)
        ensures
            r.wf(),
            r@ == Map::<Seq<char>, V>::empty(),
            r.key_seq() == Seq::<Seq<char>>::empty(),
    {
        let r = StrTable { keys: Vec::new(), map: vstd::hash_map::StringHashMap::new() };
        proof {
            assert(r.keys.deep_view() =~= Seq::<Seq<char>>::empty());
        }
        r
    }

    /// How many rows the table holds.
    pub fn len(&self) -> (r: usize)
        ensures
            r == self.key_seq().len(),
    {
        self.keys.len()
    }

    /// The key at a position of the enumeration.
    pub fn key_at(&self, i: usize) -> (r: &String)
        requires
            self.wf(),
            i < self.key_seq().len(),
        ensures
            r@ == self.key_seq()[i as int],
            self@.contains_key(r@),
    {
        proof {
            assert(self.keys.deep_view()[i as int] == self.keys@[i as int]@);
            assert(self.keys.deep_view().contains(self.keys.deep_view()[i as int]));
        }
        &self.keys[i]
    }

    /// Whether the table has a row under the key.
    pub fn contains(&self, k: &str) -> (r: bool)
        ensures
            r == self@.contains_key(k@),
    {
        self.map.contains_key(k)
    }

    /// The value under the key, if any.
    pub fn get<'a>(&'a self, k: &str) -> (r: Option<&'a V>)
        ensures
            match r {
                Some(v) => self@.contains_key(k@) && *v == self@[k@],
                None => !self@.contains_key(k@),
            },
    {
        self.map.get(k)
    }

    /// Stores a value under the key, replacing any earlier row.
    pub fn insert(&mut self, k: String, v: V)
        requires
            old(self).wf(),
        ensures
            final(self).wf(),
            final(self)@ == old(self)@.insert(k@, v),
            final(self).key_seq() == if old(self)@.contains_key(k@) {
                old(self).key_seq()
            } else {
                old(self).key_seq().push(k@)
            },
    {
        let ghost old_keys = self.keys.deep_view();
        let ghost had = self.map@.contains_key(k@);
        if !self.map.contains_key(k.as_str()) {
            self.keys.push(k.clone());
            proof {
                assert forall|j: int| 0 <= j < self.keys.deep_view().len() implies
                    self.keys.deep_view()[j] == old_keys.push(k@)[j] by {
                    assert(self.keys.deep_view()[j] == self.keys@[j]@);
                }
                assert(self.keys.deep_view() =~= old_keys.push(k@));
                assert(!old_keys.contains(k@));
                assert forall|i: int, j: int|
                    0 <= i < j < self.keys.deep_view().len() implies self.keys.deep_view()[i]
                    != self.keys.deep_view()[j] by {
                    if j == old_keys.len() {
                        assert(old_keys[i] != k@);
                    }
                }
            }
        }
        self.map.insert(k, v);
        proof {
            assert forall|k2: Seq<char>| self.map@.contains_key(k2) implies
                self.keys.deep_view().contains(k2) by {
                if k2 == k@ && !had {
                    assert(self.keys.deep_view()[old_keys.len() as int] == k2);
                    assert(self.keys.deep_view().contains(k2));
                } else {
                    assert(old(self)@.contains_key(k2));
                    assert(old_keys.contains(k2));
                    let i = choose|i: int| 0 <= i < old_keys.len() && old_keys[i] == k2;
                    assert(self.keys.deep_view()[i] == k2);
                    assert(self.keys.deep_view().contains(k2));
                }
            }
            assert forall|k2: Seq<char>| self.keys.deep_view().contains(k2) implies
                self.map@.contains_key(k2) by {
                let i = choose|i: int|
                    0 <= i < self.keys.deep_view().len() && self.keys.deep_view()[i] == k2;
                if i < old_keys.len() {
                    assert(old_keys.contains(k2));
                }
            }
        }
    }

    /// Deletes the row under the key, if any.
    pub fn remove(&mut self, k: &str)
        requires
            old(self).wf(),
        ensures
            final(self).wf(),
            final(self)@ == old(self)@.remove(k@),
            final(self).key_seq() == old(self).key_seq().remove_value(k@),
    {
        let ghost old_keys = self.keys.deep_view();
        let mut i: usize = 0;
        let n = self.keys.len();
        while i < n
            invariant
                *self == *old(self),
                old(self).wf(),
                old_keys == self.keys.deep_view(),
                n == self.keys.len(),
                0 <= i <= n,
                forall|j: int| 0 <= j < i ==> self.keys.deep_view()[j] != k@,
            decreases n - i,
        {
            proof {
                assert(self.keys.deep_view()[i as int] == self.keys@[i as int]@);
            }
            if str_eq(self.keys[i].as_str(), k) {
                proof {
                    assert(old_keys[i as int] == k@);
                }
                self.keys.remove(i);
                self.map.remove(k);
                proof {
                    assert(old_keys.remove(i as int) =~= old_keys.subrange(0, i as int)
                        + old_keys.subrange(i + 1, old_keys.len() as int));
                    assert forall|j: int| 0 <= j < self.keys.deep_view().len() implies
                        self.keys.deep_view()[j] == old_keys.remove(i as int)[j] by {
                        assert(self.keys.deep_view()[j] == self.keys@[j]@);
                    }
                    assert(self.keys.deep_view() =~= old_keys.remove(i as int));
                    old_keys.index_of_first_ensures(k@);
                    assert forall|m: int| 0 <= m < old_keys.len() && old_keys[m] == k@
                        implies m == i by {
                        if m != i {
                            assert(old_keys[m] != old_keys[i as int]);
                        }
                    }
                    assert(old_keys.index_of_first(k@) == Some(i as int));
                    assert(final(self).key_seq() == old(self).key_seq().remove_value(k@));
                    assert forall|k2: Seq<char>| self.map@.contains_key(k2) implies
                        self.keys.deep_view().contains(k2) by {
                        assert(k2 != k@);
                        assert(old(self)@.contains_key(k2));
                        assert(old_keys.contains(k2));
                        let m = choose|m: int| 0 <= m < old_keys.len() && old_keys[m] == k2;
                        assert(m != i);
                        if m < i {
                            assert(self.keys.deep_view()[m] == k2);
                            assert(self.keys.deep_view().contains(k2));
                        } else {
                            assert(self.keys.deep_view()[m - 1] == k2);
                            assert(self.keys.deep_view().contains(k2));
                        }
                    }
                    assert forall|k2: Seq<char>| self.keys.deep_view().contains(k2) implies
                        self.map@.contains_key(k2) by {
                        let m = choose|m: int|
                            0 <= m < self.keys.deep_view().len() && self.keys.deep_view()[m]
                                == k2;
                        if m < i {
                            assert(old_keys[m] == k2);
                        } else {
                            assert(old_keys[m + 1] == k2);
                        }
                        assert(old_keys.contains(k2));
                        if k2 == k@ {
                            assert(old_keys[i as int] == k@);
                        }
                    }
                    assert forall|a: int, b: int|
                        0 <= a < b < self.keys.deep_view().len() implies
                        self.keys.deep_view()[a] != self.keys.deep_view()[b] by {
                        let oa = if a < i { a } else { a + 1 };
                        let ob = if b < i { b } else { b + 1 };
                        assert(old_keys[oa] != old_keys[ob]);
                    }
                }
                return ;
            }
            i += 1;
        }
        proof {
            assert(!old_keys.contains(k@));
            assert(!self.map@.contains_key(k@));
            assert(final(self)@ =~= old(self)@.remove(k@));
            old_keys.index_of_first_ensures(k@);
            assert(final(self).key_seq() == old(self).key_seq().remove_value(k@));
        }
    }
}

} // verus!
