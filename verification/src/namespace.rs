//! A namespace: a mapping from names to values in which no name occurs
//! twice, and which remembers the order in which the names were registered.

use vstd::prelude::*;

verus! {

/// The mathematical content of a [`Namespace`]: the names in the order of
/// their first registration, and the value held under each name.
#[verifier::ext_equal]
pub struct Table<T> {
    pub order: Seq<Seq<char>>,
    pub map: Map<Seq<char>, T>,
}

impl<T> Table<T> {
    /// The table without any name.
    pub open spec fn empty() -> Self {
        Table { order: Seq::empty(), map: Map::empty() }
    }

    /// Whether a value is held under `name`.
    pub open spec fn contains(self, name: Seq<char>) -> bool {
        self.map.contains_key(name)
    }

    /// The table after `value` is registered under `name`: a name that is
    /// already there keeps its place and gets the new value, a new name
    /// goes to the end.
    pub open spec fn insert(self, name: Seq<char>, value: T) -> Self {
        Table {
            order: if self.map.contains_key(name) {
                self.order
            } else {
                self.order.push(name)
            },
            map: self.map.insert(name, value),
        }
    }

    /// The order lists every name of the map once, and nothing else.
    pub open spec fn wf(self) -> bool {
        &&& self.order.no_duplicates()
        &&& forall|name: Seq<char>| #[trigger]
            self.map.contains_key(name) <==> self.order.contains(name)
    }

    /// The empty table is well-formed, and registering keeps a table so.
    pub proof fn lemma_insert_wf(self, name: Seq<char>, value: T)
        requires
            self.wf(),
        ensures
            Self::empty().wf(),
            self.insert(name, value).wf(),
    {
        let t = self.insert(name, value);
        assert forall|n: Seq<char>| #[trigger]
            t.map.contains_key(n) <==> t.order.contains(n) by {
            if self.map.contains_key(name) {
                assert(self.order.contains(name));
            } else {
                if n == name {
                    assert(t.order[self.order.len() as int] == name);
                } else if self.order.contains(n) {
                    let i = self.order.index_of(n);
                    assert(t.order[i] == n);
                }
            }
        }
    }
}

/// The names of a sequence of entries, in their order.
pub closed spec fn names_of<V>(entries: Seq<(String, V)>) -> Seq<Seq<char>> {
    Seq::new(entries.len(), |i: int| entries[i].0@)
}

/// In a sequence without duplicates, an element is found where it stands.
proof fn lemma_index_of<A>(s: Seq<A>, i: int)
    requires
        s.no_duplicates(),
        0 <= i < s.len(),
    ensures
        s.index_of(s[i]) == i,
{
    let k = s.index_of(s[i]);
    assert(0 <= k < s.len() && s[k] == s[i]);
}

/// A mapping from names to values of type `V`, unique by name.
#[derive(Debug)]
pub struct Namespace<V> {
    entries: Vec<(String, V)>,
}

impl<V: View> View for Namespace<V> {
    type V = Table<V::V>;

    open spec fn view(&self) -> Table<V::V> {
        Table { order: self.names(), map: self.items().map_values(|item: V| item@) }
    }
}

impl<V> Namespace<V> {
    #[verifier::type_invariant]
    spec fn distinct_names(&self) -> bool {
        names_of(self.entries@).no_duplicates()
    }

    /// The names, in the order of their registration.
    pub closed spec fn names(&self) -> Seq<Seq<char>> {
        names_of(self.entries@)
    }

    /// The values themselves, by name.
    pub closed spec fn items(&self) -> Map<Seq<char>, V> {
        Map::new(
            |name: Seq<char>| self.names().contains(name),
            |name: Seq<char>| self.entries@[self.names().index_of(name)].1,
        )
    }
}

impl<V: View> Namespace<V> {

    /// An empty namespace.
    pub fn new() -> (r: Self)
        ensures
            r@ == Table::<V::V>::empty(),
            r@.wf(),
    {
        let entries: Vec<(String, V)> = Vec::new();
        assert(names_of(entries@) =~= Seq::<Seq<char>>::empty());
        let r = Namespace { entries };
        assert(r@ =~= Table::<V::V>::empty());
        r
    }

    /// The number of names, none of which is counted twice.
    pub fn len(&self) -> (n: usize)
        ensures
            n == self@.order.len(),
            self@.wf(),
    {
        proof {
            use_type_invariant(self);
        }
        self.entries.len()
    }

    /// The place of `name` among the entries, if it is registered.
    fn position(&self, name: &String) -> (r: Option<usize>)
        ensures
            match r {
                Some(i) => i < self.names().len() && self.names()[i as int] == name@
                    && self.names().index_of(name@) == i,
                None => !self.names().contains(name@),
            },
    {
        proof {
            use_type_invariant(self);
        }
        let mut i: usize = 0;
        while i < self.entries.len()
            invariant
                i <= self.entries@.len(),
                self.names().no_duplicates(),
                forall|j: int| 0 <= j < i ==> self.names()[j] != name@,
            decreases self.entries@.len() - i,
        {
            if self.entries[i].0 == *name {
                proof {
                    lemma_index_of(self.names(), i as int);
                }
                return Some(i);
            }
            i += 1;
        }
        None
    }

    /// Whether `name` is registered.
    pub fn contains_key(&self, name: &str) -> (b: bool)
        ensures
            b == self@.contains(name@),
    {
        let key = name.to_owned();
        self.position(&key).is_some()
    }

    /// The value registered under `name`, if there is one.
    pub fn get(&self, name: &str) -> (r: Option<&V>)
        ensures
            match r {
                Some(item) => self@.contains(name@) && item@ == self@.map[name@] && *item
                    == self.items()[name@],
                None => !self@.contains(name@),
            },
    {
        let key = name.to_owned();
        match self.position(&key) {
            Some(i) => Some(&self.entries[i].1),
            None => None,
        }
    }

    /// The `i`-th entry in the order of registration, if there are that many.
    pub fn entry(&self, i: usize) -> (r: Option<(&String, &V)>)
        ensures
            match r {
                Some((name, item)) => i < self@.order.len() && name@ == self@.order[i as int]
                    && item@ == self@.map[name@] && *item == self.items()[name@],
                None => i >= self@.order.len(),
            },
    {
        proof {
            use_type_invariant(self);
        }
        if i < self.entries.len() {
            proof {
                lemma_index_of(self.names(), i as int);
            }
            Some((&self.entries[i].0, &self.entries[i].1))
        } else {
            None
        }
    }

    /// Registers `item` under `name`. A value already held under that name
    /// is replaced, and the name keeps its place.
    pub fn insert(&mut self, name: String, item: V)
        ensures
            final(self)@ == old(self)@.insert(name@, item@),
            final(self).items() == old(self).items().insert(name@, item),
            final(self)@.wf(),
    {
        proof {
            use_type_invariant(&*self);
        }
        let ghost before = *self;
        let found = self.position(&name);
        let mut entries: Vec<(String, V)> = Vec::new();
        std::mem::swap(&mut self.entries, &mut entries);
        match found {
            Some(i) => {
                entries[i] = (name, item);
                assert(names_of(entries@) =~= before.names());
            },
            None => {
                entries.push((name, item));
                assert(names_of(entries@) =~= before.names().push(name@));
            },
        }
        self.entries = entries;
        proof {
            use_type_invariant(&*self);
            assert forall|n: Seq<char>| #[trigger]
                self.items().contains_key(n) implies self.items()[n] == before.items().insert(
                name@,
                item,
            )[n] by {
                let k = self.names().index_of(n);
                assert(0 <= k < self.names().len() && self.names()[k] == n);
                if n == name@ {
                    let at = if found is Some {
                        found->0 as int
                    } else {
                        before.names().len() as int
                    };
                    lemma_index_of(self.names(), at);
                } else {
                    let kb = before.names().index_of(n);
                    assert(0 <= kb < before.names().len() && before.names()[kb] == n);
                    lemma_index_of(self.names(), kb);
                }
            }
            assert forall|n: Seq<char>|
                self.names().contains(n) <==> before.names().contains(n) || n == name@ by {
                if found is Some {
                    assert(before.names()[found->0 as int] == name@);
                } else {
                    assert(self.names()[before.names().len() as int] == name@);
                    if before.names().contains(n) {
                        let kb = before.names().index_of(n);
                        assert(self.names()[kb] == n);
                    }
                }
            }
            assert(self.items() =~= before.items().insert(name@, item));
            assert(self@ =~= before@.insert(name@, item@));
        }
    }
}

impl<V: View + Clone> Clone for Namespace<V> {
    /// A namespace with the same names in the same order, each value a
    /// clone of the value held under that name.
    fn clone(&self) -> (r: Self)
        ensures
            r@.order == self@.order,
            r@.wf(),
            r.items().dom() == self.items().dom(),
            forall|name: Seq<char>| #[trigger]
                self.items().contains_key(name) ==> cloned::<V>(
                    self.items()[name],
                    r.items()[name],
                ),
    {
        proof {
            use_type_invariant(self);
        }
        let mut entries: Vec<(String, V)> = Vec::new();
        let mut i: usize = 0;
        while i < self.entries.len()
            invariant
                i <= self.entries@.len(),
                entries@.len() == i,
                forall|j: int|
                    0 <= j < i ==> entries@[j].0@ == self.entries@[j].0@ && cloned::<V>(
                        self.entries@[j].1,
                        entries@[j].1,
                    ),
            decreases self.entries@.len() - i,
        {
            let name = self.entries[i].0.clone();
            let item = self.entries[i].1.clone();
            entries.push((name, item));
            i += 1;
        }
        assert(names_of(entries@) =~= self.names());
        let r = Namespace { entries };
        assert(r.items().dom() =~= self.items().dom());
        r
    }
}

} // verus!
