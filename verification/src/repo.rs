//! Insertion-ordered catalogs keyed by string identifier.

use vstd::prelude::*;

verus! {

/// Whether `i` is the first position in `entries` that holds `id`.
pub open spec fn is_first_at<V>(entries: Seq<(Seq<char>, V)>, id: Seq<char>, i: int) -> bool {
    &&& 0 <= i < entries.len()
    &&& entries[i].0 == id
    &&& forall|j: int| 0 <= j < i ==> (#[trigger] entries[j]).0 != id
}

/// Position of `id` in `entries`, if it occurs.
pub open spec fn position<V>(entries: Seq<(Seq<char>, V)>, id: Seq<char>) -> Option<int> {
    if exists|i: int| is_first_at(entries, id, i) {
        Some(choose|i: int| is_first_at(entries, id, i))
    } else {
        None
    }
}

/// The item that `entries` holds under `id`, if any.
pub open spec fn lookup<V>(entries: Seq<(Seq<char>, V)>, id: Seq<char>) -> Option<V> {
    match position(entries, id) {
        Some(i) => Some(entries[i].1),
        None => None,
    }
}

/// Every identifier occurs at most once in `entries`.
pub open spec fn distinct_ids<V>(entries: Seq<(Seq<char>, V)>) -> bool {
    forall|i: int, j: int|
        0 <= i < j < entries.len() ==> (#[trigger] entries[i]).0 != (#[trigger] entries[j]).0
}

/// `position` is the one index that holds `id` first.
pub proof fn lemma_position_is_first<V>(entries: Seq<(Seq<char>, V)>, id: Seq<char>, i: int)
    requires
        is_first_at(entries, id, i),
    ensures
        position(entries, id) == Some(i),
{
    let c = choose|c: int| is_first_at(entries, id, c);
    assert(is_first_at(entries, id, c));
    if c < i {
        assert(entries[c].0 != id);
    } else if i < c {
        assert(entries[i].0 != id);
    }
}

/// An identifier that no entry holds has no position.
pub proof fn lemma_position_absent<V>(entries: Seq<(Seq<char>, V)>, id: Seq<char>)
    requires
        forall|j: int| 0 <= j < entries.len() ==> (#[trigger] entries[j]).0 != id,
    ensures
        position(entries, id) is None,
{
}

/// An identifier that some entry holds has a position.
pub proof fn lemma_position_present<V>(entries: Seq<(Seq<char>, V)>, id: Seq<char>, j: int)
    requires
        0 <= j < entries.len(),
        entries[j].0 == id,
    ensures
        position(entries, id) is Some,
    decreases j,
{
    if forall|k: int| 0 <= k < j ==> (#[trigger] entries[k]).0 != id {
        assert(is_first_at(entries, id, j));
    } else {
        let k = choose|k: int| 0 <= k < j && (#[trigger] entries[k]).0 == id;
        lemma_position_present(entries, id, k);
    }
}

/// Two lists that hold the same identifiers in the same order give every
/// identifier the same position.
pub proof fn lemma_position_same_ids<A, B>(
    a: Seq<(Seq<char>, A)>,
    b: Seq<(Seq<char>, B)>,
    id: Seq<char>,
)
    requires
        a.len() == b.len(),
        forall|i: int| 0 <= i < a.len() ==> (#[trigger] a[i]).0 == b[i].0,
    ensures
        position(a, id) == position(b, id),
{
    match position(a, id) {
        Some(i) => {
            assert(is_first_at(a, id, i));
            assert forall|j: int| 0 <= j < i implies (#[trigger] b[j]).0 != id by {
                assert(a[j].0 != id);
            }
            assert(is_first_at(b, id, i));
            lemma_position_is_first(b, id, i);
        },
        None => {
            assert forall|j: int| 0 <= j < b.len() implies (#[trigger] b[j]).0 != id by {
                if a[j].0 == id {
                    lemma_position_present(a, id, j);
                }
            }
        },
    }
}

/// A catalog: items under string identifiers, kept in the order in which the
/// identifiers were first inserted.
pub struct Repo<T> {
    entries: Vec<(String, T)>,
}

impl<T> Repo<T> {
    /// The identifiers with their items, in catalog order.
    pub closed spec fn entries(&self) -> Seq<(Seq<char>, T)> {
        self.entries@.map_values(|e: (String, T)| (e.0@, e.1))
    }

    /// Well-formedness: no identifier occurs twice.
    pub open spec fn wf(&self) -> bool {
        distinct_ids(self.entries())
    }

    /// An empty catalog.
    pub fn new() -> (repo: Self)
        ensures
            repo.entries() == Seq::<(Seq<char>, T)>::empty(),
            repo.wf(),
    {
        let repo = Repo { entries: Vec::new() };
        assert(repo.entries() =~= Seq::<(Seq<char>, T)>::empty());
        repo
    }

    /// Number of entries.
    pub fn len(&self) -> (n: usize)
        ensures
            n == self.entries().len(),
    {
        self.entries.len()
    }

    /// The item at position `i` of the catalog order.
    pub fn item_at(&self, i: usize) -> (item: &T)
        requires
            i < self.entries().len(),
        ensures
            *item == self.entries()[i as int].1,
    {
        &self.entries[i].1
    }

    /// Position of `id` in the catalog, if it is present.
    pub fn find(&self, id: &String) -> (found: Option<usize>)
        ensures
            match found {
                Some(i) => position(self.entries(), id@) == Some(i as int),
                None => position(self.entries(), id@) is None,
            },
    {
        let n = self.entries.len();
        let mut i: usize = 0;
        while i < n
            invariant
                n == self.entries@.len(),
                i <= n,
                forall|j: int| 0 <= j < i ==> (#[trigger] self.entries()[j]).0 != id@,
            decreases n - i,
        {
            if self.entries[i].0 == *id {
                proof {
                    lemma_position_is_first(self.entries(), id@, i as int);
                }
                return Some(i);
            }
            i += 1;
        }
        proof {
            lemma_position_absent(self.entries(), id@);
        }
        None
    }

    /// Puts `item` under `id`. An identifier that is already present keeps its
    /// place in the catalog order and hands back the item it held; a new one
    /// goes to the end.
    pub fn insert(&mut self, id: String, item: T) -> (previous: Option<T>)
        ensures
            old(self).wf() ==> final(self).wf(),
            match position(old(self).entries(), id@) {
                Some(i) => {
                    &&& previous == Some(old(self).entries()[i].1)
                    &&& final(self).entries() == old(self).entries().update(i, (id@, item))
                },
                None => {
                    &&& previous is None
                    &&& final(self).entries() == old(self).entries().push((id@, item))
                },
            },
    {
        let found = self.find(&id);
        let ghost before = self.entries();
        let ghost key = id@;
        self.entries.push((id, item));
        match found {
            Some(i) => {
                let replaced = self.entries.swap_remove(i);
                proof {
                    assert(self.entries() =~= before.update(i as int, (key, item)));
                    assert(before[i as int].0 == key);
                }
                Some(replaced.1)
            },
            None => {
                proof {
                    assert(self.entries() =~= before.push((key, item)));
                    assert forall|j: int| 0 <= j < before.len() implies (#[trigger] before[j]).0
                        != key by {
                        if before[j].0 == key {
                            lemma_position_present(before, key, j);
                        }
                    }
                }
                None
            },
        }
    }

    /// The item held under `id`, if any.
    pub fn get(&self, id: &str) -> (item: Option<&T>)
        ensures
            match item {
                Some(t) => lookup(self.entries(), id@) == Some(*t),
                None => lookup(self.entries(), id@) is None,
            },
    {
        let key = id.to_owned();
        match self.find(&key) {
            Some(i) => Some(&self.entries[i].1),
            None => None,
        }
    }
}

impl<T: View> View for Repo<T> {
    type V = Seq<(Seq<char>, T::V)>;

    /// The identifiers with the views of their items, in catalog order.
    open spec fn view(&self) -> Seq<(Seq<char>, T::V)> {
        self.entries().map_values(|e: (Seq<char>, T)| (e.0, e.1@))
    }
}

} // verus!
