//! A small map from text keys to text values that keeps its entries in
//! insertion order; inserting an existing key replaces its value in place.
use vstd::prelude::*;

use crate::text::same_text;

verus! {

/// Entries as plain text pairs, in order.
pub type Entries = Seq<(Seq<char>, Seq<char>)>;

/// The index of the first entry with key `k`.
pub open spec fn find_key(e: Entries, k: Seq<char>) -> Option<int>
    decreases e.len(),
{
    if e.len() == 0 {
        None
    } else {
        match find_key(e.drop_last(), k) {
            Some(i) => Some(i),
            None => if e.last().0 == k { Some(e.len() - 1) } else { None },
        }
    }
}

/// The value stored under `k`.
pub open spec fn lookup(e: Entries, k: Seq<char>) -> Option<Seq<char>> {
    match find_key(e, k) {
        Some(i) => Some(e[i].1),
        None => None,
    }
}

/// `e` with `k` bound to `v`: the entry of `k` is replaced where it stands,
/// or a new entry is appended.
pub open spec fn map_insert(e: Entries, k: Seq<char>, v: Seq<char>) -> Entries {
    match find_key(e, k) {
        Some(i) => e.update(i, (k, v)),
        None => e.push((k, v)),
    }
}

/// No key occurs twice.
pub open spec fn keys_distinct(e: Entries) -> bool {
    forall|i: int, j: int| 0 <= i < e.len() && 0 <= j < e.len() && i != j ==> e[i].0 != e[j].0
}

/// `find_key` finds the first entry with the key, and nothing when none has it.
pub proof fn lemma_find_key(e: Entries, k: Seq<char>)
    ensures
        match find_key(e, k) {
            Some(i) => 0 <= i < e.len() && e[i].0 == k && forall|j: int| 0 <= j < i ==> e[j].0 != k,
            None => forall|j: int| 0 <= j < e.len() ==> e[j].0 != k,
        },
    decreases e.len(),
{
    if e.len() > 0 {
        lemma_find_key(e.drop_last(), k);
        match find_key(e.drop_last(), k) {
            Some(i) => {
                assert(e.drop_last()[i] == e[i]);
                assert forall|j: int| 0 <= j < i implies e[j].0 != k by {
                    assert(e.drop_last()[j] == e[j]);
                }
            },
            None => {
                assert forall|j: int| 0 <= j < e.len() - 1 implies e[j].0 != k by {
                    assert(e.drop_last()[j] == e[j]);
                }
            },
        }
    }
}

/// The first index with key `k` is the one `find_key` gives.
pub proof fn lemma_find_key_unique(e: Entries, k: Seq<char>, i: int)
    requires
        0 <= i < e.len(),
        e[i].0 == k,
        forall|j: int| 0 <= j < i ==> e[j].0 != k,
    ensures
        find_key(e, k) == Some(i),
{
    lemma_find_key(e, k);
}

/// What a read gives back after a write: the written key gives the written
/// value, and every other key gives what it gave before.
pub proof fn lemma_lookup_after_insert(e: Entries, k: Seq<char>, v: Seq<char>, k2: Seq<char>)
    ensures
        lookup(map_insert(e, k, v), k2) == if k2 == k { Some(v) } else { lookup(e, k2) },
{
    let e2 = map_insert(e, k, v);
    lemma_find_key(e, k);
    lemma_find_key(e, k2);
    lemma_find_key(e2, k2);
    match find_key(e, k) {
        Some(i) => {
            if k2 == k {
                lemma_find_key_unique(e2, k2, i);
            } else {
                match find_key(e, k2) {
                    Some(i2) => lemma_find_key_unique(e2, k2, i2),
                    None => {
                        assert(forall|j: int| 0 <= j < e2.len() ==> e2[j].0 != k2);
                    },
                }
            }
        },
        None => {
            if k2 == k {
                lemma_find_key_unique(e2, k2, e.len() as int);
            } else {
                match find_key(e, k2) {
                    Some(i2) => lemma_find_key_unique(e2, k2, i2),
                    None => {
                        assert(forall|j: int| 0 <= j < e2.len() ==> e2[j].0 != k2);
                    },
                }
            }
        },
    }
}

/// Inserting keeps the keys distinct.
pub proof fn lemma_insert_keeps_keys_distinct(e: Entries, k: Seq<char>, v: Seq<char>)
    requires
        keys_distinct(e),
    ensures
        keys_distinct(map_insert(e, k, v)),
{
    lemma_find_key(e, k);
}

/// A map from text keys to text values, in insertion order.
#[derive(Debug, Clone)]
pub struct StringMap {
    entries: Vec<(String, String)>,
}

impl View for StringMap {
    type V = Entries;

    closed spec fn view(&self) -> Entries {
        self.entries.deep_view()
    }
}

impl StringMap {
    /// An empty map.
    pub fn new() -> (m: StringMap)
        ensures
            m@ == Seq::<(Seq<char>, Seq<char>)>::empty(),
    {
        let m = StringMap { entries: Vec::new() };
        assert(m@ =~= Seq::<(Seq<char>, Seq<char>)>::empty());
        m
    }

    /// The number of entries.
    pub fn len(&self) -> (n: usize)
        ensures
            n == self@.len(),
    {
        self.entries.len()
    }

    /// The entries in order.
    pub fn pairs(&self) -> (p: &Vec<(String, String)>)
        ensures
            p.deep_view() == self@,
    {
        &self.entries
    }

    /// The index of the first entry with key `k`.
    fn position(&self, k: &str) -> (r: Option<usize>)
        ensures
            match r {
                Some(i) => find_key(self@, k@) == Some(i as int),
                None => find_key(self@, k@) is None,
            },
    {
        let mut i: usize = 0;
        while i < self.entries.len()
            invariant
                i <= self.entries.len(),
                self.entries.deep_view().len() == self.entries.len(),
                forall|j: int| 0 <= j < i ==> self@[j].0 != k@,
            decreases self.entries.len() - i,
        {
            if same_text(self.entries[i].0.as_str(), k) {
                proof {
                    assert(self@[i as int].0 == self.entries@[i as int].0@);
                    lemma_find_key_unique(self@, k@, i as int);
                }
                return Some(i);
            }
            assert(self@[i as int].0 == self.entries@[i as int].0@);
            i = i + 1;
        }
        proof {
            lemma_find_key(self@, k@);
        }
        None
    }

    /// The value stored under `k`.
    pub fn get(&self, k: &str) -> (r: Option<&String>)
        ensures
            match r {
                Some(v) => lookup(self@, k@) == Some(v@),
                None => lookup(self@, k@) is None,
            },
    {
        let r = self.position(k);
        proof {
            lemma_find_key(self@, k@);
            assert(self.entries.deep_view().len() == self.entries.len());
        }
        match r {
            Some(i) => {
                assert(self@[i as int].1 == self.entries@[i as int].1@);
                Some(&self.entries[i].1)
            },
            None => None,
        }
    }

    /// Binds `k` to `v` (`HashMap::insert`).
    pub fn insert(&mut self, k: String, v: String)
        ensures
            final(self)@ == map_insert(old(self)@, k@, v@),
    {
        let r = self.position(k.as_str());
        proof {
            lemma_find_key(self@, k@);
            assert(self.entries.deep_view().len() == self.entries.len());
        }
        match r {
            Some(i) => {
                self.entries.set(i, (k, v));
            },
            None => {
                self.entries.push((k, v));
            },
        }
        assert(self@ =~= map_insert(old(self)@, k@, v@));
    }

    /// The first entry, if any.
    pub fn first(&self) -> (r: Option<&(String, String)>)
        ensures
            match r {
                Some(p) => self@.len() > 0 && p.deep_view() == self@[0],
                None => self@.len() == 0,
            },
    {
        if self.entries.len() > 0 {
            Some(&self.entries[0])
        } else {
            None
        }
    }
}

} // verus!
