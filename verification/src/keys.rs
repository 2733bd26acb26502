//! The keys that the filter lets through: a set of keys, and a table from keys to
//! the names under which the user is asked about them.

use vstd::prelude::*;
use vstd::slice::slice_to_vec;

verus! {

/// Whether two blocks of bytes are the same.
pub fn same_bytes(a: &[u8], b: &[u8]) -> (same: bool)
    ensures
        same == (a@ == b@),
{
    if a.len() != b.len() {
        return false;
    }
    let mut i: usize = 0;
    while i < a.len()
        invariant
            i <= a@.len(),
            a@.len() == b@.len(),
            forall|j: int| 0 <= j < i ==> a@[j] == b@[j],
        decreases a@.len() - i,
    {
        if a[i] != b[i] {
            return false;
        }
        i = i + 1;
    }
    assert(a@ =~= b@);
    true
}

/// A set of keys. No key is held twice.
pub struct KeySet {
    keys: Vec<Vec<u8>>,
}

impl View for KeySet {
    type V = Set<Seq<u8>>;

    closed spec fn view(&self) -> Set<Seq<u8>> {
        Set::new(|k: Seq<u8>| exists|i: int| 0 <= i < self.keys@.len() && self.keys@[i]@ == k)
    }
}

impl KeySet {
    #[verifier::type_invariant]
    spec fn held_once(self) -> bool {
        forall|i: int, j: int|
            0 <= i < j < self.keys@.len() ==> self.keys@[i]@ != self.keys@[j]@
    }

    /// The empty set.
    pub fn new() -> (set: Self)
        ensures
            set@ == Set::<Seq<u8>>::empty(),
    {
        let set = Self { keys: Vec::new() };
        assert(set@ =~= Set::<Seq<u8>>::empty());
        set
    }

    /// Whether a key is in the set.
    pub fn contains(&self, key: &[u8]) -> (found: bool)
        ensures
            found == self@.contains(key@),
    {
        let mut i: usize = 0;
        while i < self.keys.len()
            invariant
                i <= self.keys@.len(),
                forall|j: int| 0 <= j < i ==> self.keys@[j]@ != key@,
            decreases self.keys@.len() - i,
        {
            if same_bytes(self.keys[i].as_slice(), key) {
                return true;
            }
            i = i + 1;
        }
        false
    }

    /// Puts a key into the set.
    pub fn insert(&mut self, key: &[u8])
        ensures
            final(self)@ == old(self)@.insert(key@),
    {
        proof {
            use_type_invariant(&*self);
        }
        if self.contains(key) {
            assert(self@ =~= old(self)@.insert(key@));
            return ;
        }
        let ghost before = self.keys@;
        let mut keys: Vec<Vec<u8>> = Vec::new();
        std::mem::swap(&mut keys, &mut self.keys);
        keys.push(slice_to_vec(key));
        self.keys = keys;
        proof {
            assert forall|k: Seq<u8>| self@.contains(k) == old(self)@.insert(key@).contains(k) by {
                if old(self)@.contains(k) {
                    let i = choose|i: int| 0 <= i < before.len() && before[i]@ == k;
                    assert(self.keys@[i]@ == k);
                }
                if k == key@ {
                    assert(self.keys@[before.len() as int]@ == k);
                }
            }
            assert(self@ =~= old(self)@.insert(key@));
        }
    }
}

/// A table from keys to names. No key is held twice.
pub struct KeyNames {
    entries: Vec<(Vec<u8>, String)>,
}

/// The name that stands with a key in a list of entries.
spec fn name_in(entries: Seq<(Vec<u8>, String)>, key: Seq<u8>) -> Seq<char> {
    let i = choose|i: int| 0 <= i < entries.len() && entries[i].0@ == key;
    entries[i].1@
}

/// Whether a key stands in a list of entries.
spec fn held_in(entries: Seq<(Vec<u8>, String)>, key: Seq<u8>) -> bool {
    exists|i: int| 0 <= i < entries.len() && entries[i].0@ == key
}

impl View for KeyNames {
    type V = Map<Seq<u8>, Seq<char>>;

    closed spec fn view(&self) -> Map<Seq<u8>, Seq<char>> {
        Map::new(
            |k: Seq<u8>| held_in(self.entries@, k),
            |k: Seq<u8>| name_in(self.entries@, k),
        )
    }
}

impl KeyNames {
    #[verifier::type_invariant]
    spec fn held_once(self) -> bool {
        forall|i: int, j: int|
            0 <= i < j < self.entries@.len() ==> self.entries@[i].0@ != self.entries@[j].0@
    }

    /// The empty table.
    pub fn new() -> (table: Self)
        ensures
            table@ == Map::<Seq<u8>, Seq<char>>::empty(),
    {
        let table = Self { entries: Vec::new() };
        assert(table@ =~= Map::<Seq<u8>, Seq<char>>::empty());
        table
    }

    /// Where a key stands, if it is held.
    fn position(&self, key: &[u8]) -> (found: Option<usize>)
        ensures
            match found {
                Some(i) => i < self.entries@.len() && self.entries@[i as int].0@ == key@,
                None => !held_in(self.entries@, key@),
            },
    {
        let mut i: usize = 0;
        while i < self.entries.len()
            invariant
                i <= self.entries@.len(),
                forall|j: int| 0 <= j < i ==> self.entries@[j].0@ != key@,
            decreases self.entries@.len() - i,
        {
            if same_bytes(self.entries[i].0.as_slice(), key) {
                return Some(i);
            }
            i = i + 1;
        }
        None
    }

    /// Whether a key is in the table.
    pub fn contains_key(&self, key: &[u8]) -> (found: bool)
        ensures
            found == self@.dom().contains(key@),
    {
        self.position(key).is_some()
    }

    /// The name of a key.
    pub fn get(&self, key: &[u8]) -> (name: Option<&String>)
        ensures
            match name {
                Some(name) => self@.dom().contains(key@) && name@ == self@[key@],
                None => !self@.dom().contains(key@),
            },
    {
        proof {
            use_type_invariant(self);
        }
        match self.position(key) {
            Some(i) => Some(&self.entries[i].1),
            None => None,
        }
    }

    /// Gives a key a name, in place of the one that it had.
    pub fn insert(&mut self, key: &[u8], name: String)
        ensures
            final(self)@ == old(self)@.insert(key@, name@),
    {
        proof {
            use_type_invariant(&*self);
        }
        let ghost before = self.entries@;
        let ghost wanted = old(self)@.insert(key@, name@);
        let place = self.position(key);
        let mut entries: Vec<(Vec<u8>, String)> = Vec::new();
        std::mem::swap(&mut entries, &mut self.entries);
        match place {
            Some(i) => {
                entries.set(i, (slice_to_vec(key), name));
            },
            None => {
                entries.push((slice_to_vec(key), name));
            },
        }
        self.entries = entries;
        proof {
            let after = self.entries@;
            assert forall|k: Seq<u8>|
                held_in(after, k) == wanted.dom().contains(k) && (held_in(after, k)
                    ==> name_in(after, k) == wanted[k]) by {
                if held_in(before, k) {
                    let i = choose|i: int| 0 <= i < before.len() && before[i].0@ == k;
                    assert(after[i].0@ == k);
                }
                if k == key@ && !held_in(before, k) {
                    assert(after[before.len() as int].0@ == k);
                }
            }
            assert(self@ =~= wanted);
        }
    }
}

} // verus!
