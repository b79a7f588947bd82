//! The password store: at most 128 entries, kept in the order they were added.

use crate::password::{lemma_array_string_ext, ArrayString, PasswordItem};
use vstd::prelude::*;

verus! {

/// The number of entries that the store can hold.
pub const CAPACITY: usize = 128;

/// Returned by [`PasswordStore::add`] when the store already holds
/// [`CAPACITY`] entries.
#[derive(Clone, Copy, Debug, PartialEq, Eq)]
pub struct StorageFullError;

/// The index of the first entry named `name`, if there is one.
pub open spec fn position(entries: Seq<PasswordItem>, name: Seq<u8>) -> Option<int>
    decreases entries.len(),
{
    if entries.len() == 0 {
        None
    } else if entries[0].name@ == name {
        Some(0)
    } else {
        match position(entries.skip(1), name) {
            Some(i) => Some(i + 1),
            None => None,
        }
    }
}

/// No two entries share a name.
pub open spec fn names_unique(entries: Seq<PasswordItem>) -> bool {
    forall|i: int, j: int|
        0 <= i < entries.len() && 0 <= j < entries.len() && i != j ==> entries[i].name@
            != entries[j].name@
}

/// [`position`] finds the first entry with the name, and finds none only
/// where no entry has it.
pub proof fn lemma_position(entries: Seq<PasswordItem>, name: Seq<u8>)
    ensures
        match position(entries, name) {
            Some(i) => 0 <= i < entries.len() && entries[i].name@ == name && forall|j: int|
                0 <= j < i ==> entries[j].name@ != name,
            None => forall|j: int| 0 <= j < entries.len() ==> entries[j].name@ != name,
        },
    decreases entries.len(),
{
    if entries.len() > 0 && entries[0].name@ != name {
        let rest = entries.skip(1);
        lemma_position(rest, name);
        match position(rest, name) {
            Some(i) => {
                assert forall|j: int| 0 <= j < i + 1 implies entries[j].name@ != name by {
                    if j > 0 {
                        assert(entries[j] == rest[j - 1]);
                    }
                }
            },
            None => {
                assert forall|j: int| 0 <= j < entries.len() implies entries[j].name@ != name by {
                    if j > 0 {
                        assert(entries[j] == rest[j - 1]);
                    }
                }
            },
        }
    }
}

/// The bounded collection of entries. It holds at most [`CAPACITY`] of them
/// and does not look at their names: keeping names distinct is up to the
/// caller.
pub struct PasswordStore {
    items: [PasswordItem; 128],
    len: usize,
}

impl View for PasswordStore {
    type V = Seq<PasswordItem>;

    closed spec fn view(&self) -> Seq<PasswordItem> {
        self.items@.subrange(0, self.len as int)
    }
}

impl PasswordStore {
    #[verifier::type_invariant]
    spec fn within_capacity(&self) -> bool {
        self.len <= 128
    }

    /// The empty store.
    pub fn new() -> (store: Self)
        ensures
            store@ == Seq::<PasswordItem>::empty(),
    {
        let store = PasswordStore { items: [PasswordItem::new(); 128], len: 0 };
        assert(store@ =~= Seq::<PasswordItem>::empty());
        store
    }

    /// The number of entries.
    pub fn len(&self) -> (n: usize)
        ensures
            n == self@.len(),
            n <= CAPACITY,
    {
        proof {
            use_type_invariant(self);
        }
        self.len
    }

    /// The entry at `index`, or nothing where `index` is not below the length.
    pub fn get(&self, index: usize) -> (entry: Option<PasswordItem>)
        ensures
            entry == if index < self@.len() {
                Some(self@[index as int])
            } else {
                None
            },
    {
        proof {
            use_type_invariant(self);
        }
        if index < self.len {
            Some(self.items[index])
        } else {
            None
        }
    }

    /// The index of the first entry whose name has exactly the bytes of
    /// `name`, padding included.
    pub fn find_by_name(&self, name: &ArrayString<32>) -> (found: Option<usize>)
        ensures
            match found {
                Some(i) => position(self@, name@) == Some(i as int),
                None => position(self@, name@) is None,
            },
    {
        proof {
            use_type_invariant(self);
        }
        let mut i: usize = 0;
        while i < self.len
            invariant
                i <= self.len <= 128,
                forall|j: int| 0 <= j < i ==> self@[j].name@ != name@,
            decreases self.len - i,
        {
            if self.items[i].name.same_bytes(name) {
                proof {
                    lemma_position(self@, name@);
                    assert(self@[i as int].name@ == name@);
                    if let Some(first) = position(self@, name@) {
                        if first < i {
                            assert(self@[first].name@ != name@);
                        }
                    }
                }
                return Some(i);
            }
            i += 1;
        }
        proof {
            lemma_position(self@, name@);
            if let Some(first) = position(self@, name@) {
                assert(self@[first].name@ != name@);
            }
        }
        None
    }

    /// Appends `entry`, or fails and changes nothing where the store is full.
    pub fn add(&mut self, entry: &PasswordItem) -> (added: Result<(), StorageFullError>)
        ensures
            added is Ok <==> old(self)@.len() < CAPACITY,
            added is Ok ==> final(self)@ == old(self)@.push(*entry),
            added is Err ==> final(self)@ == old(self)@,
    {
        proof {
            use_type_invariant(&*self);
        }
        if self.len < CAPACITY {
            let ghost before = self@;
            self.items[self.len] = *entry;
            self.len += 1;
            assert(self@ =~= before.push(*entry));
            Ok(())
        } else {
            Err(StorageFullError)
        }
    }

    /// Removes the entry at `index`; the entries after it move down by one.
    /// The store has room for an entry afterwards.
    pub fn remove(&mut self, index: usize)
        requires
            index < old(self)@.len(),
        ensures
            final(self)@ == old(self)@.remove(index as int),
            final(self)@.len() < CAPACITY,
    {
        proof {
            use_type_invariant(&*self);
        }
        let ghost before = self@;
        let mut i: usize = index;
        while i + 1 < self.len
            invariant
                index <= i < self.len <= 128,
                self.len == before.len(),
                forall|j: int| 0 <= j < index ==> self.items@[j] == before[j],
                forall|j: int| index <= j < i ==> self.items@[j] == before[j + 1],
                forall|j: int| i <= j < self.len ==> self.items@[j] == before[j],
            decreases self.len - i,
        {
            self.items[i] = self.items[i + 1];
            i += 1;
        }
        self.len -= 1;
        assert(self@ =~= before.remove(index as int));
    }

    /// A copy of the store as it now is.
    pub fn snapshot(&self) -> (copy: Self)
        ensures
            copy@ == self@,
    {
        proof {
            use_type_invariant(self);
        }
        PasswordStore { items: self.items, len: self.len }
    }

    /// Whether two stores hold the same entries in the same order.
    pub fn same_entries(&self, other: &Self) -> (same: bool)
        ensures
            same == (self@ == other@),
    {
        proof {
            use_type_invariant(self);
            use_type_invariant(other);
        }
        if self.len != other.len {
            assert(self@.len() != other@.len());
            return false;
        }
        let mut i: usize = 0;
        while i < self.len
            invariant
                i <= self.len <= 128,
                self.len == other.len,
                forall|j: int| 0 <= j < i ==> self@[j] == other@[j],
            decreases self.len - i,
        {
            let mine = &self.items[i];
            let theirs = &other.items[i];
            if !mine.name.same_bytes(&theirs.name) || !mine.pass.same_bytes(&theirs.pass) {
                assert(self@[i as int] != other@[i as int]);
                return false;
            }
            proof {
                lemma_array_string_ext(mine.name, theirs.name);
                lemma_array_string_ext(mine.pass, theirs.pass);
            }
            i += 1;
        }
        assert(self@ =~= other@);
        true
    }

    /// Removes every entry.
    pub fn clear(&mut self)
        ensures
            final(self)@ == Seq::<PasswordItem>::empty(),
    {
        self.len = 0;
        assert(self@ =~= Seq::<PasswordItem>::empty());
    }
}

} // verus!
