//! A sparse container whose indices stay valid across removals of other
//! entries. Removed slots are reused by later insertions.

use vstd::prelude::*;

verus! {

/// Whether slot `i` of `s` holds a live entry.
pub open spec fn live<T>(s: Seq<Option<T>>, i: int) -> bool {
    0 <= i < s.len() && s[i] is Some
}

/// The slot that the next insertion takes: the first free slot, or a new one
/// at the end.
pub open spec fn next_slot<T>(s: Seq<Option<T>>, i: int) -> bool {
    &&& 0 <= i <= s.len()
    &&& !live(s, i)
    &&& forall|k: int| 0 <= k < i ==> live(s, k)
}

/// The slots after storing `v` at `i`.
pub open spec fn stored<T>(s: Seq<Option<T>>, i: int, v: T) -> Seq<Option<T>> {
    if i < s.len() {
        s.update(i, Some(v))
    } else {
        s.push(Some(v))
    }
}

/// The slots after freeing `i` (unchanged when `i` is out of range).
pub open spec fn freed<T>(s: Seq<Option<T>>, i: int) -> Seq<Option<T>> {
    if 0 <= i < s.len() {
        s.update(i, None)
    } else {
        s
    }
}

/// What a lookup of `i` finds.
pub open spec fn lookup<T>(s: Seq<Option<T>>, i: int) -> Option<T> {
    if 0 <= i < s.len() {
        s[i]
    } else {
        None
    }
}

/// A vector of optional slots with stable indices.
#[derive(Debug)]
pub struct OptVec<T> {
    slots: Vec<Option<T>>,
}

impl<T> View for OptVec<T> {
    type V = Seq<Option<T>>;

    closed spec fn view(&self) -> Seq<Option<T>> {
        self.slots@
    }
}

impl<T> OptVec<T> {
    /// An empty container.
    pub fn new() -> (r: Self)
        ensures
            r@.len() == 0,
    {
        OptVec { slots: Vec::new() }
    }

    /// The number of slots, live or free.
    pub fn len(&self) -> (r: usize)
        ensures
            r == self@.len(),
    {
        self.slots.len()
    }

    /// Store `v` in the first free slot (or a new one) and return its index.
    pub fn insert(&mut self, v: T) -> (r: usize)
        requires
            old(self)@.len() < usize::MAX,
        ensures
            next_slot(old(self)@, r as int),
            final(self)@ == stored(old(self)@, r as int, v),
    {
        let mut i: usize = 0;
        while i < self.slots.len()
            invariant
                self.slots@ == old(self)@,
                i <= self.slots@.len(),
                forall|k: int| 0 <= k < i ==> live(self.slots@, k),
            decreases self.slots@.len() - i,
        {
            if self.slots[i].is_none() {
                self.slots.set(i, Some(v));
                return i;
            }
            i += 1;
        }
        self.slots.push(Some(v));
        i
    }

    /// Free slot `i`, returning what it held.
    pub fn remove(&mut self, i: usize) -> (r: Option<T>)
        ensures
            r == lookup(old(self)@, i as int),
            final(self)@ == freed(old(self)@, i as int),
    {
        if i < self.slots.len() {
            let taken = self.slots.remove(i);
            self.slots.insert(i, None);
            assert(self.slots@ =~= freed(old(self)@, i as int));
            taken
        } else {
            None
        }
    }

    /// The entry at `i`, if that slot is live.
    pub fn get(&self, i: usize) -> (r: Option<&T>)
        ensures
            r is Some == lookup(self@, i as int) is Some,
            r is Some ==> *r.unwrap() == lookup(self@, i as int).unwrap(),
    {
        if i < self.slots.len() {
            match &self.slots[i] {
                Some(v) => Some(v),
                None => None,
            }
        } else {
            None
        }
    }
}

/// An insertion never hands out the index of a live entry, and leaves every
/// other slot as it was: two entries that are live together never share an index.
pub proof fn lemma_insert_keeps_others<T>(s: Seq<Option<T>>, i: int, v: T)
    requires
        next_slot(s, i),
    ensures
        !live(s, i),
        lookup(stored(s, i, v), i) == Some(v),
        forall|k: int| k != i ==> lookup(#[trigger] stored(s, i, v), k) == lookup(s, k),
{
}

/// A lookup of a removed index finds nothing, whatever the slot held.
pub proof fn lemma_lookup_after_remove<T>(s: Seq<Option<T>>, i: int)
    ensures
        lookup(freed(s, i), i) is None,
        forall|k: int| k != i ==> lookup(#[trigger] freed(s, i), k) == lookup(s, k),
{
}

} // verus!
