//! The executable container and its traversal session.
use crate::laws::lemma_insert_keeps_distinct;
use crate::laws::lemma_removal_shrinks_by_one;
use crate::model::SessionState;
use crate::model::SetState;
use std::collections::HashSet;
use std::hash::Hash;
use vstd::prelude::*;
use vstd::std_specs::hash::obeys_key_model;
use vstd::std_specs::iter::IteratorSpec;

verus! {

/// Whether `T` behaves as an element type must: hashing is deterministic,
/// the executable `==` holds of two values exactly when they are the same
/// value, and a clone is the same value as its source.
///
/// The integer types and `bool` meet this without further proof. For any
/// other type, a string for one, it is an assumption of whoever creates the
/// set: a set can only be created for an element type that meets it, and
/// everything the set promises rests on it.
pub open spec fn obeys_element_model<T: Clone>() -> bool {
    &&& obeys_key_model::<T>()
    &&& forall|a: T, b: T| #[trigger] cloned(a, b) ==> a == b
}

/// A set of unique elements that remembers where its last traversal stopped.
///
/// The elements are kept twice: in a hash set, which answers whether a value
/// is held, and in a vector, which fixes the order in which a traversal walks
/// them. `pos` is the index into the vector at which the next traversal
/// begins. The view of a set is its [`SetState`]: the vector's content and
/// the cursor.
#[derive(Debug)]
pub struct WrappingHashSet<T> where T: Eq + Hash + Clone {
    hashset: HashSet<T>,
    keys: Vec<T>,
    pos: usize,
}

/// A traversal session on a [`WrappingHashSet`].
///
/// The session borrows the set exclusively for as long as it lives, so the
/// set can neither be changed nor traversed a second time meanwhile. It
/// moves the set's cursor with every element it yields; `count` is the
/// number of elements yielded since the session was created or last
/// signalled exhaustion. Dropping a session early loses nothing: the cursor
/// stays where the session left it.
pub struct Iter<'i, T: 'i> where T: Eq + Hash + Clone {
    /// The set that is being traversed.
    pub whs: &'i mut WrappingHashSet<T>,
    /// Elements yielded in the current pass.
    pub count: usize,
}

impl<T> View for WrappingHashSet<T> where T: Eq + Hash + Clone {
    type V = SetState<T>;

    closed spec fn view(&self) -> SetState<T> {
        SetState { ordered: self.keys@, cursor: self.pos as nat }
    }
}

impl<'i, T> View for Iter<'i, T> where T: Eq + Hash + Clone {
    type V = SessionState<T>;

    open spec fn view(&self) -> SessionState<T> {
        SessionState { set: self.whs@, produced: self.count as nat }
    }
}

impl<T> WrappingHashSet<T> where T: Eq + Hash + Clone {
    /// The vector holds no value twice, and the hash set holds exactly the
    /// values of the vector.
    #[verifier::type_invariant]
    spec fn index_matches_order(self) -> bool {
        &&& obeys_element_model::<T>()
        &&& self.keys@.no_duplicates()
        &&& self.keys@.to_set() == self.hashset@
    }

    /// Creates a set that holds nothing, with the cursor at the start.
    pub fn new() -> (s: WrappingHashSet<T>)
        requires
            obeys_element_model::<T>(),
        ensures
            s@ == SetState::<T>::empty(),
    {
        let hashset = HashSet::new();
        let keys = Vec::new();
        assert(keys@.to_set() =~= hashset@);
        WrappingHashSet { hashset, keys, pos: 0 }
    }

    /// Starts a traversal session.
    ///
    /// The session begins on the set as it is: creating it moves no cursor
    /// and yields nothing. Whatever the session does to the set is what the
    /// set holds once the session is gone.
    pub fn iter<'i>(&'i mut self) -> (it: Iter<'i, T>)
        ensures
            *it.whs == *old(self),
            it.count == 0,
            it@ == SessionState::begin(old(self)@),
            *final(self) == *final(it.whs),
            old(self)@.distinct(),
    {
        proof {
            use_type_invariant(&*self);
        }
        Iter { whs: self, count: 0 }
    }

    /// Inserts `key` and says whether it was new.
    ///
    /// A value that is already held is not inserted again, and nothing
    /// changes. A new value goes to the end of the traversal order. The
    /// cursor stays where it is.
    pub fn insert(&mut self, key: T) -> (inserted: bool)
        ensures
            inserted == !old(self)@.contains(key),
            final(self)@ == old(self)@.insert(key),
            final(self)@.members() == old(self)@.members().insert(key),
            final(self)@.cursor == old(self)@.cursor,
            final(self)@.distinct(),
    {
        proof {
            use_type_invariant(&*self);
            lemma_insert_keeps_distinct(self@, key);
        }
        // The two collections cannot be changed in one step, and the set must
        // be whole whenever it can be reached: work on its parts, moved out.
        let mut taken = WrappingHashSet::new();
        std::mem::swap(self, &mut taken);
        let WrappingHashSet { mut hashset, mut keys, pos } = taken;
        let ghost before = keys@;
        let stored = key.clone();
        let inserted = hashset.insert(stored);
        if inserted {
            keys.push(key);
        }
        proof {
            assert(cloned(key, stored));
            if inserted {
                before.lemma_push_to_set_commute(key);
            }
            assert(keys@.to_set() =~= hashset@);
        }
        *self = WrappingHashSet { hashset, keys, pos };
        inserted
    }

    /// Removes `key` and says whether it was held.
    ///
    /// Removing a value that is not held changes nothing. After a held value
    /// was removed the set holds the other values, each once, but the
    /// traversal order is rebuilt from the hash set and may be any order of
    /// them. The cursor keeps its number, which may now lie past the end;
    /// the next session then starts over at the first position.
    pub fn remove<'b>(&mut self, key: &'b T) -> (removed: bool)
        ensures
            removed == old(self)@.contains(*key),
            old(self)@.removes(*key, final(self)@),
            final(self)@.members() == old(self)@.members().remove(*key),
            final(self)@.cursor == old(self)@.cursor,
            removed ==> final(self)@.len() + 1 == old(self)@.len(),
            !removed ==> final(self)@ == old(self)@,
            final(self)@.distinct(),
    {
        proof {
            use_type_invariant(&*self);
        }
        let ghost before = self@;
        let mut taken = WrappingHashSet::new();
        std::mem::swap(self, &mut taken);
        let WrappingHashSet { mut hashset, mut keys, pos } = taken;
        let removed = hashset.remove(key);
        if removed {
            keys = Vec::new();
            for k in walk: hashset.iter()
                invariant
                    obeys_element_model::<T>(),
                    keys@ == walk.seq().unref().take(walk.index()),
            {
                let stored = k.clone();
                assert(cloned(*k, stored));
                keys.push(stored);
            }
            // The walk has given every value of the hash set, each once.
            assert(keys@ == IteratorSpec::remaining(&hashset.iter()).unref());
        }
        assert(keys@.to_set() =~= hashset@);
        *self = WrappingHashSet { hashset, keys, pos };
        proof {
            if removed {
                lemma_removal_shrinks_by_one(before, *key, self@);
            } else {
                assert(before.members().remove(*key) =~= before.members());
            }
        }
        removed
    }
}

impl<'i, T> Iterator for Iter<'i, T> where T: Eq + Hash + Clone {
    type Item = T;

    /// Yields the next element, or signals with `None` that the session has
    /// gone round.
    ///
    /// A cursor that has reached or passed the end is first brought back to
    /// the start. If the session has already yielded as many elements as the
    /// set holds, the call yields nothing, leaves the cursor for the next
    /// session and resets the count, so that this session can go round once
    /// more. Otherwise it yields a clone of the element under the cursor and
    /// moves the cursor one place on.
    fn next(&mut self) -> (item: Option<T>)
        ensures
            item == old(self)@.yielded(),
            final(self)@ == old(self)@.advance(),
            *final(final(self).whs) == *final(old(self).whs),
    {
        proof {
            use_type_invariant(&*self.whs);
        }
        let n = self.whs.keys.len();
        if self.whs.pos >= n {
            self.whs.pos = 0;
        }
        if self.count >= n {
            self.count = 0;
            return None;
        }
        self.count += 1;
        self.whs.pos += 1;
        let item = self.whs.keys[self.whs.pos - 1].clone();
        assert(cloned(self.whs.keys@[self.whs.pos - 1], item));
        Some(item)
    }
}

/// A session does not end for good when it signals exhaustion: the next call
/// starts another pass. It is therefore not one of the iterators whose whole
/// output is fixed in advance, and the functions below claim nothing. What
/// `next` does is stated in its own contract.
impl<'i, T> vstd::std_specs::iter::IteratorSpecImpl for Iter<'i, T> where T: Eq + Hash + Clone {
    open spec fn obeys_prophetic_iter_laws(&self) -> bool {
        false
    }

    open spec fn remaining(&self) -> Seq<Self::Item> {
        Seq::empty()
    }

    open spec fn will_return_none(&self) -> bool {
        false
    }

    open spec fn decrease(&self) -> Option<nat> {
        None
    }

    open spec fn initial_value_relation(&self, init: &Self) -> bool {
        true
    }

    open spec fn peek(&self, index: int) -> Option<Self::Item> {
        None
    }
}

} // verus!
