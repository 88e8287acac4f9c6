//! The mathematical model of a wrapping set and of a traversal session.
use vstd::prelude::*;

verus! {

/// Abstract state of a wrapping set.
///
/// `ordered` lists the held elements in the order in which a traversal walks
/// them; `cursor` is the position at which the next traversal begins. The
/// cursor survives insertions and removals unchanged, so it may point past the
/// end of `ordered`; a traversal then starts over at position zero.
pub struct SetState<T> {
    pub ordered: Seq<T>,
    pub cursor: nat,
}

/// Abstract state of a traversal session: the set it walks, and how many
/// elements it has yielded since it was created or last signalled exhaustion.
pub struct SessionState<T> {
    pub set: SetState<T>,
    pub produced: nat,
}

/// `s` rotated left by `k` places: the elements from position `k` on, followed
/// by the first `k`.
pub open spec fn rotate<T>(s: Seq<T>, k: int) -> Seq<T> {
    s.skip(k) + s.take(k)
}

/// Every element of `s` wrapped in `Some`.
pub open spec fn all_some<T>(s: Seq<T>) -> Seq<Option<T>> {
    Seq::new(s.len(), |i: int| Some(s[i]))
}

impl<T> SetState<T> {
    /// The state of a newly created set.
    pub open spec fn empty() -> Self {
        SetState { ordered: Seq::empty(), cursor: 0 }
    }

    /// Number of held elements.
    pub open spec fn len(self) -> nat {
        self.ordered.len()
    }

    /// The held elements as a set.
    pub open spec fn members(self) -> Set<T> {
        self.ordered.to_set()
    }

    /// Whether `value` is held.
    pub open spec fn contains(self, value: T) -> bool {
        self.ordered.contains(value)
    }

    /// No element is held twice.
    pub open spec fn distinct(self) -> bool {
        self.ordered.no_duplicates()
    }

    /// The state after inserting `value`: a value already held changes
    /// nothing, a new one goes to the end of the order. The cursor stays.
    pub open spec fn insert(self, value: T) -> Self {
        if self.contains(value) {
            self
        } else {
            SetState { ordered: self.ordered.push(value), cursor: self.cursor }
        }
    }

    /// The state after inserting the elements of `values` one after another.
    pub open spec fn insert_all(self, values: Seq<T>) -> Self
        decreases values.len(),
    {
        if values.len() == 0 {
            self
        } else {
            self.insert_all(values.drop_last()).insert(values.last())
        }
    }

    /// Whether `after` is a state that removing `value` from `self` may leave.
    ///
    /// Removing a value that is not held changes nothing. Removing a held one
    /// leaves exactly the other elements, each once, in an order that is not
    /// determined; the cursor keeps its number.
    pub open spec fn removes(self, value: T, after: Self) -> bool {
        if self.contains(value) {
            &&& after.cursor == self.cursor
            &&& after.distinct()
            &&& after.members() == self.members().remove(value)
        } else {
            after == self
        }
    }

    /// The position from which the next element is read: the cursor, or zero
    /// when the cursor has reached or passed the end.
    pub open spec fn start(self) -> nat {
        if self.cursor >= self.len() {
            0
        } else {
            self.cursor
        }
    }

    /// The elements in the order in which one full traversal from the cursor
    /// yields them: from `start()` to the end, then from the beginning up to
    /// `start()`.
    pub open spec fn pass(self) -> Seq<T> {
        rotate(self.ordered, self.start() as int)
    }
}

impl<T> SessionState<T> {
    /// A new session on `set`.
    pub open spec fn begin(set: SetState<T>) -> Self {
        SessionState { set, produced: 0 }
    }

    /// Whether the next step yields an element rather than signalling
    /// exhaustion.
    pub open spec fn has_next(self) -> bool {
        self.produced < self.set.len()
    }

    /// What the next step returns.
    pub open spec fn yielded(self) -> Option<T> {
        if self.has_next() {
            Some(self.set.ordered[self.set.start() as int])
        } else {
            None
        }
    }

    /// The state after the next step.
    ///
    /// The cursor is first brought back to zero if it has run off the end. A
    /// step that yields moves the cursor one place on and counts the element;
    /// a step that signals exhaustion leaves the cursor where it is and
    /// resets the count, so that the session can be used for another pass.
    pub open spec fn advance(self) -> Self {
        if self.has_next() {
            SessionState {
                set: SetState { ordered: self.set.ordered, cursor: self.set.start() + 1 },
                produced: self.produced + 1,
            }
        } else {
            SessionState {
                set: SetState { ordered: self.set.ordered, cursor: self.set.start() },
                produced: 0,
            }
        }
    }

    /// The state after `k` steps.
    pub open spec fn advance_by(self, k: nat) -> Self
        decreases k,
    {
        if k == 0 {
            self
        } else {
            self.advance().advance_by((k - 1) as nat)
        }
    }

    /// What the next `k` steps return, in order.
    pub open spec fn outputs(self, k: nat) -> Seq<Option<T>>
        decreases k,
    {
        if k == 0 {
            Seq::empty()
        } else {
            seq![self.yielded()] + self.advance().outputs((k - 1) as nat)
        }
    }
}

} // verus!
