//! Properties of the model that hold for every set and every session.
//!
//! The contracts of the executable container say what one call does. The
//! lemmas here say what follows for whole traversals: which elements a
//! session yields, where the next session picks up, and how insertion and
//! removal interact with the cursor.
use crate::model::all_some;
use crate::model::rotate;
use crate::model::SessionState;
use crate::model::SetState;
use vstd::prelude::*;
use vstd::seq_lib::lemma_seq_union_to_multiset_commutative;
use vstd::seq_lib::to_multiset_contains;

verus! {

/// A rotation is a rearrangement: it has the length and the elements of the
/// sequence it was made from, each as often, and no duplicates if that had
/// none.
pub proof fn lemma_rotate_rearranges<T>(s: Seq<T>, k: int)
    requires
        0 <= k <= s.len(),
    ensures
        rotate(s, k).len() == s.len(),
        rotate(s, k).to_multiset() == s.to_multiset(),
        s.no_duplicates() ==> rotate(s, k).no_duplicates(),
{
    assert(s.take(k) + s.skip(k) =~= s);
    lemma_seq_union_to_multiset_commutative(s.skip(k), s.take(k));
}

/// A step of a session that has not yet gone round yields the head of the
/// pass and leaves the set with the pass rotated by one place.
pub proof fn lemma_step_takes_head_of_pass<T>(p: SessionState<T>)
    requires
        p.has_next(),
    ensures
        p.yielded() == Some(p.set.pass()[0]),
        p.advance().produced == p.produced + 1,
        p.advance().set.ordered == p.set.ordered,
        p.advance().set.pass() == rotate(p.set.pass(), 1),
{
}

/// While a session has not gone round, its steps follow the pass: the first
/// `k` of them yield the first `k` elements of the pass, in that order, and
/// leave the set with the pass rotated by `k` places.
pub proof fn lemma_steps_follow_pass<T>(p: SessionState<T>, k: nat)
    requires
        p.produced + k <= p.set.len(),
    ensures
        p.outputs(k) == all_some(p.set.pass().take(k as int)),
        p.advance_by(k).produced == p.produced + k,
        p.advance_by(k).set.ordered == p.set.ordered,
        p.advance_by(k).set.pass() == rotate(p.set.pass(), k as int),
    decreases k,
{
    if k > 0 {
        lemma_steps_follow_pass(p.advance(), (k - 1) as nat);
        assert(p.outputs(k) =~= all_some(p.set.pass().take(k as int)));
    }
}

/// A step of a session that has gone round signals exhaustion, resets the
/// count and leaves the pass of the set as it is.
pub proof fn lemma_step_after_round_is_exhausted<T>(p: SessionState<T>)
    requires
        !p.has_next(),
    ensures
        p.yielded() is None,
        p.advance().produced == 0,
        p.advance().set.ordered == p.set.ordered,
        p.advance().set.cursor == p.set.start(),
        p.advance().set.pass() == p.set.pass(),
{
}

/// The steps of a session can be taken in two runs: the outputs of `a + b`
/// steps are those of `a` steps followed by those of `b` steps from where
/// the first run stopped.
pub proof fn lemma_steps_compose<T>(p: SessionState<T>, a: nat, b: nat)
    ensures
        p.advance_by(a + b) == p.advance_by(a).advance_by(b),
        p.outputs(a + b) == p.outputs(a) + p.advance_by(a).outputs(b),
    decreases a,
{
    if a > 0 {
        lemma_steps_compose(p.advance(), (a - 1) as nat, b);
    }
}

/// After any step the cursor lies within the order and the count does not
/// exceed the number of held elements; the held elements are untouched.
pub proof fn lemma_step_keeps_bounds<T>(p: SessionState<T>)
    ensures
        p.advance().set.ordered == p.set.ordered,
        p.advance().set.cursor <= p.set.len(),
        p.advance().produced <= p.set.len(),
{
}

/// A new session on a set of `n` elements yields exactly the `n` elements of
/// the pass, in that order, and then signals exhaustion. The pass is a
/// rearrangement of the held elements, so where no element is held twice the
/// session yields every element once and none twice.
pub proof fn lemma_full_pass_yields_each_once<T>(set: SetState<T>)
    ensures
        SessionState::begin(set).outputs(set.len() + 1) == all_some(set.pass()).push(None),
        set.pass().len() == set.len(),
        set.pass().to_multiset() == set.ordered.to_multiset(),
        set.distinct() ==> set.pass().no_duplicates(),
{
    let p = SessionState::begin(set);
    let n = set.len();
    lemma_rotate_rearranges(set.ordered, set.start() as int);
    lemma_steps_follow_pass(p, n);
    lemma_steps_compose(p, n, 1);
    assert(p.advance_by(n).outputs(1) =~= seq![None]) by {
        lemma_step_after_round_is_exhausted(p.advance_by(n));
        assert(p.advance_by(n).advance().outputs(0) =~= Seq::empty());
    }
}

/// Inserting keeps the elements distinct, and afterwards the value is held.
pub proof fn lemma_insert_keeps_distinct<T>(set: SetState<T>, value: T)
    requires
        set.distinct(),
    ensures
        set.insert(value).distinct(),
        set.insert(value).contains(value),
        set.insert(value).members() == set.members().insert(value),
        set.insert(value).cursor == set.cursor,
{
    if !set.contains(value) {
        set.ordered.lemma_push_to_set_commute(value);
        assert(set.ordered.push(value)[set.ordered.len() as int] == value);
    }
}

/// Inserting values that are pairwise different into a new set holds them
/// in the order of insertion, with the cursor at the start.
pub proof fn lemma_insert_all_into_empty<T>(values: Seq<T>)
    requires
        values.no_duplicates(),
    ensures
        SetState::<T>::empty().insert_all(values).ordered == values,
        SetState::<T>::empty().insert_all(values).cursor == 0,
    decreases values.len(),
{
    if values.len() > 0 {
        lemma_insert_all_into_empty(values.drop_last());
    }
}

/// Values that are pairwise different, inserted into a new set and then
/// traversed to exhaustion, are yielded once each: the session yields a
/// rearrangement of the inserted values (in fact the values in the order of
/// insertion) and then signals exhaustion.
pub proof fn lemma_inserted_values_are_yielded_once<T>(values: Seq<T>)
    requires
        values.no_duplicates(),
    ensures
        ({
            let set = SetState::<T>::empty().insert_all(values);
            &&& SessionState::begin(set).outputs(values.len() + 1) == all_some(set.pass()).push(None)
            &&& set.pass().to_multiset() == values.to_multiset()
            &&& set.pass() == values
        }),
{
    let set = SetState::<T>::empty().insert_all(values);
    lemma_insert_all_into_empty(values);
    lemma_full_pass_yields_each_once(set);
}

/// Inserting a value that is not held appends it. Once inserted the value is
/// held, so that inserting it again reports it as not new and changes
/// nothing; every later pass yields it exactly once.
pub proof fn lemma_insert_is_idempotent<T>(set: SetState<T>, value: T)
    requires
        set.distinct(),
    ensures
        !set.contains(value) ==> set.insert(value).ordered == set.ordered.push(value),
        set.insert(value).contains(value),
        set.insert(value).insert(value) == set.insert(value),
        set.insert(value).distinct(),
        set.insert(value).pass().to_multiset().count(value) == 1,
{
    let held = set.insert(value);
    lemma_insert_keeps_distinct(set, value);
    lemma_full_pass_yields_each_once(held);
    held.ordered.lemma_multiset_has_no_duplicates();
    to_multiset_contains(held.ordered, value);
}

/// When a first session on `n` elements is abandoned after it has yielded `k`
/// of them, `k < n`, it has yielded the first `k` elements of the pass. The
/// pass of the next session is the remaining `n - k` elements in the same
/// order, followed by those `k`; the next session yields it whole and then
/// signals exhaustion. What the first session yielded, followed by the first
/// `n - k` elements that the second yields, is the original pass: every held
/// element once before any is repeated.
pub proof fn lemma_next_session_resumes<T>(set: SetState<T>, k: nat)
    requires
        k < set.len(),
    ensures
        ({
            let first = SessionState::begin(set);
            let left = first.advance_by(k).set;
            let n = set.len();
            &&& first.outputs(k) == all_some(set.pass().take(k as int))
            &&& left.ordered == set.ordered
            &&& left.pass() == set.pass().skip(k as int) + set.pass().take(k as int)
            &&& SessionState::begin(left).outputs(n + 1) == all_some(left.pass()).push(None)
            &&& set.pass().take(k as int) + left.pass().take(n - k) == set.pass()
            &&& set.pass().to_multiset() == set.ordered.to_multiset()
            &&& set.distinct() ==> set.pass().no_duplicates()
        }),
{
    let first = SessionState::begin(set);
    lemma_steps_follow_pass(first, k);
    lemma_full_pass_yields_each_once(set);
    lemma_full_pass_yields_each_once(first.advance_by(k).set);
}

/// Removing a held value from a set without duplicates leaves one element
/// fewer.
pub proof fn lemma_removal_shrinks_by_one<T>(set: SetState<T>, value: T, after: SetState<T>)
    requires
        set.distinct(),
        set.contains(value),
        set.removes(value, after),
    ensures
        after.len() + 1 == set.len(),
        !after.contains(value),
{
    set.ordered.unique_seq_to_set();
    after.ordered.unique_seq_to_set();
}

/// When a removal leaves fewer elements than the cursor counts, the next
/// session starts over at position zero and yields exactly the elements that
/// are left, in their order, and then signals exhaustion.
pub proof fn lemma_cursor_past_end_restarts<T>(set: SetState<T>, value: T, after: SetState<T>)
    requires
        set.distinct(),
        set.contains(value),
        set.removes(value, after),
        after.len() < set.cursor,
    ensures
        after.len() + 1 == set.len(),
        after.start() == 0,
        after.pass() == after.ordered,
        after.distinct(),
        after.members() == set.members().remove(value),
        SessionState::begin(after).outputs(after.len() + 1) == all_some(after.ordered).push(None),
{
    lemma_removal_shrinks_by_one(set, value, after);
    lemma_full_pass_yields_each_once(after);
}

/// The first step of a session on a set that holds nothing signals
/// exhaustion, whatever the cursor was, and leaves the cursor at zero.
pub proof fn lemma_empty_set_is_exhausted<T>(set: SetState<T>)
    requires
        set.len() == 0,
    ensures
        SessionState::begin(set).yielded() is None,
        SessionState::begin(set).outputs(1) == seq![None::<T>],
        SessionState::begin(set).advance().set.cursor == 0,
        SessionState::begin(set).advance().produced == 0,
{
    let p = SessionState::begin(set);
    assert(p.advance().outputs(0) =~= Seq::empty());
}

} // verus!
