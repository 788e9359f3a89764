//! General properties of the list, stated and proved over its abstract model.
//!
//! Every `List` method describes its effect on the abstract value `self@`, a
//! `Seq<Seq<char>>`.  The laws here speak of that model: an operation is one
//! step on it, a run of operations is a fold of steps, and the properties are
//! proved for every starting value and every run.

use vstd::prelude::*;

use crate::list::back_of;
use crate::list::front_of;

verus! {

/// One list operation, named by the `List` method it stands for and carrying
/// the inserted value where the method takes one.
pub enum Op {
    InsertFront(Seq<char>),
    InsertBack(Seq<char>),
    DeleteFront,
    DeleteBack,
}

/// Whether `op` is an insertion.
pub open spec fn is_insert(op: Op) -> bool {
    match op {
        Op::InsertFront(_) => true,
        Op::InsertBack(_) => true,
        Op::DeleteFront => false,
        Op::DeleteBack => false,
    }
}

/// The effect of one operation on the abstract value: exactly what the
/// contract of the corresponding `List` method states of `self@`.
pub open spec fn apply_op(s: Seq<Seq<char>>, op: Op) -> Seq<Seq<char>> {
    match op {
        Op::InsertFront(v) => seq![v] + s,
        Op::InsertBack(v) => s.push(v),
        Op::DeleteFront => if s.len() == 0 {
            s
        } else {
            s.drop_first()
        },
        Op::DeleteBack => if s.len() == 0 {
            s
        } else {
            s.drop_last()
        },
    }
}

/// The abstract value after running `ops` in order, starting from `s`.
pub open spec fn apply_ops(s: Seq<Seq<char>>, ops: Seq<Op>) -> Seq<Seq<char>>
    decreases ops.len(),
{
    if ops.len() == 0 {
        s
    } else {
        apply_ops(apply_op(s, ops[0]), ops.drop_first())
    }
}

/// The number of insertions among `ops`.
pub open spec fn insert_count(ops: Seq<Op>) -> nat
    decreases ops.len(),
{
    if ops.len() == 0 {
        0
    } else {
        (if is_insert(ops[0]) {
            1nat
        } else {
            0nat
        }) + insert_count(ops.drop_first())
    }
}

/// The number of successful deletions when `ops` runs from `s`: a deletion
/// succeeds exactly when the list is non-empty at the moment it runs.
pub open spec fn removal_count(s: Seq<Seq<char>>, ops: Seq<Op>) -> nat
    decreases ops.len(),
{
    if ops.len() == 0 {
        0
    } else {
        (if !is_insert(ops[0]) && s.len() > 0 {
            1nat
        } else {
            0nat
        }) + removal_count(apply_op(s, ops[0]), ops.drop_first())
    }
}

/// For every starting value and every run of operations, the final size plus
/// the number of successful deletions equals the starting size plus the
/// number of insertions: the size is the number of insertions minus the
/// number of successful deletions.
pub proof fn lemma_size_counts_operations(s: Seq<Seq<char>>, ops: Seq<Op>)
    ensures
        apply_ops(s, ops).len() + removal_count(s, ops) == s.len() + insert_count(ops),
    decreases ops.len(),
{
    if ops.len() > 0 {
        lemma_size_counts_operations(apply_op(s, ops[0]), ops.drop_first());
    }
}

/// A front deletion followed by `front` reflects the new head: on a non-empty
/// list, after dropping the first value the front is the former second value,
/// or absent when only one value was there.
pub proof fn lemma_front_after_delete_front(s: Seq<Seq<char>>)
    requires
        s.len() > 0,
    ensures
        front_of(s.drop_first()) == (if s.len() == 1 {
            None::<Seq<char>>
        } else {
            Some(s[1])
        }),
{
}

/// On a one-element list, deleting at the back does exactly what deleting at
/// the front does: the same value comes back and the same empty list remains.
pub proof fn lemma_delete_back_singleton(s: Seq<Seq<char>>)
    requires
        s.len() == 1,
    ensures
        back_of(s) == front_of(s),
        s.drop_last() == s.drop_first(),
        s.drop_last().len() == 0,
{
    assert(s.drop_last() =~= s.drop_first());
}

} // verus!
