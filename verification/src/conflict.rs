//! When two operations conflict.

use vstd::prelude::*;
use crate::op::{Op, OpKind, SpecOp};

verus! {

/// Were the two operations issued by different transactions?
pub open spec fn different_transactions(a: SpecOp, b: SpecOp) -> bool {
    a.tx != b.tx
}

/// Do the two operations touch a data item, and the same one?
pub open spec fn same_item(a: SpecOp, b: SpecOp) -> bool {
    a.item() is Some && a.item() == b.item()
}

/// Is at least one of the two operations a write?
pub open spec fn one_writes(a: SpecOp, b: SpecOp) -> bool {
    a.kind is Write || b.kind is Write
}

/// Two operations conflict when different transactions issued them, both
/// touch the same data item, and at least one of them writes it.
pub open spec fn conflicts(a: SpecOp, b: SpecOp) -> bool {
    different_transactions(a, b) && same_item(a, b) && one_writes(a, b)
}

/// A conflict does not depend on the order in which the two operations are
/// given.
pub proof fn lemma_conflicts_symmetric(a: SpecOp, b: SpecOp)
    ensures
        conflicts(a, b) == conflicts(b, a),
{
}

/// Two operations of one transaction never conflict.
pub proof fn lemma_same_transaction_never_conflicts(a: SpecOp, b: SpecOp)
    requires
        a.tx == b.tx,
    ensures
        !conflicts(a, b),
{
}

/// Two reads never conflict, whatever they read and whoever issued them.
pub proof fn lemma_reads_never_conflict(a: SpecOp, b: SpecOp)
    requires
        a.kind is Read,
        b.kind is Read,
    ensures
        !conflicts(a, b),
{
}

/// Two accesses to one data item from different transactions conflict as soon
/// as one of them is a write.
pub proof fn lemma_write_on_shared_item_conflicts(a: SpecOp, b: SpecOp)
    requires
        a.tx != b.tx,
        a.item() is Some,
        a.item() == b.item(),
        a.kind is Write || b.kind is Write,
    ensures
        conflicts(a, b),
{
}

/// A commit or an abort conflicts with nothing, on either side.
pub proof fn lemma_commit_and_abort_never_conflict(a: SpecOp, b: SpecOp)
    requires
        b.kind is Commit || b.kind is Abort,
    ensures
        !conflicts(a, b),
        !conflicts(b, a),
{
}

/// Two operations of one schedule, the one at the earlier position first.
#[derive(Debug, Clone, Copy)]
pub struct OpPair(pub (Op, Op));

impl View for OpPair {
    type V = (SpecOp, SpecOp);

    open spec fn view(&self) -> (SpecOp, SpecOp) {
        (self.0.0@, self.0.1@)
    }
}

impl PartialEq for OpPair {
    fn eq(&self, other: &OpPair) -> (same: bool) {
        self.0.0 == other.0.0 && self.0.1 == other.0.1
    }
}

impl vstd::std_specs::cmp::PartialEqSpecImpl for OpPair {
    open spec fn obeys_eq_spec() -> bool {
        true
    }

    open spec fn eq_spec(&self, other: &OpPair) -> bool {
        self@ == other@
    }
}

/// The values of a sequence of pairs.
pub open spec fn pairs_view(pairs: Seq<OpPair>) -> Seq<(SpecOp, SpecOp)> {
    pairs.map_values(|p: OpPair| p@)
}

impl OpPair {
    /// Do the two operations conflict?
    pub fn is_conflicting(&self) -> (conflicting: bool)
        ensures
            conflicting == conflicts(self@.0, self@.1),
    {
        self.are_different_transactions() && self.on_same_data() && self.one_is_a_write()
    }

    /// Were the two operations issued by different transactions?
    pub fn are_different_transactions(&self) -> (different: bool)
        ensures
            different == different_transactions(self@.0, self@.1),
    {
        self.0.0.tx != self.0.1.tx
    }

    /// Do the two operations touch a data item, and the same one?
    pub fn on_same_data(&self) -> (same: bool)
        ensures
            same == same_item(self@.0, self@.1),
    {
        let d1 = match self.0.0.kind {
            OpKind::Read(d) | OpKind::Write(d) => d,
            _ => return false,
        };
        let d2 = match self.0.1.kind {
            OpKind::Read(d) | OpKind::Write(d) => d,
            _ => return false,
        };
        d1 == d2
    }

    /// Is at least one of the two operations a write?
    pub fn one_is_a_write(&self) -> (writes: bool)
        ensures
            writes == one_writes(self@.0, self@.1),
    {
        match (self.0.0.kind, self.0.1.kind) {
            (OpKind::Write(_), _) => true,
            (_, OpKind::Write(_)) => true,
            _ => false,
        }
    }
}

} // verus!
