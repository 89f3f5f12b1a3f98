//! Schedules, and the two questions asked of them.

use vstd::prelude::*;
use vstd::slice::slice_to_vec;
use crate::conflict::{conflicts, pairs_view, OpPair};
use crate::grouping::{
    concat_ops, grouped, groups_schedule, lemma_grouped, lemma_grouping_extends_group,
    lemma_grouping_keeps_operations, lemma_grouping_opens_group, transactions_view,
    SpecTransaction, Transaction,
};
use crate::ident::{lemma_name_before_total, lemma_name_before_transitive, name_before};
use crate::op::{ops_view, Op, SpecOp};
use crate::pairs::{all_pairs, pair_count, position_pairs};

verus! {

/// An ordered log of operations, as the caller gave it.
#[derive(Debug)]
pub struct Schedule {
    ops: Vec<Op>,
}

impl View for Schedule {
    type V = Seq<SpecOp>;

    closed spec fn view(&self) -> Seq<SpecOp> {
        ops_view(self.ops@)
    }
}

/// The pairs among `pairs` that conflict, in the order of `pairs`.
pub open spec fn conflicting(pairs: Seq<(SpecOp, SpecOp)>) -> Seq<(SpecOp, SpecOp)> {
    pairs.filter(|p: (SpecOp, SpecOp)| conflicts(p.0, p.1))
}

/// Files one more operation of a schedule under its transaction.
fn file_op(ts: &mut Vec<Transaction>, op: Op, Ghost(s): Ghost<Seq<SpecOp>>)
    requires
        groups_schedule(transactions_view(old(ts)@), s),
    ensures
        groups_schedule(transactions_view(final(ts)@), s.push(op@)),
{
    let ghost before = transactions_view(ts@);
    let mut p: usize = 0;
    while p < ts.len() && ts[p].id < op.tx
        invariant
            p <= ts@.len(),
            before == transactions_view(ts@),
            forall|i: int| 0 <= i < p ==> name_before((#[trigger] before[i]).id, op.tx@),
        decreases ts@.len() - p,
    {
        p += 1;
    }
    if p < ts.len() && ts[p].id == op.tx {
        let ghost old_ts = ts@;
        ts[p].ops.push(op);
        proof {
            lemma_grouping_extends_group(before, s, op@, p as int);
            let grown = old_ts[p as int].ops@;
            assert(ops_view(grown.push(op)) =~= ops_view(grown).push(op@));
            assert(transactions_view(ts@) =~= before.update(
                p as int,
                SpecTransaction { id: op@.tx, ops: before[p as int].ops.push(op@) },
            ));
        }
    } else {
        proof {
            assert forall|i: int| p <= i < before.len() implies name_before(
                op.tx@,
                (#[trigger] before[i]).id,
            ) by {
                lemma_name_before_total(op.tx@, before[p as int].id);
                if i > p {
                    lemma_name_before_transitive(op.tx@, before[p as int].id, before[i].id);
                }
            }
            lemma_grouping_opens_group(before, s, op@, p as int);
        }
        let mut ops: Vec<Op> = Vec::new();
        ops.push(op);
        ts.insert(p, Transaction { id: op.tx, ops });
        proof {
            assert(ops_view(seq![op]) =~= seq![op@]);
            assert(transactions_view(ts@) =~= before.insert(
                p as int,
                SpecTransaction { id: op@.tx, ops: seq![op@] },
            ));
        }
    }
}

impl Schedule {
    /// The schedule that holds the given operations, in the given order.
    pub fn new(ops: &[Op]) -> (schedule: Schedule)
        ensures
            schedule@ == ops_view(ops@),
    {
        Schedule { ops: slice_to_vec(ops) }
    }

    /// The operations of the schedule, in order.
    pub fn ops(&self) -> (ops: &Vec<Op>)
        ensures
            ops_view(ops@) == self@,
    {
        &self.ops
    }

    /// The number of pairs of positions that `conflicting_pairs` looks at, or
    /// `None` where a `usize` cannot hold it.
    pub fn pair_count(&self) -> (count: Option<usize>)
        ensures
            match count {
                Some(c) => c == pair_count(self@.len()),
                None => pair_count(self@.len()) > usize::MAX,
            },
    {
        let n: usize = self.ops.len();
        if n == 0 {
            return Some(0);
        }
        let (even, other): (usize, usize) = if n % 2 == 0 {
            (n / 2, n - 1)
        } else {
            ((n - 1) / 2, n)
        };
        proof {
            let m = n as int;
            assert(even * other == m * (m - 1) / 2) by (nonlinear_arith)
                requires
                    m > 0,
                    (m % 2 == 0 && even == m / 2 && other == m - 1) || (m % 2 == 1 && even == (m
                        - 1) / 2 && other == m),
            ;
        }
        even.checked_mul(other)
    }

    /// The pairs of operations that conflict. Every pair of two positions of
    /// the schedule is looked at once, the earlier position first, in the
    /// order of a scan; the pairs that conflict are kept in that order.
    ///
    /// The pairs of positions must be no more than a `usize` can count:
    /// `pair_count` tells.
    pub fn conflicting_pairs(&self) -> (pairs: Vec<OpPair>)
        requires
            pair_count(self@.len()) <= usize::MAX,
        ensures
            pairs_view(pairs@) == conflicting(all_pairs(self@)),
    {
        let all = position_pairs(&self.ops);
        let ghost every = pairs_view(all@);
        let ghost keep = |p: (SpecOp, SpecOp)| conflicts(p.0, p.1);
        let mut pairs: Vec<OpPair> = Vec::new();
        let n: usize = all.len();
        let mut k: usize = 0;
        assert(pairs_view(pairs@) =~= every.take(0).filter(keep)) by {
            every.take(0).lemma_filter_len(keep);
        }
        while k < n
            invariant
                k <= n,
                n == all@.len(),
                every == pairs_view(all@),
                keep == |p: (SpecOp, SpecOp)| conflicts(p.0, p.1),
                pairs_view(pairs@) == every.take(k as int).filter(keep),
            decreases n - k,
        {
            let pair = all[k];
            proof {
                every.take(k as int).lemma_filter_push(pair@, keep);
                assert(every.take(k as int).push(pair@) =~= every.take(k + 1));
            }
            if pair.is_conflicting() {
                pairs.push(pair);
            }
            k += 1;
        }
        assert(every.take(n as int) =~= every);
        pairs
    }

    /// The transactions of the schedule, in ascending order of their names,
    /// each with its operations in the order of the schedule. Together the
    /// groups hold every operation of the schedule as often as the schedule
    /// does.
    pub fn transactions(&self) -> (ts: Vec<Transaction>)
        ensures
            transactions_view(ts@) == grouped(self@),
            groups_schedule(transactions_view(ts@), self@),
            concat_ops(transactions_view(ts@)).to_multiset() == self@.to_multiset(),
    {
        let mut ts: Vec<Transaction> = Vec::new();
        let n: usize = self.ops.len();
        let mut k: usize = 0;
        while k < n
            invariant
                k <= n,
                n == self.ops@.len(),
                groups_schedule(transactions_view(ts@), self@.take(k as int)),
            decreases n - k,
        {
            let op = self.ops[k];
            file_op(&mut ts, op, Ghost(self@.take(k as int)));
            assert(self@.take(k as int).push(op@) =~= self@.take(k + 1));
            k += 1;
        }
        proof {
            assert(self@.take(n as int) =~= self@);
            lemma_grouped(self@);
            lemma_grouping_keeps_operations(transactions_view(ts@), self@);
        }
        ts
    }
}

} // verus!
