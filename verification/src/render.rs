//! Operations, transactions, schedules and pairs as text.

use vstd::prelude::*;
use crate::conflict::{pairs_view, OpPair};
use crate::grouping::{grouped, transactions_view, SpecTransaction, Transaction};
use crate::op::{ops_view, Op, OpKind, SpecOp, SpecOpKind};
use crate::pairs::{all_pairs, pair_count};
use crate::schedule::{conflicting, Schedule};

verus! {

/// The texts of `parts`, one after the other, with `sep` between each two.
pub open spec fn join(parts: Seq<Seq<char>>, sep: Seq<char>) -> Seq<char>
    decreases parts.len(),
{
    if parts.len() == 0 {
        Seq::empty()
    } else if parts.len() == 1 {
        parts[0]
    } else {
        join(parts.drop_last(), sep) + sep + parts.last()
    }
}

/// An operation as text: `R_1(a)`, `W_1(a)`, `C_1` or `A_1` for a read, a
/// write, a commit or an abort of transaction `1`, on item `a`.
pub open spec fn render_op(op: SpecOp) -> Seq<char> {
    match op.kind {
        SpecOpKind::Read(item) => "R_"@ + op.tx + "("@ + item + ")"@,
        SpecOpKind::Write(item) => "W_"@ + op.tx + "("@ + item + ")"@,
        SpecOpKind::Commit => "C_"@ + op.tx,
        SpecOpKind::Abort => "A_"@ + op.tx,
    }
}

/// A sequence of operations as text: `[R_1(a), C_1]`.
pub open spec fn render_ops(ops: Seq<SpecOp>) -> Seq<char> {
    "["@ + join(ops.map_values(|op: SpecOp| render_op(op)), ", "@) + "]"@
}

/// A transaction as text: `Transaction '1': [R_1(a), C_1]`.
pub open spec fn render_transaction(t: SpecTransaction) -> Seq<char> {
    "Transaction '"@ + t.id + "': "@ + render_ops(t.ops)
}

/// A pair of operations as text: `(R_1(a), W_2(a))`.
pub open spec fn render_pair(pair: (SpecOp, SpecOp)) -> Seq<char> {
    "("@ + render_op(pair.0) + ", "@ + render_op(pair.1) + ")"@
}

/// A sequence of pairs as text: `[(R_1(a), W_2(a))]`.
pub open spec fn render_pairs(pairs: Seq<(SpecOp, SpecOp)>) -> Seq<char> {
    "["@ + join(pairs.map_values(|pair: (SpecOp, SpecOp)| render_pair(pair)), ", "@) + "]"@
}

/// The lines of a report that show the transactions: one line each, behind a
/// tab.
pub open spec fn render_transaction_lines(ts: Seq<SpecTransaction>) -> Seq<char>
    decreases ts.len(),
{
    if ts.len() == 0 {
        Seq::empty()
    } else {
        render_transaction_lines(ts.drop_last()) + "\t"@ + render_transaction(ts.last()) + "\n"@
    }
}

/// The report on a schedule: the schedule, its transactions and its
/// conflicting pairs, under a heading each.
pub open spec fn render_report(s: Seq<SpecOp>) -> Seq<char> {
    "Schedule:\n\t"@ + render_ops(s) + "\n\nTransactions:\n"@ + render_transaction_lines(
        grouped(s),
    ) + "\nConflicting Pairs:\n\t"@ + render_pairs(conflicting(all_pairs(s))) + "\n"@
}

/// The views of a sequence of strings.
pub open spec fn texts(parts: Seq<String>) -> Seq<Seq<char>> {
    parts.map_values(|part: String| part@)
}

/// Joins the parts, with `sep` between each two.
pub fn join_parts(parts: &Vec<String>, sep: &str) -> (text: String)
    ensures
        text@ == join(texts(parts@), sep@),
{
    let mut text = String::new();
    let n: usize = parts.len();
    let mut k: usize = 0;
    while k < n
        invariant
            k <= n,
            n == parts@.len(),
            text@ == join(texts(parts@).take(k as int), sep@),
        decreases n - k,
    {
        if k > 0 {
            text.append(sep);
        }
        text.append(parts[k].as_str());
        proof {
            let upto = texts(parts@).take(k + 1);
            assert(upto.drop_last() =~= texts(parts@).take(k as int));
        }
        k += 1;
    }
    assert(texts(parts@).take(n as int) =~= texts(parts@));
    text
}

/// The operations as texts, each by itself.
fn op_texts(ops: &Vec<Op>) -> (parts: Vec<String>)
    ensures
        texts(parts@) == ops_view(ops@).map_values(|op: SpecOp| render_op(op)),
{
    let mut parts: Vec<String> = Vec::new();
    let n: usize = ops.len();
    let mut k: usize = 0;
    while k < n
        invariant
            k <= n,
            n == ops@.len(),
            parts@.len() == k,
            forall|i: int| 0 <= i < k ==> (#[trigger] parts@[i])@ == render_op(ops@[i]@),
        decreases n - k,
    {
        parts.push(ops[k].to_string());
        k += 1;
    }
    parts
}

/// The operations as one text, in square brackets.
fn ops_text(ops: &Vec<Op>) -> (text: String)
    ensures
        text@ == render_ops(ops_view(ops@)),
{
    let parts = op_texts(ops);
    let mut text = String::new();
    text.append("[");
    text.append(join_parts(&parts, ", ").as_str());
    text.append("]");
    text
}

impl Op {
    /// The operation as text.
    pub fn to_string(&self) -> (text: String)
        ensures
            text@ == render_op(self@),
    {
        let mut text = String::new();
        match self.kind {
            OpKind::Read(item) => {
                text.append("R_");
                text.append(self.tx.0);
                text.append("(");
                text.append(item.0);
                text.append(")");
            },
            OpKind::Write(item) => {
                text.append("W_");
                text.append(self.tx.0);
                text.append("(");
                text.append(item.0);
                text.append(")");
            },
            OpKind::Commit => {
                text.append("C_");
                text.append(self.tx.0);
            },
            OpKind::Abort => {
                text.append("A_");
                text.append(self.tx.0);
            },
        }
        text
    }
}

impl Transaction {
    /// The transaction as text.
    pub fn to_string(&self) -> (text: String)
        ensures
            text@ == render_transaction(self@),
    {
        let mut text = String::new();
        text.append("Transaction '");
        text.append(self.id.0);
        text.append("': ");
        text.append(ops_text(&self.ops).as_str());
        text
    }
}

/// A list of pairs, to be shown as text.
#[derive(Debug)]
pub struct OpPairView<'v>(pub &'v [OpPair]);

/// Lists of pairs that can be shown as text.
pub trait DisplayOpPairs {
    /// The pairs that `shown` shows.
    spec fn shown_pairs(&self) -> Seq<(SpecOp, SpecOp)>;

    /// The list, ready to be shown.
    fn display(&self) -> (shown: OpPairView<'_>)
        ensures
            pairs_view(shown.0@) == self.shown_pairs(),
    ;
}

impl DisplayOpPairs for [OpPair] {
    open spec fn shown_pairs(&self) -> Seq<(SpecOp, SpecOp)> {
        pairs_view(self@)
    }

    fn display(&self) -> (shown: OpPairView<'_>) {
        OpPairView(self)
    }
}

impl<'v> OpPairView<'v> {
    /// The list of pairs as text.
    pub fn to_string(&self) -> (text: String)
        ensures
            text@ == render_pairs(pairs_view(self.0@)),
    {
        let pairs = self.0;
        let mut parts: Vec<String> = Vec::new();
        let n: usize = pairs.len();
        let mut k: usize = 0;
        while k < n
            invariant
                k <= n,
                n == pairs@.len(),
                parts@.len() == k,
                forall|i: int| 0 <= i < k ==> (#[trigger] parts@[i])@ == render_pair(pairs@[i]@),
            decreases n - k,
        {
            let pair = pairs[k];
            let mut part = String::new();
            part.append("(");
            part.append(pair.0.0.to_string().as_str());
            part.append(", ");
            part.append(pair.0.1.to_string().as_str());
            part.append(")");
            parts.push(part);
            k += 1;
        }
        assert(texts(parts@) =~= pairs_view(pairs@).map_values(
            |pair: (SpecOp, SpecOp)| render_pair(pair),
        ));
        let mut text = String::new();
        text.append("[");
        text.append(join_parts(&parts, ", ").as_str());
        text.append("]");
        text
    }
}

/// The report on a schedule: the schedule itself, its transactions, one to a
/// line, and its conflicting pairs, each part under its heading.
///
/// The pairs of positions must be no more than a `usize` can count.
pub fn schedule_report(schedule: &Schedule) -> (report: String)
    requires
        pair_count(schedule@.len()) <= usize::MAX,
    ensures
        report@ == render_report(schedule@),
{
    let mut report = String::new();
    report.append("Schedule:\n\t");
    report.append(schedule.to_string().as_str());
    report.append("\n\nTransactions:\n");
    let ts = schedule.transactions();
    let ghost head = report@;
    let n: usize = ts.len();
    let mut k: usize = 0;
    while k < n
        invariant
            k <= n,
            n == ts@.len(),
            report@ == head + render_transaction_lines(transactions_view(ts@).take(k as int)),
        decreases n - k,
    {
        report.append("\t");
        report.append(ts[k].to_string().as_str());
        report.append("\n");
        proof {
            let upto = transactions_view(ts@).take(k + 1);
            assert(upto.drop_last() =~= transactions_view(ts@).take(k as int));
        }
        k += 1;
    }
    assert(transactions_view(ts@).take(n as int) =~= transactions_view(ts@));
    report.append("\nConflicting Pairs:\n\t");
    let pairs = schedule.conflicting_pairs();
    report.append(pairs.as_slice().display().to_string().as_str());
    report.append("\n");
    report
}

impl Schedule {
    /// The schedule as text.
    pub fn to_string(&self) -> (text: String)
        ensures
            text@ == render_ops(self@),
    {
        ops_text(self.ops())
    }
}

} // verus!
