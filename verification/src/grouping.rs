//! Grouping a schedule by transaction.

use vstd::multiset::Multiset;
use vstd::prelude::*;
use vstd::seq_lib::{lemma_multiset_commutative, to_multiset_build, to_multiset_contains};
use crate::ident::{
    ascending, lemma_ascending_names_unique, lemma_name_before_irreflexive,
    lemma_name_before_total, lemma_name_before_transitive, name_before, TxId,
};
use crate::op::{ops_view, Op, SpecOp};

verus! {

/// A transaction as a mathematical value: its name and its operations.
pub struct SpecTransaction {
    pub id: Seq<char>,
    pub ops: Seq<SpecOp>,
}

/// The operations that one transaction issued, in the order of the schedule.
#[derive(Debug)]
pub struct Transaction {
    pub id: TxId,
    pub ops: Vec<Op>,
}

impl View for Transaction {
    type V = SpecTransaction;

    open spec fn view(&self) -> SpecTransaction {
        SpecTransaction { id: self.id@, ops: ops_view(self.ops@) }
    }
}

/// The values of a sequence of transactions.
pub open spec fn transactions_view(ts: Seq<Transaction>) -> Seq<SpecTransaction> {
    ts.map_values(|t: Transaction| t@)
}

/// The operations of schedule `s` that transaction `id` issued, in the order
/// of the schedule.
pub open spec fn ops_of(s: Seq<SpecOp>, id: Seq<char>) -> Seq<SpecOp> {
    s.filter(|o: SpecOp| o.tx == id)
}

/// Does `ts` hold a group for the transaction `id`?
pub open spec fn has_group(ts: Seq<SpecTransaction>, id: Seq<char>) -> bool {
    exists|i: int| 0 <= i < ts.len() && (#[trigger] ts[i]).id == id
}

/// `ts` is schedule `s` grouped by transaction: one group for each
/// transaction that occurs in `s`, in ascending order of the names, and in
/// each group the operations of that transaction in the order of `s`.
pub open spec fn groups_schedule(ts: Seq<SpecTransaction>, s: Seq<SpecOp>) -> bool {
    &&& forall|i: int, j: int|
        0 <= i < j < ts.len() ==> name_before(#[trigger] ts[i].id, #[trigger] ts[j].id)
    &&& forall|i: int|
        0 <= i < ts.len() ==> (#[trigger] ts[i]).ops.len() > 0 && ts[i].ops == ops_of(
            s,
            ts[i].id,
        )
    &&& forall|k: int| 0 <= k < s.len() ==> has_group(ts, (#[trigger] s[k]).tx)
}

/// The operations of all the groups, one group after the other.
pub open spec fn concat_ops(ts: Seq<SpecTransaction>) -> Seq<SpecOp>
    decreases ts.len(),
{
    if ts.len() == 0 {
        Seq::empty()
    } else {
        concat_ops(ts.drop_last()) + ts.last().ops
    }
}

/// In a grouping, two different groups have different names.
pub proof fn lemma_group_names_differ(ts: Seq<SpecTransaction>, s: Seq<SpecOp>, i: int, j: int)
    requires
        groups_schedule(ts, s),
        0 <= i < ts.len(),
        0 <= j < ts.len(),
        i != j,
    ensures
        ts[i].id != ts[j].id,
{
    lemma_name_before_irreflexive(ts[i].id);
}

/// Appending an operation to a schedule appends it to the group of its
/// transaction, where the grouping has one, and leaves the other groups as
/// they are.
pub proof fn lemma_grouping_extends_group(
    ts: Seq<SpecTransaction>,
    s: Seq<SpecOp>,
    op: SpecOp,
    p: int,
)
    requires
        groups_schedule(ts, s),
        0 <= p < ts.len(),
        ts[p].id == op.tx,
    ensures
        groups_schedule(
            ts.update(p, SpecTransaction { id: op.tx, ops: ts[p].ops.push(op) }),
            s.push(op),
        ),
{
    let grown = SpecTransaction { id: op.tx, ops: ts[p].ops.push(op) };
    let ts2 = ts.update(p, grown);
    let s2 = s.push(op);
    assert forall|i: int| 0 <= i < ts2.len() implies (#[trigger] ts2[i]).ops.len() > 0
        && ts2[i].ops == ops_of(s2, ts2[i].id) by {
        let id = ts[i].id;
        s.lemma_filter_push(op, |o: SpecOp| o.tx == id);
        if i != p {
            lemma_group_names_differ(ts, s, i, p);
        }
    }
    assert forall|k: int| 0 <= k < s2.len() implies has_group(ts2, (#[trigger] s2[k]).tx) by {
        if k < s.len() {
            let i = choose|i: int| 0 <= i < ts.len() && (#[trigger] ts[i]).id == s[k].tx;
            assert(ts2[i].id == s2[k].tx);
        } else {
            assert(ts2[p].id == s2[k].tx);
        }
    }
}

/// Appending the first operation of a transaction to a schedule opens a group
/// for it, at the place that the order of the names gives it, and leaves the
/// other groups as they are.
pub proof fn lemma_grouping_opens_group(
    ts: Seq<SpecTransaction>,
    s: Seq<SpecOp>,
    op: SpecOp,
    p: int,
)
    requires
        groups_schedule(ts, s),
        0 <= p <= ts.len(),
        forall|i: int| 0 <= i < p ==> name_before((#[trigger] ts[i]).id, op.tx),
        forall|i: int| p <= i < ts.len() ==> name_before(op.tx, (#[trigger] ts[i]).id),
    ensures
        groups_schedule(ts.insert(p, SpecTransaction { id: op.tx, ops: seq![op] }), s.push(op)),
{
    let opened = SpecTransaction { id: op.tx, ops: seq![op] };
    let ts2 = ts.insert(p, opened);
    let s2 = s.push(op);
    lemma_name_before_irreflexive(op.tx);
    assert forall|i: int, j: int| 0 <= i < j < ts2.len() implies name_before(
        #[trigger] ts2[i].id,
        #[trigger] ts2[j].id,
    ) by {
        if i < p && p < j {
            lemma_name_before_transitive(ts[i].id, op.tx, ts[j - 1].id);
        }
    }
    let issued = |o: SpecOp| o.tx == op.tx;
    assert(s.filter(issued).len() == 0) by {
        assert forall|k: int| 0 <= k < s.len() implies !issued(#[trigger] s[k]) by {
            assert(has_group(ts, s[k].tx));
        }
        s.lemma_all_neg_filter_empty(issued);
    }
    assert forall|i: int| 0 <= i < ts2.len() implies (#[trigger] ts2[i]).ops.len() > 0
        && ts2[i].ops == ops_of(s2, ts2[i].id) by {
        let id = ts2[i].id;
        s.lemma_filter_push(op, |o: SpecOp| o.tx == id);
    }
    assert forall|k: int| 0 <= k < s2.len() implies has_group(ts2, (#[trigger] s2[k]).tx) by {
        if k < s.len() {
            let i = choose|i: int| 0 <= i < ts.len() && (#[trigger] ts[i]).id == s[k].tx;
            if i < p {
                assert(ts2[i].id == s2[k].tx);
            } else {
                assert(ts2[i + 1] == ts[i]);
            }
        } else {
            assert(ts2[p].id == s2[k].tx);
        }
    }
}

/// The transaction of every group of a grouping occurs in the schedule.
proof fn lemma_group_occurs(ts: Seq<SpecTransaction>, s: Seq<SpecOp>, i: int)
    requires
        groups_schedule(ts, s),
        0 <= i < ts.len(),
    ensures
        exists|k: int| 0 <= k < s.len() && (#[trigger] s[k]).tx == ts[i].id,
{
    let id = ts[i].id;
    let issued = |o: SpecOp| o.tx == id;
    let first = ts[i].ops[0];
    s.lemma_filter_pred(issued, 0);
    s.lemma_filter_contains_rev(issued, first);
    assert(s.contains(first));
}

/// A schedule has one grouping only.
pub proof fn lemma_grouping_unique(
    a: Seq<SpecTransaction>,
    b: Seq<SpecTransaction>,
    s: Seq<SpecOp>,
)
    requires
        groups_schedule(a, s),
        groups_schedule(b, s),
    ensures
        a == b,
{
    let names = |t: SpecTransaction| t.id;
    let x = a.map_values(names);
    let y = b.map_values(names);
    assert(ascending(x));
    assert(ascending(y));
    assert forall|i: int| 0 <= i < x.len() implies y.contains(#[trigger] x[i]) by {
        lemma_group_occurs(a, s, i);
        let k = choose|k: int| 0 <= k < s.len() && (#[trigger] s[k]).tx == a[i].id;
        let j = choose|j: int| 0 <= j < b.len() && (#[trigger] b[j]).id == s[k].tx;
        assert(y[j] == x[i]);
    }
    assert forall|j: int| 0 <= j < y.len() implies x.contains(#[trigger] y[j]) by {
        lemma_group_occurs(b, s, j);
        let k = choose|k: int| 0 <= k < s.len() && (#[trigger] s[k]).tx == b[j].id;
        let i = choose|i: int| 0 <= i < a.len() && (#[trigger] a[i]).id == s[k].tx;
        assert(x[i] == y[j]);
    }
    lemma_ascending_names_unique(x, y);
    assert forall|i: int| 0 <= i < a.len() implies a[i] == b[i] by {
        assert(x[i] == y[i]);
    }
}

/// Where a new name belongs among ascending groups: after all the names that
/// come before it, and before all the others. The search starts at `from`,
/// below which every name comes before the new one.
proof fn lemma_place_for_name(
    ts: Seq<SpecTransaction>,
    s: Seq<SpecOp>,
    id: Seq<char>,
    from: int,
) -> (p: int)
    requires
        groups_schedule(ts, s),
        !has_group(ts, id),
        0 <= from <= ts.len(),
        forall|i: int| 0 <= i < from ==> name_before((#[trigger] ts[i]).id, id),
    ensures
        0 <= p <= ts.len(),
        forall|i: int| 0 <= i < p ==> name_before((#[trigger] ts[i]).id, id),
        forall|i: int| p <= i < ts.len() ==> name_before(id, (#[trigger] ts[i]).id),
    decreases ts.len() - from,
{
    if from < ts.len() && name_before(ts[from].id, id) {
        lemma_place_for_name(ts, s, id, from + 1)
    } else {
        assert forall|i: int| from <= i < ts.len() implies name_before(
            id,
            (#[trigger] ts[i]).id,
        ) by {
            lemma_name_before_total(id, ts[from].id);
            if i > from {
                lemma_name_before_transitive(id, ts[from].id, ts[i].id);
            }
        }
        from
    }
}

/// Every schedule has a grouping.
pub proof fn lemma_grouping_exists(s: Seq<SpecOp>) -> (ts: Seq<SpecTransaction>)
    ensures
        groups_schedule(ts, s),
    decreases s.len(),
{
    if s.len() == 0 {
        Seq::empty()
    } else {
        let front = s.drop_last();
        let op = s.last();
        assert(s =~= front.push(op));
        let ts = lemma_grouping_exists(front);
        if has_group(ts, op.tx) {
            let p = choose|p: int| 0 <= p < ts.len() && (#[trigger] ts[p]).id == op.tx;
            lemma_grouping_extends_group(ts, front, op, p);
            ts.update(p, SpecTransaction { id: op.tx, ops: ts[p].ops.push(op) })
        } else {
            let p = lemma_place_for_name(ts, front, op.tx, 0);
            lemma_grouping_opens_group(ts, front, op, p);
            ts.insert(p, SpecTransaction { id: op.tx, ops: seq![op] })
        }
    }
}

/// The grouping of a schedule by transaction.
pub open spec fn grouped(s: Seq<SpecOp>) -> Seq<SpecTransaction> {
    choose|ts: Seq<SpecTransaction>| groups_schedule(ts, s)
}

/// `grouped` is a grouping, and the only one.
pub proof fn lemma_grouped(s: Seq<SpecOp>)
    ensures
        groups_schedule(grouped(s), s),
        forall|ts: Seq<SpecTransaction>| groups_schedule(ts, s) ==> ts == grouped(s),
{
    let some = lemma_grouping_exists(s);
    assert(groups_schedule(some, s));
    assert forall|ts: Seq<SpecTransaction>| groups_schedule(ts, s) implies ts == grouped(s) by {
        lemma_grouping_unique(ts, grouped(s), s);
    }
}

/// `sub` holds the operations of `s` at the positions `at`, and the positions
/// ascend: `sub` is a part of `s` in the order of `s`.
pub open spec fn picks_in_order(sub: Seq<SpecOp>, s: Seq<SpecOp>, at: Seq<int>) -> bool {
    &&& at.len() == sub.len()
    &&& forall|k: int| 0 <= k < at.len() ==> 0 <= #[trigger] at[k] < s.len() && s[at[k]] == sub[k]
    &&& forall|j: int, k: int| 0 <= j < k < at.len() ==> at[j] < at[k]
}

/// The operations of one transaction keep the order of the schedule: they are
/// the operations at the positions where the schedule has an operation of
/// that transaction, by ascending position.
pub proof fn lemma_ops_of_keeps_order(s: Seq<SpecOp>, id: Seq<char>) -> (at: Seq<int>)
    ensures
        picks_in_order(ops_of(s, id), s, at),
        forall|p: int| 0 <= p < s.len() && (#[trigger] s[p]).tx == id ==> at.contains(p),
    decreases s.len(),
{
    let issued = |o: SpecOp| o.tx == id;
    if s.len() == 0 {
        s.lemma_filter_len(issued);
        Seq::empty()
    } else {
        let front = s.drop_last();
        let last = s.last();
        assert(s =~= front.push(last));
        front.lemma_filter_push(last, issued);
        let before = lemma_ops_of_keeps_order(front, id);
        let at = if last.tx == id {
            before.push(s.len() - 1)
        } else {
            before
        };
        assert forall|p: int| 0 <= p < s.len() && (#[trigger] s[p]).tx == id implies at.contains(
            p,
        ) by {
            if p < front.len() {
                let k = choose|k: int| 0 <= k < before.len() && before[k] == p;
                assert(at[k] == p);
            } else {
                assert(at[at.len() - 1] == p);
            }
        }
        at
    }
}

/// Among the operations that one transaction issued, an operation of that
/// transaction occurs as often as in the whole schedule, and no other
/// operation occurs.
pub proof fn lemma_ops_of_count(s: Seq<SpecOp>, id: Seq<char>, x: SpecOp)
    ensures
        ops_of(s, id).to_multiset().count(x) == if x.tx == id {
            s.to_multiset().count(x)
        } else {
            0
        },
    decreases s.len(),
{
    let issued = |o: SpecOp| o.tx == id;
    if s.len() == 0 {
        assert(s.filter(issued).len() == 0) by {
            s.lemma_filter_len(issued);
        }
        assert(s.filter(issued) =~= s);
        assert(s.to_multiset() =~= Multiset::<SpecOp>::empty()) by {
            s.to_multiset_ensures();
        }
    } else {
        let front = s.drop_last();
        let last = s.last();
        assert(s =~= front.push(last));
        lemma_ops_of_count(front, id, x);
        front.lemma_filter_push(last, issued);
        to_multiset_build(front, last);
        if issued(last) {
            to_multiset_build(front.filter(issued), last);
        }
    }
}

/// How often an operation occurs in the first `m` groups of a grouping: as
/// often as in the schedule where one of them is its transaction's, else not
/// at all.
proof fn lemma_count_in_groups(ts: Seq<SpecTransaction>, s: Seq<SpecOp>, m: int, x: SpecOp)
    requires
        groups_schedule(ts, s),
        0 <= m <= ts.len(),
    ensures
        concat_ops(ts.take(m)).to_multiset().count(x) == if has_group(ts.take(m), x.tx) {
            s.to_multiset().count(x)
        } else {
            0
        },
    decreases m,
{
    if m == 0 {
        assert(concat_ops(ts.take(0)).to_multiset() =~= Multiset::<SpecOp>::empty()) by {
            concat_ops(ts.take(0)).to_multiset_ensures();
        }
    } else {
        let front = ts.take(m - 1);
        let group = ts[m - 1];
        assert(ts.take(m).drop_last() =~= front);
        lemma_count_in_groups(ts, s, m - 1, x);
        lemma_multiset_commutative(concat_ops(front), group.ops);
        lemma_ops_of_count(s, group.id, x);
        if x.tx == group.id {
            if has_group(front, x.tx) {
                let i = choose|i: int| 0 <= i < front.len() && (#[trigger] front[i]).id == x.tx;
                lemma_group_names_differ(ts, s, i, m - 1);
            }
        } else {
            if has_group(ts.take(m), x.tx) {
                let i = choose|i: int|
                    0 <= i < ts.take(m).len() && (#[trigger] ts.take(m)[i]).id == x.tx;
                assert(front[i].id == x.tx);
            }
            if has_group(front, x.tx) {
                let i = choose|i: int| 0 <= i < front.len() && (#[trigger] front[i]).id == x.tx;
                assert(ts.take(m)[i].id == x.tx);
            }
        }
    }
}

/// Grouping loses nothing and adds nothing: the groups, one after the other,
/// hold the operations of the schedule, each as often as the schedule does.
pub proof fn lemma_grouping_keeps_operations(ts: Seq<SpecTransaction>, s: Seq<SpecOp>)
    requires
        groups_schedule(ts, s),
    ensures
        concat_ops(ts).to_multiset() == s.to_multiset(),
{
    assert forall|x: SpecOp|
        concat_ops(ts).to_multiset().count(x) == s.to_multiset().count(x) by {
        lemma_count_in_groups(ts, s, ts.len() as int, x);
        assert(ts.take(ts.len() as int) =~= ts);
        if !has_group(ts, x.tx) {
            to_multiset_contains(s, x);
            if s.contains(x) {
                let k = choose|k: int| 0 <= k < s.len() && s[k] == x;
                assert(has_group(ts, s[k].tx));
            }
        }
    }
}

} // verus!
