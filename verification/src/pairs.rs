//! The pairs of positions of a schedule.

use itertools::Itertools;
use vstd::prelude::*;
use crate::conflict::{pairs_view, OpPair};
use crate::op::{ops_view, Op, SpecOp};

verus! {

/// The pairs of two different positions of `s`, the earlier position first.
/// They come in the order of a scan: first the pairs that begin at position
/// 0, by ascending second position, then in the same way those that begin at
/// position 1, and so on. Equal values at different positions make different
/// pairs.
pub open spec fn all_pairs(s: Seq<SpecOp>) -> Seq<(SpecOp, SpecOp)>
    decreases s.len(),
{
    if s.len() == 0 {
        Seq::empty()
    } else {
        Seq::new((s.len() - 1) as nat, |k: int| (s[0], s[k + 1])) + all_pairs(s.drop_first())
    }
}

/// The number of pairs of two different positions among `n` positions.
pub open spec fn pair_count(n: nat) -> nat {
    (n * (n - 1) / 2) as nat
}

/// One position more brings as many pairs more as there were positions.
proof fn lemma_pair_count_step(n: int)
    requires
        n >= 1,
    ensures
        pair_count(n as nat) == pair_count((n - 1) as nat) + (n - 1),
{
    assert((n - 1) + (n - 1) * (n - 2) / 2 == n * (n - 1) / 2) by (nonlinear_arith);
}

/// The scan of a schedule of `n` operations holds `n (n - 1) / 2` pairs.
pub proof fn lemma_all_pairs_len(s: Seq<SpecOp>)
    ensures
        all_pairs(s).len() == pair_count(s.len()),
    decreases s.len(),
{
    if s.len() > 0 {
        lemma_all_pairs_len(s.drop_first());
        lemma_pair_count_step(s.len() as int);
    }
}

/// The place of the pair of positions `i < j` in the scan of `n` positions,
/// counted from 0: behind the pairs that begin before `i`, and behind those
/// that begin at `i` and end before `j`.
pub open spec fn pair_rank(n: int, i: int, j: int) -> int {
    pair_count(n as nat) - pair_count((n - i) as nat) + (j - i - 1)
}

/// More positions have at least as many pairs.
proof fn lemma_pair_count_grows(m: int, n: int)
    requires
        0 <= m <= n,
    ensures
        pair_count(m as nat) <= pair_count(n as nat),
    decreases n - m,
{
    if m < n {
        lemma_pair_count_step(n);
        lemma_pair_count_grows(m, n - 1);
    }
}

/// The pair of the operations at positions `i < j` stands at its place in the
/// scan.
pub proof fn lemma_all_pairs_at(s: Seq<SpecOp>, i: int, j: int)
    requires
        0 <= i < j < s.len(),
    ensures
        0 <= pair_rank(s.len() as int, i, j) < all_pairs(s).len(),
        all_pairs(s)[pair_rank(s.len() as int, i, j)] == (s[i], s[j]),
    decreases i,
{
    let n = s.len() as int;
    let rest = s.drop_first();
    lemma_all_pairs_len(s);
    lemma_all_pairs_len(rest);
    lemma_pair_count_step(n);
    if i > 0 {
        lemma_all_pairs_at(rest, i - 1, j - 1);
    }
}

/// Every pair of the scan is the pair of the operations at two positions
/// `i < j`, and stands at the place of those two.
pub proof fn lemma_all_pairs_from(s: Seq<SpecOp>, k: int) -> (at: (int, int))
    requires
        0 <= k < all_pairs(s).len(),
    ensures
        0 <= at.0 < at.1 < s.len(),
        pair_rank(s.len() as int, at.0, at.1) == k,
        all_pairs(s)[k] == (s[at.0], s[at.1]),
    decreases s.len(),
{
    let n = s.len() as int;
    let rest = s.drop_first();
    lemma_all_pairs_len(s);
    lemma_all_pairs_len(rest);
    lemma_pair_count_step(n);
    if k < n - 1 {
        (0, k + 1)
    } else {
        let (i, j) = lemma_all_pairs_from(rest, k - (n - 1));
        (i + 1, j + 1)
    }
}

/// The scan goes by ascending first position, and for one first position
/// by ascending second position.
pub proof fn lemma_pair_rank_ascends(n: int, i: int, j: int, i2: int, j2: int)
    requires
        0 <= i < j < n,
        0 <= i2 < j2 < n,
        i < i2 || (i == i2 && j < j2),
    ensures
        pair_rank(n, i, j) < pair_rank(n, i2, j2),
{
    if i < i2 {
        lemma_pair_count_step(n - i);
        lemma_pair_count_grows(n - i2, n - i - 1);
    }
}

/// All pairs of positions of `ops`, in the order of a scan.
///
/// Not proved: this calls `Itertools::combinations` with `k = 2` on the
/// operations in order, and copies the two items of each combination into a
/// pair. The contract says of that iterator what its source shows: it yields
/// every choice of two positions once, the earlier position first, in
/// lexicographic order of the positions, and takes no account of whether
/// items are equal. The pairs are collected into a vector, which cannot be
/// done where there are more of them than a `usize` counts: such inputs are
/// left out.
#[verifier::external_body]
pub(crate) fn position_pairs(ops: &Vec<Op>) -> (pairs: Vec<OpPair>)
    requires
        pair_count(ops@.len()) <= usize::MAX,
    ensures
        pairs_view(pairs@) == all_pairs(ops_view(ops@)),
{
    ops.iter().combinations(2).map(|p| OpPair((*p[0], *p[1]))).collect()
}

} // verus!
