use schedule_conflicts::{Data, Op, OpKind, OpPair, TxId};

fn pair(a: Op, b: Op) -> OpPair {
    OpPair((a, b))
}

#[test]
fn read_then_write_of_another_transaction_conflicts() {
    let p = pair(Op::read("a", "1"), Op::write("a", "2"));
    assert!(p.are_different_transactions());
    assert!(p.on_same_data());
    assert!(p.one_is_a_write());
    assert!(p.is_conflicting());
}

#[test]
fn write_then_read_of_another_transaction_conflicts() {
    assert!(pair(Op::write("a", "1"), Op::read("a", "2")).is_conflicting());
}

#[test]
fn two_writes_of_different_transactions_conflict() {
    assert!(pair(Op::write("a", "1"), Op::write("a", "2")).is_conflicting());
}

#[test]
fn two_reads_never_conflict() {
    let p = pair(Op::read("a", "1"), Op::read("a", "2"));
    assert!(p.are_different_transactions());
    assert!(p.on_same_data());
    assert!(!p.one_is_a_write());
    assert!(!p.is_conflicting());
}

#[test]
fn operations_of_one_transaction_never_conflict() {
    let p = pair(Op::write("a", "1"), Op::write("a", "1"));
    assert!(!p.are_different_transactions());
    assert!(p.on_same_data());
    assert!(p.one_is_a_write());
    assert!(!p.is_conflicting());
    assert!(!pair(Op::read("a", "7"), Op::write("a", "7")).is_conflicting());
}

#[test]
fn operations_on_different_items_never_conflict() {
    let p = pair(Op::write("a", "1"), Op::write("b", "2"));
    assert!(p.are_different_transactions());
    assert!(!p.on_same_data());
    assert!(p.one_is_a_write());
    assert!(!p.is_conflicting());
}

#[test]
fn commit_and_abort_conflict_with_nothing() {
    let others = [
        Op::read("a", "1"),
        Op::write("a", "1"),
        Op::commit("1"),
        Op::abort("1"),
    ];
    for end in [Op::commit("2"), Op::abort("2")] {
        for other in others {
            assert!(!pair(other, end).is_conflicting());
            assert!(!pair(end, other).is_conflicting());
            assert!(!pair(other, end).on_same_data());
            assert!(!pair(end, other).on_same_data());
        }
    }
}

#[test]
fn a_write_beside_a_commit_is_still_one_write() {
    assert!(pair(Op::write("a", "1"), Op::commit("2")).one_is_a_write());
    assert!(pair(Op::abort("2"), Op::write("a", "1")).one_is_a_write());
    assert!(!pair(Op::abort("2"), Op::commit("1")).one_is_a_write());
}

#[test]
fn conflict_is_symmetric() {
    let ops = [
        Op::read("a", "1"),
        Op::read("a", "2"),
        Op::read("b", "2"),
        Op::write("a", "1"),
        Op::write("a", "2"),
        Op::write("b", "1"),
        Op::commit("1"),
        Op::commit("2"),
        Op::abort("1"),
        Op::abort("2"),
    ];
    let mut conflicting = 0;
    for a in ops {
        for b in ops {
            let there = pair(a, b).is_conflicting();
            let back = pair(b, a).is_conflicting();
            assert_eq!(there, back);
            if there {
                conflicting += 1;
            }
        }
    }
    // On item a: R1-W2, W2-R1, W1-R2, R2-W1, W1-W2, W2-W1. On item b: R2-W1,
    // W1-R2.
    assert_eq!(conflicting, 8);
}

#[test]
fn names_are_compared_by_their_characters() {
    let kept = String::from("tx") + "1";
    let leaked: &'static str = Box::leak(kept.into_boxed_str());
    assert!(TxId(leaked) == TxId("tx1"));
    assert!(TxId(leaked) != TxId("tx2"));
    assert!(Data(leaked) == Data("tx1"));
    assert!(Data("a") != Data("aa"));
    assert!(Data("") == Data(""));
    assert!(!pair(Op::write("tx1", leaked), Op::write(leaked, "tx1")).is_conflicting());
    assert!(pair(Op::write("tx1", leaked), Op::write(leaked, "tx2")).is_conflicting());
}

#[test]
fn names_are_ordered_as_strings_are() {
    assert!(TxId("1") < TxId("2"));
    assert!(!(TxId("2") < TxId("1")));
    assert!(!(TxId("1") < TxId("1")));
    assert!(TxId("10") < TxId("2"));
    assert!(TxId("1") < TxId("10"));
    assert!(!(TxId("10") < TxId("1")));
    assert!(TxId("") < TxId("a"));
    assert!(!(TxId("") < TxId("")));
    assert!(TxId("Z") < TxId("a"));
    assert!(TxId("z") < TxId("\u{e9}"));
    assert!(TxId("\u{e9}") < TxId("\u{4e2d}"));
    assert!(TxId("\u{ffff}") < TxId("\u{10000}"));
    let names = ["", "1", "10", "2", "A", "a", "ab", "b", "\u{e9}", "\u{4e2d}", "\u{1f600}"];
    for a in names {
        for b in names {
            assert_eq!(TxId(a) < TxId(b), a < b);
            assert_eq!(TxId(a) <= TxId(b), a <= b);
            assert_eq!(TxId(a).partial_cmp(&TxId(b)), a.partial_cmp(b));
            assert_eq!(TxId(a).cmp(&TxId(b)), a.cmp(b));
            assert_eq!(TxId(a) == TxId(b), a == b);
        }
    }
}

#[test]
fn operations_are_equal_when_their_parts_are() {
    assert!(Op::read("a", "1") == Op::read("a", "1"));
    assert!(Op::read("a", "1") != Op::write("a", "1"));
    assert!(Op::read("a", "1") != Op::read("b", "1"));
    assert!(Op::read("a", "1") != Op::read("a", "2"));
    assert!(Op::commit("1") == Op::commit("1"));
    assert!(Op::commit("1") != Op::abort("1"));
    assert!(Op::commit("1") != Op::commit("2"));
    assert!(OpKind::Commit == OpKind::Commit);
    assert!(OpKind::Read(Data("a")) != OpKind::Commit);
    assert!(pair(Op::read("a", "1"), Op::commit("2")) == pair(Op::read("a", "1"), Op::commit("2")));
    assert!(pair(Op::read("a", "1"), Op::commit("2")) != pair(Op::commit("2"), Op::read("a", "1")));
}

#[test]
fn builders_fill_the_fields() {
    let r = Op::read("a", "1");
    assert!(matches!(r.kind, OpKind::Read(Data("a"))));
    assert_eq!(r.tx.0, "1");
    let w = Op::write("b", "2");
    assert!(matches!(w.kind, OpKind::Write(Data("b"))));
    assert_eq!(w.tx.0, "2");
    let c = Op::commit("3");
    assert!(matches!(c.kind, OpKind::Commit));
    assert_eq!(c.tx.0, "3");
    let a = Op::abort("4");
    assert!(matches!(a.kind, OpKind::Abort));
    assert_eq!(a.tx.0, "4");
}
