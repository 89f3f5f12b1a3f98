use schedule_conflicts::render::{join_parts, schedule_report, DisplayOpPairs};
use schedule_conflicts::{Op, OpPair, Schedule, Transaction};

fn pairs_text(pairs: &[OpPair]) -> String {
    pairs.display().to_string()
}

fn transaction_texts(ts: &[Transaction]) -> Vec<String> {
    ts.iter().map(|t| t.to_string()).collect()
}

#[test]
fn scenario_read_write_abort_commit() {
    let s = Schedule::new(&[
        Op::read("a", "1"),
        Op::write("a", "2"),
        Op::abort("2"),
        Op::commit("1"),
    ]);
    assert_eq!(s.to_string(), "[R_1(a), W_2(a), A_2, C_1]");
    let ts = s.transactions();
    assert_eq!(ts.len(), 2);
    assert_eq!(ts[0].id.0, "1");
    assert_eq!(ts[0].ops, vec![Op::read("a", "1"), Op::commit("1")]);
    assert_eq!(ts[1].id.0, "2");
    assert_eq!(ts[1].ops, vec![Op::write("a", "2"), Op::abort("2")]);
    assert_eq!(
        transaction_texts(&ts),
        vec!["Transaction '1': [R_1(a), C_1]", "Transaction '2': [W_2(a), A_2]"]
    );
    let pairs = s.conflicting_pairs();
    assert_eq!(pairs.len(), 1);
    assert!(pairs[0] == OpPair((Op::read("a", "1"), Op::write("a", "2"))));
    assert_eq!(pairs_text(&pairs), "[(R_1(a), W_2(a))]");
}

#[test]
fn scenario_two_reads() {
    let s = Schedule::new(&[Op::read("x", "1"), Op::read("x", "2")]);
    let pairs = s.conflicting_pairs();
    assert!(pairs.is_empty());
    assert_eq!(pairs_text(&pairs), "[]");
}

#[test]
fn scenario_three_writes() {
    let s = Schedule::new(&[Op::write("x", "1"), Op::write("x", "2"), Op::write("y", "1")]);
    let pairs = s.conflicting_pairs();
    assert_eq!(pairs.len(), 1);
    assert!(pairs[0] == OpPair((Op::write("x", "1"), Op::write("x", "2"))));
    assert_eq!(pairs_text(&pairs), "[(W_1(x), W_2(x))]");
}

#[test]
fn report_of_the_first_scenario() {
    let s = Schedule::new(&[
        Op::read("a", "1"),
        Op::write("a", "2"),
        Op::abort("2"),
        Op::commit("1"),
    ]);
    assert_eq!(
        schedule_report(&s),
        "Schedule:\n\t[R_1(a), W_2(a), A_2, C_1]\n\n\
         Transactions:\n\tTransaction '1': [R_1(a), C_1]\n\tTransaction '2': [W_2(a), A_2]\n\n\
         Conflicting Pairs:\n\t[(R_1(a), W_2(a))]\n"
    );
}

#[test]
fn report_of_the_empty_schedule() {
    let s = Schedule::new(&[]);
    assert_eq!(
        schedule_report(&s),
        "Schedule:\n\t[]\n\nTransactions:\n\nConflicting Pairs:\n\t[]\n"
    );
}

#[test]
fn empty_schedule() {
    let s = Schedule::new(&[]);
    assert!(s.ops().is_empty());
    assert_eq!(s.to_string(), "[]");
    assert!(s.transactions().is_empty());
    assert!(s.conflicting_pairs().is_empty());
    assert_eq!(s.pair_count(), Some(0));
}

#[test]
fn single_operation() {
    let s = Schedule::new(&[Op::write("a", "1")]);
    assert_eq!(s.to_string(), "[W_1(a)]");
    assert!(s.conflicting_pairs().is_empty());
    assert_eq!(s.pair_count(), Some(0));
    let ts = s.transactions();
    assert_eq!(transaction_texts(&ts), vec!["Transaction '1': [W_1(a)]"]);
}

#[test]
fn schedule_keeps_the_given_order() {
    let ops = [
        Op::write("b", "2"),
        Op::read("a", "1"),
        Op::commit("2"),
        Op::read("a", "1"),
        Op::abort("1"),
    ];
    let s = Schedule::new(&ops);
    assert_eq!(s.ops().len(), 5);
    for i in 0..ops.len() {
        assert!(s.ops()[i] == ops[i]);
    }
    assert_eq!(s.to_string(), "[W_2(b), R_1(a), C_2, R_1(a), A_1]");
}

#[test]
fn pairs_come_in_the_order_of_a_scan() {
    // Positions: 0 W_1(x), 1 R_2(x), 2 W_3(x), 3 R_1(x).
    let s = Schedule::new(&[
        Op::write("x", "1"),
        Op::read("x", "2"),
        Op::write("x", "3"),
        Op::read("x", "1"),
    ]);
    // (0,1) yes, (0,2) yes, (0,3) same transaction, (1,2) yes, (1,3) two
    // reads, (2,3) yes.
    assert_eq!(
        pairs_text(&s.conflicting_pairs()),
        "[(W_1(x), R_2(x)), (W_1(x), W_3(x)), (R_2(x), W_3(x)), (W_3(x), R_1(x))]"
    );
    assert_eq!(s.pair_count(), Some(6));
}

#[test]
fn all_pairs_conflict_when_every_transaction_writes_one_item() {
    let s = Schedule::new(&[
        Op::write("x", "1"),
        Op::write("x", "2"),
        Op::write("x", "3"),
        Op::write("x", "4"),
    ]);
    assert_eq!(
        pairs_text(&s.conflicting_pairs()),
        "[(W_1(x), W_2(x)), (W_1(x), W_3(x)), (W_1(x), W_4(x)), \
         (W_2(x), W_3(x)), (W_2(x), W_4(x)), (W_3(x), W_4(x))]"
    );
}

#[test]
fn equal_operations_at_different_positions_make_different_pairs() {
    let s = Schedule::new(&[Op::write("x", "1"), Op::write("x", "2"), Op::write("x", "2")]);
    assert_eq!(
        pairs_text(&s.conflicting_pairs()),
        "[(W_1(x), W_2(x)), (W_1(x), W_2(x))]"
    );
    let twice = Schedule::new(&[Op::read("x", "1"), Op::write("x", "2"), Op::read("x", "1")]);
    assert_eq!(
        pairs_text(&twice.conflicting_pairs()),
        "[(R_1(x), W_2(x)), (W_2(x), R_1(x))]"
    );
}

#[test]
fn pair_count_is_n_times_n_minus_one_halved() {
    let mut ops: Vec<Op> = Vec::new();
    let expected = [0usize, 0, 1, 3, 6, 10, 15, 21, 28, 36, 45];
    for n in 0..expected.len() {
        let s = Schedule::new(&ops);
        assert_eq!(s.pair_count(), Some(expected[n]));
        assert_eq!(s.pair_count(), Some(n * n.saturating_sub(1) / 2));
        ops.push(Op::write("x", "1"));
    }
}

#[test]
fn every_pair_is_kept_when_all_conflict() {
    // Writes to one item by transactions that all differ: each of the
    // n (n - 1) / 2 pairs conflicts.
    let names = ["a", "b", "c", "d", "e", "f", "g"];
    let ops: Vec<Op> = names.iter().map(|n| Op::write("x", n)).collect();
    let s = Schedule::new(&ops);
    let pairs = s.conflicting_pairs();
    assert_eq!(Some(pairs.len()), s.pair_count());
    assert_eq!(pairs.len(), 21);
    let mut k = 0;
    for i in 0..names.len() {
        for j in (i + 1)..names.len() {
            assert!(pairs[k] == OpPair((ops[i], ops[j])));
            k += 1;
        }
    }
}

#[test]
fn transactions_are_sorted_by_name_not_by_first_appearance() {
    let s = Schedule::new(&[
        Op::read("a", "3"),
        Op::read("a", "1"),
        Op::read("a", "2"),
        Op::commit("1"),
        Op::commit("3"),
        Op::commit("2"),
    ]);
    assert_eq!(
        transaction_texts(&s.transactions()),
        vec![
            "Transaction '1': [R_1(a), C_1]",
            "Transaction '2': [R_2(a), C_2]",
            "Transaction '3': [R_3(a), C_3]",
        ]
    );
}

#[test]
fn transaction_names_are_sorted_as_strings() {
    let s = Schedule::new(&[
        Op::commit("2"),
        Op::commit("10"),
        Op::commit("1"),
        Op::commit("b"),
        Op::commit("B"),
    ]);
    let ts = s.transactions();
    let ids: Vec<&str> = ts.iter().map(|t| t.id.0).collect();
    assert_eq!(ids, vec!["1", "10", "2", "B", "b"]);
}

#[test]
fn a_transaction_keeps_the_order_of_the_schedule() {
    let s = Schedule::new(&[
        Op::write("c", "1"),
        Op::read("a", "2"),
        Op::read("b", "1"),
        Op::write("a", "1"),
        Op::write("a", "1"),
        Op::abort("2"),
        Op::read("c", "1"),
    ]);
    assert_eq!(
        transaction_texts(&s.transactions()),
        vec![
            "Transaction '1': [W_1(c), R_1(b), W_1(a), W_1(a), R_1(c)]",
            "Transaction '2': [R_2(a), A_2]",
        ]
    );
}

#[test]
fn grouping_loses_and_adds_nothing() {
    let ops = [
        Op::write("c", "7"),
        Op::read("a", "2"),
        Op::read("b", "7"),
        Op::commit("5"),
        Op::write("a", "2"),
        Op::read("a", "2"),
        Op::abort("2"),
        Op::read("a", "2"),
        Op::commit("7"),
    ];
    let s = Schedule::new(&ops);
    let ts = s.transactions();
    let mut all: Vec<String> = Vec::new();
    for t in &ts {
        assert!(!t.ops.is_empty());
        for op in &t.ops {
            assert!(op.tx == t.id);
            all.push(op.to_string());
        }
    }
    let mut given: Vec<String> = ops.iter().map(|op| op.to_string()).collect();
    assert_eq!(all.len(), given.len());
    all.sort();
    given.sort();
    assert_eq!(all, given);
}

#[test]
fn grouping_twice_gives_the_same() {
    let s = Schedule::new(&[
        Op::write("a", "2"),
        Op::read("a", "1"),
        Op::commit("2"),
        Op::commit("1"),
    ]);
    assert_eq!(transaction_texts(&s.transactions()), transaction_texts(&s.transactions()));
    assert_eq!(pairs_text(&s.conflicting_pairs()), pairs_text(&s.conflicting_pairs()));
}

#[test]
fn a_schedule_need_not_be_well_formed() {
    // Reads after an abort, two commits: nothing is checked.
    let s = Schedule::new(&[
        Op::abort("1"),
        Op::read("a", "1"),
        Op::commit("1"),
        Op::commit("1"),
        Op::write("a", "2"),
    ]);
    assert_eq!(
        transaction_texts(&s.transactions()),
        vec!["Transaction '1': [A_1, R_1(a), C_1, C_1]", "Transaction '2': [W_2(a)]"]
    );
    assert_eq!(pairs_text(&s.conflicting_pairs()), "[(R_1(a), W_2(a))]");
}

#[test]
fn operations_as_text() {
    assert_eq!(Op::read("item", "t1").to_string(), "R_t1(item)");
    assert_eq!(Op::write("item", "t1").to_string(), "W_t1(item)");
    assert_eq!(Op::commit("t1").to_string(), "C_t1");
    assert_eq!(Op::abort("t1").to_string(), "A_t1");
    assert_eq!(Op::read("", "").to_string(), "R_()");
    assert_eq!(Op::commit("").to_string(), "C_");
    assert_eq!(Op::write("\u{e9}", "\u{4e2d}").to_string(), "W_\u{4e2d}(\u{e9})");
}

#[test]
fn pairs_as_text() {
    let none: Vec<OpPair> = Vec::new();
    assert_eq!(none.display().to_string(), "[]");
    let one = [OpPair((Op::commit("1"), Op::abort("2")))];
    assert_eq!(one.display().to_string(), "[(C_1, A_2)]");
    let two = [
        OpPair((Op::read("a", "1"), Op::write("a", "2"))),
        OpPair((Op::write("b", "2"), Op::write("b", "3"))),
    ];
    assert_eq!(two.display().to_string(), "[(R_1(a), W_2(a)), (W_2(b), W_3(b))]");
}

#[test]
fn parts_are_joined_with_the_separator_between() {
    let none: Vec<String> = Vec::new();
    assert_eq!(join_parts(&none, ", "), "");
    assert_eq!(join_parts(&vec![String::from("a")], ", "), "a");
    assert_eq!(join_parts(&vec![String::from("a"), String::from("b")], ", "), "a, b");
    assert_eq!(
        join_parts(&vec![String::from("a"), String::new(), String::from("c")], "-"),
        "a--c"
    );
    assert_eq!(join_parts(&vec![String::from("a"), String::from("b")], ""), "ab");
}
