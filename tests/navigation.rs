use branchless_nav::{
    advance, finish_checkout, next, next_after_choice, pick, prev, prompt_for_range,
    select_in_range, Advance, CommitNode, DagSnapshot, NavError, NavPlan, NumberedNode, Target,
    Towards,
};

fn node(id: u64, time: i64, parents: &[u64], obsolete: bool) -> CommitNode {
    CommitNode { id, time, parents: parents.to_vec(), obsolete }
}

fn snapshot(nodes: Vec<CommitNode>) -> DagSnapshot {
    DagSnapshot::new(nodes).expect("commits in canonical order")
}

/// A (1) with children B (2, older) and C (3, newer).
fn fork() -> DagSnapshot {
    snapshot(vec![node(1, 10, &[], false), node(2, 20, &[1], false), node(3, 30, &[1], false)])
}

/// 1 -> 2 -> 3 -> 4.
fn chain() -> DagSnapshot {
    snapshot(vec![
        node(1, 10, &[], false),
        node(2, 20, &[1], false),
        node(3, 30, &[2], false),
        node(4, 40, &[3], false),
    ])
}

fn reached(r: Result<Advance, NavError>) -> u64 {
    match r {
        Ok(Advance::Reached(c)) => c,
        other => panic!("expected a reached commit, got {:?}", other),
    }
}

fn checkout(r: Result<NavPlan, NavError>) -> (Target, bool) {
    match r {
        Ok(NavPlan::Checkout { target, refresh_view }) => (target, refresh_view),
        other => panic!("expected a checkout, got {:?}", other),
    }
}

#[test]
fn next_newest_checks_out_newer_child() {
    let dag = fork();
    let r = next(&dag, Some(1), Some(1), Some(Towards::Newest), false);
    assert_eq!(checkout(r), (Target::Commit(3), true));
}

#[test]
fn next_oldest_checks_out_older_child() {
    let dag = fork();
    let r = next(&dag, Some(1), Some(1), Some(Towards::Oldest), false);
    assert_eq!(checkout(r), (Target::Commit(2), true));
}

#[test]
fn next_without_policy_non_interactive_gives_up() {
    let dag = fork();
    match next(&dag, Some(1), Some(1), None, false) {
        Ok(NavPlan::Ambiguous { at, taken, children }) => {
            assert_eq!(at, 1);
            assert_eq!(taken, 0);
            assert_eq!(children, vec![2, 3]);
        }
        other => panic!("expected an ambiguity, got {:?}", other),
    }
}

#[test]
fn next_without_policy_interactive_asks_then_follows_choice() {
    let dag = fork();
    let children = match next(&dag, Some(1), None, None, true) {
        Ok(NavPlan::Choose { at, taken, children, remaining }) => {
            assert_eq!(at, 1);
            assert_eq!(taken, 0);
            assert_eq!(remaining, 0);
            children
        }
        other => panic!("expected a prompt, got {:?}", other),
    };
    assert_eq!(children, vec![2, 3]);
    let r = next_after_choice(&dag, &children, "2\n", 0, 0, None);
    assert_eq!(checkout(r), (Target::Commit(3), true));
    let r = next_after_choice(&dag, &children, "1\n", 0, 0, None);
    assert_eq!(checkout(r), (Target::Commit(2), true));
}

#[test]
fn invalid_choice_cancels_next() {
    let dag = fork();
    let children = vec![2, 3];
    assert!(matches!(next_after_choice(&dag, &children, "3\n", 0, 0, None), Ok(NavPlan::Exit(1))));
    assert!(matches!(next_after_choice(&dag, &children, "no\n", 0, 0, None), Ok(NavPlan::Exit(1))));
}

#[test]
fn ambiguity_after_steps_reports_progress() {
    // 1 -> 2, and 2 has children 3 and 4.
    let dag = snapshot(vec![
        node(1, 10, &[], false),
        node(2, 20, &[1], false),
        node(3, 30, &[2], false),
        node(4, 40, &[2], false),
        node(5, 50, &[4], false),
    ]);
    match next(&dag, Some(1), Some(3), None, true) {
        Ok(NavPlan::Choose { at, taken, children, remaining }) => {
            assert_eq!((at, taken, remaining), (2, 1, 1));
            assert_eq!(children, vec![3, 4]);
            let r = next_after_choice(&dag, &children, " 2 ", taken, remaining, None);
            assert_eq!(checkout(r), (Target::Commit(5), true));
        }
        other => panic!("expected a prompt, got {:?}", other),
    }
}

#[test]
fn prev_two_checks_out_grandparent_and_refreshes_once() {
    let plan = prev(Some(2));
    let (target, refresh) = match plan {
        NavPlan::Checkout { target, refresh_view } => (target, refresh_view),
        other => panic!("expected a checkout, got {:?}", other),
    };
    assert_eq!(target, Target::Ancestor(2));
    let done = finish_checkout(refresh, 0);
    assert!(done.refresh_view);
    assert_eq!(done.exit_code, 0);
}

#[test]
fn prev_defaults_to_parent() {
    assert!(matches!(
        prev(None),
        NavPlan::Checkout { target: Target::Ancestor(1), refresh_view: true }
    ));
}

#[test]
fn failed_checkout_keeps_code_and_skips_refresh() {
    let done = finish_checkout(true, 128);
    assert!(!done.refresh_view);
    assert_eq!(done.exit_code, 128);
    let done = finish_checkout(false, 0);
    assert!(!done.refresh_view);
    assert_eq!(done.exit_code, 0);
}

#[test]
fn obsolete_sole_child_stops_early_with_success() {
    let dag = snapshot(vec![node(1, 10, &[], false), node(4, 40, &[1], true)]);
    let (target, refresh) = checkout(next(&dag, Some(1), Some(1), None, false));
    assert_eq!(target, Target::Commit(1));
    let done = finish_checkout(refresh, 0);
    assert!(done.refresh_view);
    assert_eq!(done.exit_code, 0);
}

#[test]
fn linear_chain_same_for_every_policy() {
    let dag = chain();
    for towards in [None, Some(Towards::Newest), Some(Towards::Oldest)] {
        assert_eq!(reached(advance(&dag, 1, 2, towards)), 3);
        assert_eq!(reached(advance(&dag, 1, 3, towards)), 4);
        assert_eq!(reached(advance(&dag, 1, 10, towards)), 4);
        assert_eq!(reached(advance(&dag, 2, 1, towards)), 3);
    }
}

#[test]
fn zero_steps_return_start() {
    let dag = chain();
    assert_eq!(reached(advance(&dag, 2, 0, None)), 2);
    // No query is made, so even a commit outside the snapshot comes back.
    assert_eq!(reached(advance(&dag, 99, 0, None)), 99);
    assert_eq!(reached(advance(&dag, 2, -3, None)), 2);
}

#[test]
fn policies_pick_extreme_canonical_keys() {
    // Children of 1 listed by (time, id): 7 (t 5), 3 (t 20), 5 (t 20), 2 (t 30).
    let dag = snapshot(vec![
        node(1, 1, &[], false),
        node(7, 5, &[1], false),
        node(3, 20, &[1], false),
        node(5, 20, &[1], false),
        node(2, 30, &[1], false),
        node(6, 40, &[1], true),
    ]);
    assert_eq!(reached(advance(&dag, 1, 1, Some(Towards::Newest))), 2);
    assert_eq!(reached(advance(&dag, 1, 1, Some(Towards::Oldest))), 7);
    assert_eq!(dag.live_children(1), vec![7, 3, 5, 2]);
}

#[test]
fn policy_applies_at_every_step() {
    // 1 has children 2 (older) and 3 (newer); 3 has children 4 (older) and 5 (newer).
    let dag = snapshot(vec![
        node(1, 10, &[], false),
        node(2, 20, &[1], false),
        node(3, 30, &[1], false),
        node(4, 40, &[3], false),
        node(5, 50, &[3], false),
    ]);
    assert_eq!(reached(advance(&dag, 1, 2, Some(Towards::Newest))), 5);
    assert_eq!(reached(advance(&dag, 1, 2, Some(Towards::Oldest))), 2);
}

#[test]
fn all_children_obsolete_stop_for_every_policy() {
    let dag = snapshot(vec![
        node(1, 10, &[], false),
        node(2, 20, &[1], true),
        node(3, 30, &[1], true),
    ]);
    for towards in [None, Some(Towards::Newest), Some(Towards::Oldest)] {
        assert_eq!(reached(advance(&dag, 1, 3, towards)), 1);
    }
}

#[test]
fn merge_commit_is_child_of_each_parent() {
    let dag = snapshot(vec![
        node(1, 10, &[], false),
        node(2, 20, &[], false),
        node(3, 30, &[1, 2], false),
    ]);
    assert_eq!(reached(advance(&dag, 2, 1, None)), 3);
    assert_eq!(reached(advance(&dag, 1, 1, None)), 3);
}

#[test]
fn advance_from_unknown_commit_fails() {
    let dag = chain();
    assert!(matches!(advance(&dag, 99, 1, None), Err(NavError::UnknownCommit(99))));
}

#[test]
fn next_without_head_fails() {
    let dag = chain();
    assert!(matches!(
        next(&dag, None, Some(1), None, false),
        Err(NavError::NoCurrentPosition)
    ));
}

#[test]
fn snapshot_rejects_out_of_order_or_repeated_commits() {
    assert!(DagSnapshot::new(vec![node(2, 20, &[], false), node(1, 10, &[], false)]).is_none());
    assert!(DagSnapshot::new(vec![node(1, 10, &[], false), node(1, 20, &[], false)]).is_none());
    assert!(DagSnapshot::new(vec![node(5, 10, &[], false), node(3, 10, &[], false)]).is_none());
    assert!(DagSnapshot::new(vec![node(3, 10, &[], false), node(5, 10, &[], false)]).is_some());
    assert!(DagSnapshot::new(Vec::new()).is_some());
}

#[test]
fn prompt_accepts_numbers_in_range() {
    assert_eq!(prompt_for_range("3\n", 1, 5), Some(3));
    assert_eq!(prompt_for_range("  1  \n", 1, 5), Some(1));
    assert_eq!(prompt_for_range("5", 1, 5), Some(5));
    assert_eq!(prompt_for_range("+2\n", 1, 5), Some(2));
    assert_eq!(prompt_for_range("007\r\n", 1, 9), Some(7));
}

#[test]
fn prompt_rejects_everything_else() {
    assert_eq!(prompt_for_range("0\n", 1, 5), None);
    assert_eq!(prompt_for_range("6\n", 1, 5), None);
    assert_eq!(prompt_for_range("abc\n", 1, 5), None);
    assert_eq!(prompt_for_range("\n", 1, 5), None);
    assert_eq!(prompt_for_range("-1\n", 1, 5), None);
    assert_eq!(prompt_for_range("+\n", 1, 5), None);
    assert_eq!(prompt_for_range("2 3\n", 1, 5), None);
    assert_eq!(prompt_for_range("99999999999999999999999\n", 1, 5), None);
    assert_eq!(prompt_for_range("1\n", 1, 0), None);
}

#[test]
fn select_does_not_trim() {
    assert_eq!(select_in_range("4", 1, 5), Some(4));
    assert_eq!(select_in_range(" 4", 1, 5), None);
    assert_eq!(select_in_range("4\n", 1, 5), None);
}

fn numbered() -> Vec<NumberedNode> {
    vec![
        NumberedNode { id: 40, label: 2 },
        NumberedNode { id: 10, label: 1 },
        NumberedNode { id: 30, label: 3 },
    ]
}

#[test]
fn pick_checks_out_numbered_commit_and_refreshes() {
    let nodes = numbered();
    assert_eq!(checkout(pick(&nodes, "2\n")), (Target::Commit(40), true));
    let (target, refresh) = checkout(pick(&nodes, " 3"));
    assert_eq!(target, Target::Commit(30));
    let done = finish_checkout(refresh, 0);
    assert!(done.refresh_view);
    assert_eq!(done.exit_code, 0);
}

#[test]
fn pick_twice_selects_same_commit() {
    let nodes = numbered();
    let first = checkout(pick(&nodes, "1\n"));
    let second = checkout(pick(&nodes, "1\n"));
    assert_eq!(first, second);
    assert_eq!(first, (Target::Commit(10), true));
}

#[test]
fn pick_invalid_choice_cancels() {
    let nodes = numbered();
    assert!(matches!(pick(&nodes, "4\n"), Ok(NavPlan::Exit(1))));
    assert!(matches!(pick(&nodes, "x\n"), Ok(NavPlan::Exit(1))));
    assert!(matches!(pick(&Vec::new(), "1\n"), Ok(NavPlan::Exit(1))));
}

#[test]
fn pick_missing_label_fails() {
    let nodes = vec![NumberedNode { id: 10, label: 1 }, NumberedNode { id: 20, label: 5 }];
    assert!(matches!(pick(&nodes, "2\n"), Err(NavError::UnknownLabel(2))));
}

#[test]
fn second_ambiguity_counts_steps_from_start() {
    // 1 has children 2 and 3; 3 -> 4; 4 has children 5 and 6.
    let dag = snapshot(vec![
        node(1, 10, &[], false),
        node(2, 20, &[1], false),
        node(3, 30, &[1], false),
        node(4, 40, &[3], false),
        node(5, 50, &[4], false),
        node(6, 60, &[4], false),
    ]);
    let (taken, children, remaining) = match next(&dag, Some(1), Some(4), None, true) {
        Ok(NavPlan::Choose { taken, children, remaining, .. }) => (taken, children, remaining),
        other => panic!("expected a prompt, got {:?}", other),
    };
    assert_eq!((taken, remaining), (0, 3));
    match next_after_choice(&dag, &children, "2\n", taken, remaining, None) {
        Ok(NavPlan::Choose { at, taken, children, remaining }) => {
            assert_eq!((at, taken, remaining), (4, 2, 1));
            assert_eq!(children, vec![5, 6]);
        }
        other => panic!("expected a second prompt, got {:?}", other),
    }
}

#[test]
fn snapshot_rejects_missing_parent() {
    assert!(DagSnapshot::new(vec![node(1, 10, &[], false), node(2, 20, &[9], false)]).is_none());
    assert!(DagSnapshot::new(vec![node(1, 10, &[], false), node(2, 20, &[1], false)]).is_some());
}

#[test]
fn prompt_trims_unicode_whitespace() {
    assert_eq!(prompt_for_range("\u{3000}\t4\u{a0}\r\n", 1, 5), Some(4));
    assert_eq!(prompt_for_range("\u{200b}4", 1, 5), None);
}
