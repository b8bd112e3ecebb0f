use tmux_mem::aggregate::{aggregate_by_pane, group_by_pane, unique_history_bytes};
use tmux_mem::model::{PaneRecord, ProcRecord};
use tmux_mem::rank::{precedes, sort_ranked, Ranked};

fn proc(pid: i32, swap: u64, physical: u64, target: &str) -> ProcRecord {
    ProcRecord {
        pid,
        command: format!("cmd{}", pid),
        swap_bytes: swap,
        physical_bytes: physical,
        rss_bytes: 1,
        tmux_target: target.to_string(),
        tmux_window_name: format!("w-{}", pid),
        pane_history_size: pid as i64,
        pane_history_limit: 1000 - pid as i64,
        pane_history_bytes: (pid as u64) * 10,
    }
}

fn pids(rows: &[ProcRecord]) -> Vec<i32> {
    rows.iter().map(|r| r.pid).collect()
}

fn targets(rows: &[PaneRecord]) -> Vec<String> {
    rows.iter().map(|r| r.tmux_target.clone()).collect()
}

#[test]
fn processes_rank_by_swap_then_physical_then_pid() {
    let rows = vec![
        proc(5, 10, 10, "a"),
        proc(4, 10, 20, "a"),
        proc(3, 30, 0, "a"),
        proc(2, 10, 10, "a"),
        proc(1, 0, 99, "a"),
    ];
    assert_eq!(pids(&sort_ranked(rows)), vec![3, 4, 2, 5, 1]);
}

#[test]
fn shuffling_the_input_changes_nothing() {
    let base = vec![
        proc(1, 7, 1, "a"),
        proc(2, 7, 1, "b"),
        proc(3, 9, 0, "c"),
        proc(4, 0, 0, "a"),
        proc(5, 7, 3, "b"),
        proc(6, 0, 5, "d"),
    ];
    let expected = pids(&sort_ranked(base.clone()));
    assert_eq!(expected, vec![3, 5, 1, 2, 6, 4]);
    let expected_panes = targets(&aggregate_by_pane(&base));
    let mut order: Vec<usize> = (0..base.len()).collect();
    let mut seed: u64 = 12345;
    for _ in 0..200 {
        for i in (1..order.len()).rev() {
            seed = seed.wrapping_mul(6364136223846793005).wrapping_add(1442695040888963407);
            let j = (seed >> 33) as usize % (i + 1);
            order.swap(i, j);
        }
        let shuffled: Vec<ProcRecord> = order.iter().map(|&i| base[i].clone()).collect();
        assert_eq!(pids(&sort_ranked(shuffled.clone())), expected);
        assert_eq!(targets(&aggregate_by_pane(&shuffled)), expected_panes);
    }
}

#[test]
fn records_that_tie_keep_their_order() {
    let mut first = proc(1, 5, 5, "a");
    first.command = "first".to_string();
    let mut second = proc(1, 5, 5, "a");
    second.command = "second".to_string();
    let sorted = sort_ranked(vec![first, proc(0, 9, 9, "a"), second]);
    assert_eq!(sorted[0].pid, 0);
    assert_eq!(sorted[1].command, "first");
    assert_eq!(sorted[2].command, "second");
}

#[test]
fn sorting_nothing_gives_nothing() {
    assert!(sort_ranked(Vec::<ProcRecord>::new()).is_empty());
    assert!(aggregate_by_pane(&[]).is_empty());
}

#[test]
fn texts_are_ordered_character_by_character() {
    assert!(precedes("a", "b"));
    assert!(!precedes("b", "a"));
    assert!(!precedes("a", "a"));
    assert!(precedes("", "a"));
    assert!(!precedes("a", ""));
    assert!(!precedes("", ""));
    assert!(precedes("ab", "abc"));
    assert!(precedes("Z", "a"));
    assert!(precedes("s:1.0", "s:1.1"));
    assert!(precedes("s:10.0", "s:2.0"));
    assert!(precedes("z", "é"));
    assert!(precedes("é", "✓"));
    assert!(precedes("\u{ffff}", "\u{10000}"));
    for (a, b) in [("a", "b"), ("é", "z"), ("ab", "a"), ("✓", "\u{10000}"), ("?", "s:1.0")] {
        assert_eq!(precedes(a, b), a < b);
        assert_eq!(precedes(b, a), b < a);
    }
}

#[test]
fn panes_rank_by_swap_then_physical_then_target() {
    let rows = vec![
        proc(1, 5, 1, "b"),
        proc(2, 5, 1, "a"),
        proc(3, 1, 9, "c"),
        proc(4, 4, 0, "c"),
        proc(5, 0, 0, "?"),
        proc(6, 5, 2, "d"),
    ];
    let panes = aggregate_by_pane(&rows);
    assert_eq!(targets(&panes), vec!["c", "d", "a", "b", "?"]);
    assert_eq!(panes[0].pids, vec![3, 4]);
    assert_eq!(panes[0].swap_bytes, 5);
    assert_eq!(panes[0].physical_bytes, 9);
    assert!(panes[0].comes_before(&panes[1]));
    assert!(!panes[1].comes_before(&panes[0]));
    assert!(!panes[1].comes_before(&panes[1]));
}

#[test]
fn a_pane_keeps_its_first_name_and_its_richest_history() {
    let mut rows = vec![proc(7, 1, 1, "p"), proc(3, 1, 1, "p"), proc(9, 1, 1, "p")];
    rows[0].pane_history_limit = 5;
    rows[1].pane_history_limit = 50;
    rows[2].pane_history_limit = 7;
    let panes = aggregate_by_pane(&rows);
    assert_eq!(panes.len(), 1);
    assert_eq!(panes[0].tmux_window_name, "w-7");
    assert_eq!(panes[0].process_count, 3);
    assert_eq!(panes[0].pids, vec![7, 3, 9]);
    assert_eq!(panes[0].pane_history_size, 9);
    assert_eq!(panes[0].pane_history_limit, 50);
    assert_eq!(panes[0].pane_history_bytes, 90);
    assert_eq!(panes[0].rss_bytes, 3);
}

#[test]
fn history_is_not_summed() {
    let mut a = proc(1, 100, 200, "s:1.0");
    a.pane_history_bytes = 1000;
    let mut b = proc(2, 50, 70, "s:1.0");
    b.pane_history_bytes = 900;
    let panes = aggregate_by_pane(&[a, b]);
    assert_eq!(panes[0].pane_history_bytes, 1000);
}

#[test]
fn processes_without_a_pane_form_one_pane() {
    let mut a = proc(1, 1, 1, "?");
    a.pane_history_size = -1;
    a.pane_history_limit = -1;
    a.pane_history_bytes = 0;
    let mut b = a.clone();
    b.pid = 2;
    let panes = aggregate_by_pane(&[a, proc(3, 0, 0, "s:1.0"), b]);
    assert_eq!(targets(&panes), vec!["?", "s:1.0"]);
    assert_eq!(panes[0].pids, vec![1, 2]);
    assert_eq!(panes[0].pane_history_size, -1);
    assert_eq!(panes[0].pane_history_limit, -1);
    assert_eq!(panes[0].swap_bytes, 2);
}

#[test]
fn sums_stay_at_the_maximum() {
    let rows = vec![
        proc(1, u64::MAX - 1, u64::MAX, "p"),
        proc(2, 1, 1, "p"),
        proc(3, 1, 0, "p"),
    ];
    let panes = aggregate_by_pane(&rows);
    assert_eq!(panes[0].swap_bytes, u64::MAX);
    assert_eq!(panes[0].physical_bytes, u64::MAX);
    assert_eq!(panes[0].rss_bytes, 3);
}

#[test]
fn groups_come_in_order_of_first_appearance() {
    let rows = vec![
        proc(1, 0, 0, "b"),
        proc(2, 9, 9, "a"),
        proc(3, 0, 0, "b"),
        proc(4, 5, 5, "c"),
    ];
    let groups = group_by_pane(&rows);
    assert_eq!(targets(&groups), vec!["b", "a", "c"]);
    assert_eq!(groups[0].pids, vec![1, 3]);
    assert_eq!(unique_history_bytes(&rows), 30 + 20 + 40);
}

#[test]
fn cloned_pane_rows_say_the_same() {
    let panes = aggregate_by_pane(&[proc(1, 2, 3, "x"), proc(2, 2, 3, "x")]);
    let copy = panes[0].clone();
    assert_eq!(copy.tmux_target, panes[0].tmux_target);
    assert_eq!(copy.pids, panes[0].pids);
    assert_eq!(copy.process_count, 2);
    assert_eq!(copy.swap_bytes, 4);
}
