use std::cell::RefCell;
use std::collections::HashMap;

use tmux_mem::ancestry::{find_owning_pane, parent_of_answer, ps_ppid, MAX_HOPS};
use tmux_mem::model::PaneInfo;

fn pane(target: &str, pid: i32) -> PaneInfo {
    PaneInfo {
        target: target.to_string(),
        window_name: "w".to_string(),
        pane_pid: pid,
        history_size: 10,
        history_limit: 100,
    }
}

fn panes(list: &[(&str, i32)]) -> HashMap<i32, PaneInfo> {
    list.iter().map(|(t, p)| (*p, pane(t, *p))).collect()
}

fn table(parents: &'static [(i32, i32)]) -> impl Fn(i32) -> Option<String> {
    move |pid: i32| {
        parents
            .iter()
            .find(|(child, _)| *child == pid)
            .map(|(_, parent)| format!("  {}\n", parent))
    }
}

#[test]
fn a_pane_root_owns_itself_without_a_lookup() {
    let by_pid = panes(&[("s:1.0", 100), ("s:2.0", 200)]);
    let mut cache = HashMap::new();
    let asked = RefCell::new(0u32);
    let lookup = |_pid: i32| {
        *asked.borrow_mut() += 1;
        Some("1".to_string())
    };
    let owner = find_owning_pane(200, &by_pid, &mut cache, &lookup);
    assert_eq!(owner.unwrap().target, "s:2.0");
    assert!(cache.is_empty());
    assert_eq!(*asked.borrow(), 0);
}

#[test]
fn the_nearest_ancestor_pane_owns() {
    let by_pid = panes(&[("near", 30), ("far", 10)]);
    let mut cache = HashMap::new();
    let lookup = table(&[(50, 40), (40, 30), (30, 10), (10, 1), (1, 0)]);
    let owner = find_owning_pane(50, &by_pid, &mut cache, &lookup);
    assert_eq!(owner.unwrap().target, "near");
    let mut kept: Vec<(i32, i32)> = cache.into_iter().collect();
    kept.sort();
    assert_eq!(kept, vec![(40, 30), (50, 40)]);
}

#[test]
fn a_walk_to_the_root_finds_no_owner_and_caches_every_step() {
    let by_pid = panes(&[("s:1.0", 999)]);
    let mut cache = HashMap::new();
    let lookup = table(&[(50, 40), (40, 30), (30, 1), (1, 0)]);
    assert!(find_owning_pane(50, &by_pid, &mut cache, &lookup).is_none());
    let mut kept: Vec<(i32, i32)> = cache.into_iter().collect();
    kept.sort();
    assert_eq!(kept, vec![(1, 0), (30, 1), (40, 30), (50, 40)]);
}

#[test]
fn cached_parents_are_not_asked_for_again() {
    let by_pid = panes(&[("s:1.0", 10)]);
    let mut cache = HashMap::new();
    cache.insert(50, 40);
    cache.insert(40, 10);
    let asked = RefCell::new(Vec::<i32>::new());
    let lookup = |pid: i32| {
        asked.borrow_mut().push(pid);
        None
    };
    let owner = find_owning_pane(50, &by_pid, &mut cache, &lookup);
    assert_eq!(owner.unwrap().pane_pid, 10);
    assert!(asked.borrow().is_empty());
    assert_eq!(cache.len(), 2);

    let other = find_owning_pane(60, &by_pid, &mut cache, &lookup);
    assert!(other.is_none());
    assert_eq!(*asked.borrow(), vec![60]);
    assert_eq!(cache.get(&60), Some(&0));
}

#[test]
fn a_failed_lookup_counts_as_no_parent() {
    let by_pid = panes(&[("s:1.0", 10)]);
    let mut cache = HashMap::new();
    let lookup = |_pid: i32| None;
    assert!(find_owning_pane(77, &by_pid, &mut cache, &lookup).is_none());
    assert_eq!(cache.get(&77), Some(&0));
    assert_eq!(cache.len(), 1);
}

#[test]
fn pids_that_are_not_positive_have_no_owner() {
    let by_pid = panes(&[("zero", 0), ("minus", -4)]);
    let mut cache = HashMap::new();
    let lookup = |_pid: i32| Some("1".to_string());
    assert!(find_owning_pane(0, &by_pid, &mut cache, &lookup).is_none());
    assert!(find_owning_pane(-4, &by_pid, &mut cache, &lookup).is_none());
    assert!(cache.is_empty());
}

#[test]
fn a_cycle_ends_after_the_hop_limit() {
    let by_pid = panes(&[("s:1.0", 10)]);
    let mut cache = HashMap::new();
    let asked = RefCell::new(0usize);
    let lookup = |pid: i32| {
        *asked.borrow_mut() += 1;
        Some(if pid == 5 { "6".to_string() } else { "5".to_string() })
    };
    assert!(find_owning_pane(5, &by_pid, &mut cache, &lookup).is_none());
    assert_eq!(*asked.borrow(), 2);
    assert_eq!(cache.len(), 2);
}

#[test]
fn a_long_chain_is_followed_for_512_hops_only() {
    assert_eq!(MAX_HOPS, 512);
    let lookup = |pid: i32| Some((pid - 1).to_string());

    let by_pid = panes(&[("deep", 1000 - 511)]);
    let mut cache = HashMap::new();
    let owner = find_owning_pane(1000, &by_pid, &mut cache, &lookup);
    assert_eq!(owner.unwrap().target, "deep");
    assert_eq!(cache.len(), 511);

    let by_pid = panes(&[("deeper", 1000 - 512)]);
    let mut cache = HashMap::new();
    assert!(find_owning_pane(1000, &by_pid, &mut cache, &lookup).is_none());
    assert_eq!(cache.len(), 512);
    assert_eq!(cache.get(&(1000 - 511)), Some(&(1000 - 512)));
    assert_eq!(cache.get(&(1000 - 512)), None);
}

#[test]
fn ps_ppid_reads_and_remembers() {
    let mut cache = HashMap::new();
    let asked = RefCell::new(0u32);
    let lookup = |_pid: i32| {
        *asked.borrow_mut() += 1;
        Some(" 4321\n".to_string())
    };
    assert_eq!(ps_ppid(9, &mut cache, &lookup), 4321);
    assert_eq!(ps_ppid(9, &mut cache, &lookup), 4321);
    assert_eq!(*asked.borrow(), 1);
    assert_eq!(cache.get(&9), Some(&4321));
}

#[test]
fn parent_answers_are_read_leniently() {
    assert_eq!(parent_of_answer(&Some("12".to_string())), 12);
    assert_eq!(parent_of_answer(&Some("  12\t\n".to_string())), 12);
    assert_eq!(parent_of_answer(&Some("+7".to_string())), 7);
    assert_eq!(parent_of_answer(&Some("-7".to_string())), -7);
    assert_eq!(parent_of_answer(&Some("2147483647".to_string())), i32::MAX);
    assert_eq!(parent_of_answer(&Some("-2147483648".to_string())), i32::MIN);
    assert_eq!(parent_of_answer(&Some("2147483648".to_string())), 0);
    assert_eq!(parent_of_answer(&Some("".to_string())), 0);
    assert_eq!(parent_of_answer(&Some("12 13".to_string())), 0);
    assert_eq!(parent_of_answer(&Some("abc".to_string())), 0);
    assert_eq!(parent_of_answer(&Some("-".to_string())), 0);
    assert_eq!(parent_of_answer(&None), 0);
}
