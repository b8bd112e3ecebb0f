//! Folding process rows into one row per pane.

use vstd::prelude::*;
use crate::model::{PaneRecord, ProcRecord};
use crate::rank::{is_ranking_of, ordered, sort_ranked};
use crate::size::clamp;

verus! {

/// The memory figures that add up over the processes of a pane.
pub enum Measure {
    Swap,
    Physical,
    Resident,
}

/// The scrollback figures of a pane, which every process of the pane
/// reports alike and which therefore do not add up.
pub enum Gauge {
    Lines,
    Limit,
    Bytes,
}

/// One memory figure of a process row.
pub open spec fn measure(r: ProcRecord, which: Measure) -> nat {
    match which {
        Measure::Swap => r.swap_bytes as nat,
        Measure::Physical => r.physical_bytes as nat,
        Measure::Resident => r.rss_bytes as nat,
    }
}

/// One scrollback figure of a process row.
pub open spec fn gauge(r: ProcRecord, which: Gauge) -> int {
    match which {
        Gauge::Lines => r.pane_history_size as int,
        Gauge::Limit => r.pane_history_limit as int,
        Gauge::Bytes => r.pane_history_bytes as int,
    }
}

/// The rows of `rows` that belong to the pane `target`, in their order.
pub open spec fn members(rows: Seq<ProcRecord>, target: Seq<char>) -> Seq<ProcRecord>
    decreases rows.len(),
{
    if rows.len() == 0 {
        Seq::empty()
    } else if rows.last().tmux_target@ == target {
        members(rows.drop_last(), target).push(rows.last())
    } else {
        members(rows.drop_last(), target)
    }
}

/// The exact sum of one memory figure over `rows`.
pub open spec fn total(rows: Seq<ProcRecord>, which: Measure) -> nat
    decreases rows.len(),
{
    if rows.len() == 0 {
        0
    } else {
        total(rows.drop_last(), which) + measure(rows.last(), which)
    }
}

/// The largest value of one scrollback figure over `rows`.
pub open spec fn richest(rows: Seq<ProcRecord>, which: Gauge) -> int
    decreases rows.len(),
{
    if rows.len() == 0 {
        0
    } else if rows.len() == 1 {
        gauge(rows[0], which)
    } else {
        let before = richest(rows.drop_last(), which);
        let here = gauge(rows.last(), which);
        if here > before {
            here
        } else {
            before
        }
    }
}

/// The pids of `rows`, in their order.
pub open spec fn pids_of(rows: Seq<ProcRecord>) -> Seq<i32> {
    Seq::new(rows.len(), |i: int| rows[i].pid)
}

/// Whether `p` is the summary of the rows `group` of one pane: it names the
/// pane as its first row does, lists the pids in order, holds each memory
/// figure summed (and held to the range of `u64`), and each scrollback
/// figure at the largest value any row reports.
pub open spec fn summarizes(p: PaneRecord, group: Seq<ProcRecord>) -> bool {
    &&& group.len() > 0
    &&& p.tmux_target@ == group[0].tmux_target@
    &&& p.tmux_window_name@ == group[0].tmux_window_name@
    &&& p.process_count == group.len()
    &&& p.pids@ == pids_of(group)
    &&& p.swap_bytes == clamp(total(group, Measure::Swap))
    &&& p.physical_bytes == clamp(total(group, Measure::Physical))
    &&& p.rss_bytes == clamp(total(group, Measure::Resident))
    &&& p.pane_history_size == richest(group, Gauge::Lines)
    &&& p.pane_history_limit == richest(group, Gauge::Limit)
    &&& p.pane_history_bytes == richest(group, Gauge::Bytes)
}

/// The panes that `rows` name, each once, in the order in which they first
/// appear.
pub open spec fn pane_targets(rows: Seq<ProcRecord>) -> Seq<Seq<char>>
    decreases rows.len(),
{
    if rows.len() == 0 {
        Seq::empty()
    } else {
        let before = pane_targets(rows.drop_last());
        if before.contains(rows.last().tmux_target@) {
            before
        } else {
            before.push(rows.last().tmux_target@)
        }
    }
}

/// The panes that the pane rows name, in their order.
pub open spec fn targets_of(panes: Seq<PaneRecord>) -> Seq<Seq<char>> {
    Seq::new(panes.len(), |i: int| panes[i].tmux_target@)
}

/// The scrollback bytes of the panes `targets` taken together, each pane
/// counted once with the largest figure that any of its rows reports.
pub open spec fn history_total(rows: Seq<ProcRecord>, targets: Seq<Seq<char>>) -> nat
    decreases targets.len(),
{
    if targets.len() == 0 {
        0
    } else {
        history_total(rows, targets.drop_last()) + richest(
            members(rows, targets.last()),
            Gauge::Bytes,
        ) as nat
    }
}

/// Whether no two pane rows name the same pane.
pub open spec fn distinct_targets(panes: Seq<PaneRecord>) -> bool {
    forall|i: int, j: int|
        0 <= i < j < panes.len() ==> panes[i].tmux_target@ != panes[j].tmux_target@
}

/// Whether one of `panes` names the pane `target`.
pub open spec fn has_pane(panes: Seq<PaneRecord>, target: Seq<char>) -> bool {
    exists|i: int| 0 <= i < panes.len() && (#[trigger] panes[i]).tmux_target@ == target
}

/// Whether every row of `rows` finds its pane among `panes`.
pub open spec fn covers(panes: Seq<PaneRecord>, rows: Seq<ProcRecord>) -> bool {
    forall|k: int| 0 <= k < rows.len() ==> has_pane(panes, (#[trigger] rows[k]).tmux_target@)
}

/// Whether every pane row is the summary of the rows of its pane.
pub open spec fn summarizes_all(panes: Seq<PaneRecord>, rows: Seq<ProcRecord>) -> bool {
    forall|i: int|
        0 <= i < panes.len() ==> summarizes(
            #[trigger] panes[i],
            members(rows, panes[i].tmux_target@),
        )
}

/// Every row of a pane's members carries that pane's target.
pub proof fn lemma_members_belong(rows: Seq<ProcRecord>, target: Seq<char>)
    ensures
        forall|i: int|
            0 <= i < members(rows, target).len() ==> (#[trigger] members(
                rows,
                target,
            )[i]).tmux_target@ == target,
        members(rows, target).len() <= rows.len(),
    decreases rows.len(),
{
    if rows.len() > 0 {
        lemma_members_belong(rows.drop_last(), target);
    }
}

/// A pane that no row names has no members.
pub proof fn lemma_members_of_stranger(rows: Seq<ProcRecord>, target: Seq<char>)
    requires
        forall|k: int| 0 <= k < rows.len() ==> (#[trigger] rows[k]).tmux_target@ != target,
    ensures
        members(rows, target).len() == 0,
    decreases rows.len(),
{
    if rows.len() > 0 {
        assert(rows.last() == rows[rows.len() - 1]);
        lemma_members_of_stranger(rows.drop_last(), target);
    }
}

/// The richest value is reached by some row and exceeded by none.
pub proof fn lemma_richest_is_maximum(rows: Seq<ProcRecord>, which: Gauge)
    requires
        rows.len() > 0,
    ensures
        forall|i: int| 0 <= i < rows.len() ==> gauge(#[trigger] rows[i], which) <= richest(rows, which),
        exists|i: int| 0 <= i < rows.len() && gauge(#[trigger] rows[i], which) == richest(rows, which),
    decreases rows.len(),
{
    if rows.len() > 1 {
        let before = rows.drop_last();
        lemma_richest_is_maximum(before, which);
        let w = choose|i: int| 0 <= i < before.len() && gauge(#[trigger] before[i], which) == richest(before, which);
        assert(before[w] == rows[w]);
        assert forall|i: int| 0 <= i < rows.len() implies gauge(#[trigger] rows[i], which) <= richest(
            rows,
            which,
        ) by {
            if i < rows.len() - 1 {
                assert(before[i] == rows[i]);
            }
        }
        if gauge(rows.last(), which) > richest(before, which) {
            assert(gauge(rows[rows.len() - 1], which) == richest(rows, which));
        } else {
            assert(gauge(rows[w], which) == richest(rows, which));
        }
    } else {
        assert(gauge(rows[0], which) == richest(rows, which));
    }
}

/// The position of the pane row for `target`, or `panes.len()` where there
/// is none.
fn find_pane(panes: &Vec<PaneRecord>, target: &String) -> (at: usize)
    ensures
        at <= panes.len(),
        at < panes.len() ==> panes[at as int].tmux_target@ == target@,
        at == panes.len() ==> forall|g: int|
            0 <= g < panes.len() ==> (#[trigger] panes[g]).tmux_target@ != target@,
{
    let mut at: usize = 0;
    while at < panes.len()
        invariant
            at <= panes.len(),
            forall|g: int| 0 <= g < at ==> (#[trigger] panes[g]).tmux_target@ != target@,
        decreases panes.len() - at,
    {
        if panes[at].tmux_target == *target {
            return at;
        }
        at += 1;
    }
    at
}

/// The pane row of a pane whose first process is `row`.
fn open_pane(row: &ProcRecord) -> (p: PaneRecord)
    ensures
        summarizes(p, seq![*row]),
{
    let mut pids: Vec<i32> = Vec::new();
    pids.push(row.pid);
    let p = PaneRecord {
        tmux_target: row.tmux_target.clone(),
        tmux_window_name: row.tmux_window_name.clone(),
        process_count: 1,
        pids,
        swap_bytes: row.swap_bytes,
        physical_bytes: row.physical_bytes,
        rss_bytes: row.rss_bytes,
        pane_history_size: row.pane_history_size,
        pane_history_limit: row.pane_history_limit,
        pane_history_bytes: row.pane_history_bytes,
    };
    proof {
        let group = seq![*row];
        assert(group.drop_last() == Seq::<ProcRecord>::empty());
        assert(group.last() == *row);
        reveal_with_fuel(total, 2);
        assert(total(group, Measure::Swap) == row.swap_bytes);
        assert(total(group, Measure::Physical) == row.physical_bytes);
        assert(total(group, Measure::Resident) == row.rss_bytes);
        assert(p.pids@ == pids_of(group));
    }
    p
}

/// The pane row `p` with one more process, `row`, taken in.
fn take_in(p: PaneRecord, row: &ProcRecord, Ghost(group): Ghost<Seq<ProcRecord>>) -> (r: PaneRecord)
    requires
        summarizes(p, group),
        group.len() < usize::MAX,
    ensures
        summarizes(r, group.push(*row)),
        r.tmux_target == p.tmux_target,
{
    let mut r = p;
    r.process_count = r.process_count + 1;
    r.pids.push(row.pid);
    r.swap_bytes = r.swap_bytes.saturating_add(row.swap_bytes);
    r.physical_bytes = r.physical_bytes.saturating_add(row.physical_bytes);
    r.rss_bytes = r.rss_bytes.saturating_add(row.rss_bytes);
    if row.pane_history_size > r.pane_history_size {
        r.pane_history_size = row.pane_history_size;
    }
    if row.pane_history_limit > r.pane_history_limit {
        r.pane_history_limit = row.pane_history_limit;
    }
    if row.pane_history_bytes > r.pane_history_bytes {
        r.pane_history_bytes = row.pane_history_bytes;
    }
    proof {
        let grown = group.push(*row);
        assert(grown.drop_last() == group);
        assert(grown.last() == *row);
        assert(grown[0] == group[0]);
        assert(r.pids@ == pids_of(grown));
    }
    r
}

/// Folds process rows into one row per pane, the panes in the order in
/// which they first appear among `rows`.
pub fn group_by_pane(rows: &[ProcRecord]) -> (groups: Vec<PaneRecord>)
    ensures
        targets_of(groups@) == pane_targets(rows@),
        distinct_targets(groups@),
        summarizes_all(groups@, rows@),
        covers(groups@, rows@),
{
    let mut groups: Vec<PaneRecord> = Vec::new();
    let mut k: usize = 0;
    assert(targets_of(groups@) == pane_targets(rows@.take(0)));
    while k < rows.len()
        invariant
            k <= rows.len(),
            targets_of(groups@) == pane_targets(rows@.take(k as int)),
            distinct_targets(groups@),
            summarizes_all(groups@, rows@.take(k as int)),
            covers(groups@, rows@.take(k as int)),
        decreases rows.len() - k,
    {
        let row = &rows[k];
        let ghost seen = rows@.take(k as int);
        let ghost next = rows@.take(k + 1);
        let ghost old_groups = groups@;
        proof {
            assert(next.drop_last() == seen);
            assert(next.last() == *row);
        }
        let at = find_pane(&groups, &row.tmux_target);
        if at < groups.len() {
            let p = groups.remove(at);
            let ghost group = members(seen, p.tmux_target@);
            proof {
                assert(p == old_groups[at as int]);
                lemma_members_belong(seen, p.tmux_target@);
            }
            let r = take_in(p, row, Ghost(group));
            groups.insert(at, r);
            proof {
                assert(groups@ == old_groups.update(at as int, r));
                assert(targets_of(old_groups)[at as int] == row.tmux_target@);
                assert(targets_of(groups@) == targets_of(old_groups));
                assert forall|i: int| 0 <= i < groups@.len() implies summarizes(
                    #[trigger] groups@[i],
                    members(next, groups@[i].tmux_target@),
                ) by {
                    if i != at {
                        assert(groups@[i] == old_groups[i]);
                        if i < at {
                            assert(old_groups[i].tmux_target@ != old_groups[at as int].tmux_target@);
                        } else {
                            assert(old_groups[at as int].tmux_target@ != old_groups[i].tmux_target@);
                        }
                    }
                }
                assert forall|j: int| 0 <= j < next.len() implies has_pane(
                    groups@,
                    (#[trigger] next[j]).tmux_target@,
                ) by {
                    if j < k {
                        assert(next[j] == seen[j]);
                        assert(has_pane(old_groups, seen[j].tmux_target@));
                        let i = choose|i: int|
                            0 <= i < old_groups.len() && (#[trigger] old_groups[i]).tmux_target@
                                == seen[j].tmux_target@;
                        assert(groups@[i].tmux_target@ == old_groups[i].tmux_target@);
                    } else {
                        assert(groups@[at as int].tmux_target@ == next[j].tmux_target@);
                    }
                }
            }
        } else {
            let p = open_pane(row);
            groups.push(p);
            proof {
                assert forall|j: int| 0 <= j < seen.len() implies (#[trigger] seen[j]).tmux_target@
                    != row.tmux_target@ by {
                    assert(has_pane(old_groups, seen[j].tmux_target@));
                    let i = choose|i: int|
                        0 <= i < old_groups.len() && (#[trigger] old_groups[i]).tmux_target@
                            == seen[j].tmux_target@;
                }
                lemma_members_of_stranger(seen, row.tmux_target@);
                assert(members(next, row.tmux_target@) == seq![*row]);
                if targets_of(old_groups).contains(row.tmux_target@) {
                    let i = choose|i: int|
                        0 <= i < old_groups.len() && targets_of(old_groups)[i] == row.tmux_target@;
                    assert(old_groups[i].tmux_target@ == row.tmux_target@);
                }
                assert(targets_of(groups@) == targets_of(old_groups).push(row.tmux_target@));
                assert forall|i: int| 0 <= i < groups@.len() implies summarizes(
                    #[trigger] groups@[i],
                    members(next, groups@[i].tmux_target@),
                ) by {
                    if i < old_groups.len() {
                        assert(groups@[i] == old_groups[i]);
                    }
                }
                assert forall|j: int| 0 <= j < next.len() implies has_pane(
                    groups@,
                    (#[trigger] next[j]).tmux_target@,
                ) by {
                    if j < k {
                        assert(next[j] == seen[j]);
                        assert(has_pane(old_groups, seen[j].tmux_target@));
                        let i = choose|i: int|
                            0 <= i < old_groups.len() && (#[trigger] old_groups[i]).tmux_target@
                                == seen[j].tmux_target@;
                        assert(groups@[i] == old_groups[i]);
                    } else {
                        assert(groups@[old_groups.len() as int].tmux_target@ == next[j].tmux_target@);
                    }
                }
            }
        }
        k += 1;
    }
    assert(rows@.take(k as int) == rows@);
    groups
}

/// Folds process rows into one row per pane.
///
/// Rows belong together when they carry the same target; rows without a
/// pane carry `?` and so form one pane of their own. Each pane row counts
/// and lists its processes in the order of `rows`, adds up swap, physical and
/// resident bytes (a sum beyond `u64` stays at the largest `u64`), and keeps
/// for each scrollback figure the largest value that any of its rows
/// reports. The pane rows come in report order.
pub fn aggregate_by_pane(rows: &[ProcRecord]) -> (panes: Vec<PaneRecord>)
    ensures
        ordered(panes@),
        distinct_targets(panes@),
        summarizes_all(panes@, rows@),
        covers(panes@, rows@),
        forall|i: int| 0 <= i < panes.len() ==> (#[trigger] panes[i]).process_count == panes[i].pids.len(),
{
    let groups = group_by_pane(rows);
    let ghost grouped = groups@;
    let panes = sort_ranked(groups);
    proof {
        lemma_ranking_keeps_panes(grouped, panes@, rows@);
    }
    panes
}

/// The scrollback bytes of all panes that `rows` name, each pane counted
/// once however many of its processes are listed. A sum beyond `u64` stays
/// at the largest `u64`.
pub fn unique_history_bytes(rows: &[ProcRecord]) -> (bytes: u64)
    ensures
        bytes == clamp(history_total(rows@, pane_targets(rows@))),
{
    let groups = group_by_pane(rows);
    let ghost targets = pane_targets(rows@);
    let mut bytes: u64 = 0;
    let mut i: usize = 0;
    assert(targets.take(0) == Seq::<Seq<char>>::empty());
    while i < groups.len()
        invariant
            i <= groups.len(),
            targets == pane_targets(rows@),
            targets_of(groups@) == targets,
            summarizes_all(groups@, rows@),
            bytes == clamp(history_total(rows@, targets.take(i as int))),
        decreases groups.len() - i,
    {
        proof {
            assert(targets.take(i + 1).drop_last() == targets.take(i as int));
            assert(targets.take(i + 1).last() == targets_of(groups@)[i as int]);
            assert(summarizes(groups@[i as int], members(rows@, groups@[i as int].tmux_target@)));
        }
        bytes = bytes.saturating_add(groups[i].pane_history_bytes);
        i += 1;
    }
    assert(targets.take(groups.len() as int) == targets);
    bytes
}

/// Putting pane rows in order changes neither which panes there are nor
/// what is said of each.
proof fn lemma_ranking_keeps_panes(
    grouped: Seq<PaneRecord>,
    panes: Seq<PaneRecord>,
    rows: Seq<ProcRecord>,
)
    requires
        is_ranking_of(panes, grouped),
        distinct_targets(grouped),
        summarizes_all(grouped, rows),
        covers(grouped, rows),
    ensures
        distinct_targets(panes),
        summarizes_all(panes, rows),
        covers(panes, rows),
        forall|i: int| 0 <= i < panes.len() ==> (#[trigger] panes[i]).process_count == panes[i].pids.len(),
{
    broadcast use vstd::multiset::group_multiset_axioms;

    assert(grouped.no_duplicates());
    grouped.lemma_multiset_has_no_duplicates();
    panes.lemma_multiset_has_no_duplicates_conv();
    assert forall|i: int| 0 <= i < panes.len() implies grouped.contains(#[trigger] panes[i]) by {
        assert(panes.contains(panes[i]));
        vstd::seq_lib::to_multiset_contains(panes, panes[i]);
        vstd::seq_lib::to_multiset_contains(grouped, panes[i]);
    }
    assert forall|i: int| 0 <= i < panes.len() implies summarizes(
        #[trigger] panes[i],
        members(rows, panes[i].tmux_target@),
    ) && panes[i].process_count == panes[i].pids.len() by {
        assert(grouped.contains(panes[i]));
        let g = choose|g: int| 0 <= g < grouped.len() && grouped[g] == panes[i];
        assert(summarizes(grouped[g], members(rows, grouped[g].tmux_target@)));
    }
    assert forall|i: int, j: int| 0 <= i < j < panes.len() implies panes[i].tmux_target@
        != panes[j].tmux_target@ by {
        assert(grouped.contains(panes[i]));
        assert(grouped.contains(panes[j]));
        let gi = choose|g: int| 0 <= g < grouped.len() && grouped[g] == panes[i];
        let gj = choose|g: int| 0 <= g < grouped.len() && grouped[g] == panes[j];
        assert(panes[i] != panes[j]);
        if gi < gj {
            assert(grouped[gi].tmux_target@ != grouped[gj].tmux_target@);
        } else {
            assert(grouped[gj].tmux_target@ != grouped[gi].tmux_target@);
        }
    }
    assert forall|k: int| 0 <= k < rows.len() implies has_pane(
        panes,
        (#[trigger] rows[k]).tmux_target@,
    ) by {
        assert(has_pane(grouped, rows[k].tmux_target@));
        let g = choose|g: int|
            0 <= g < grouped.len() && (#[trigger] grouped[g]).tmux_target@ == rows[k].tmux_target@;
        assert(grouped.contains(grouped[g]));
        vstd::seq_lib::to_multiset_contains(grouped, grouped[g]);
        vstd::seq_lib::to_multiset_contains(panes, grouped[g]);
        let i = choose|i: int| 0 <= i < panes.len() && panes[i] == grouped[g];
        assert(panes[i].tmux_target@ == rows[k].tmux_target@);
    }
}

} // verus!
