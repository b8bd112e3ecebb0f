//! Building the row of one process from what the tools said of it.
//!
//! The caller asks the tools and hands over their answers: the text a tool
//! printed, or nothing where it failed. A failed answer never ends a run;
//! it leaves the figure at zero, the command at `<unavailable>`, or the
//! process without a pane.

use vstd::prelude::*;
use std::collections::HashMap;
use crate::ancestry::{answered, find_owning_pane, moves_on_from, owner_from};
use crate::decimal::parse_u64_spec;
use crate::model::{PaneInfo, ProcRecord};
use crate::size::clamp;
use crate::snapshot::{
    byte_length, capture_pane_bytes, ps_command, ps_rss_bytes, scan_summary, vmmap_memory,
};
use crate::text::{from_chars, lines, push_text, same_chars, to_chars, trim};

verus! {

/// The scrollback sizes measured so far in a run, by pane target. A pane's
/// scrollback is the same for every process in it, so it is measured once.
pub struct HistoryCache {
    entries: Vec<(String, u64)>,
}

/// The sizes that a list of measurements holds, a later measurement of a
/// pane replacing an earlier one.
pub open spec fn sizes_by_target(entries: Seq<(String, u64)>) -> Map<Seq<char>, u64>
    decreases entries.len(),
{
    if entries.len() == 0 {
        Map::empty()
    } else {
        sizes_by_target(entries.drop_last()).insert(entries.last().0@, entries.last().1)
    }
}

impl View for HistoryCache {
    type V = Map<Seq<char>, u64>;

    closed spec fn view(&self) -> Map<Seq<char>, u64> {
        sizes_by_target(self.entries@)
    }
}

impl HistoryCache {
    /// A cache without measurements.
    pub fn new() -> (cache: Self)
        ensures
            cache@ == Map::<Seq<char>, u64>::empty(),
    {
        HistoryCache { entries: Vec::new() }
    }

    /// The size measured for `target`, if there is one.
    pub fn get(&self, target: &str) -> (size: Option<u64>)
        ensures
            size == (if self@.contains_key(target@) {
                Some(self@[target@])
            } else {
                None
            }),
    {
        let wanted = to_chars(target);
        let mut i: usize = self.entries.len();
        assert(self.entries@.take(i as int) == self.entries@);
        while i > 0
            invariant
                i <= self.entries.len(),
                wanted@ == target@,
                self@.contains_key(target@) == sizes_by_target(
                    self.entries@.take(i as int),
                ).contains_key(target@),
                self@.contains_key(target@) ==> self@[target@] == sizes_by_target(
                    self.entries@.take(i as int),
                )[target@],
            decreases i,
        {
            let here = to_chars(self.entries[i - 1].0.as_str());
            proof {
                let upto = self.entries@.take(i as int);
                assert(upto.drop_last() == self.entries@.take(i - 1));
                assert(upto.last() == self.entries@[i - 1]);
            }
            if same_chars(&here, &wanted) {
                return Some(self.entries[i - 1].1);
            }
            i -= 1;
        }
        None
    }

    /// Keeps `size` as the measurement of `target`.
    pub fn insert(&mut self, target: &str, size: u64)
        ensures
            final(self)@ == old(self)@.insert(target@, size),
    {
        let ghost before = self.entries@;
        let name = from_chars(&to_chars(target));
        self.entries.push((name, size));
        assert(self.entries@.drop_last() == before);
    }
}

/// The command of a process from the process lister's answer: what it
/// printed, white space around it dropped, or `<unavailable>` where it
/// failed.
pub open spec fn command_from_answer(answer: Option<String>) -> Seq<char> {
    match answer {
        Some(text) => trim(text@),
        None => "<unavailable>"@,
    }
}

/// The resident bytes of a process from the process lister's answer, which
/// counts kibibytes. A failed or unreadable answer gives 0.
pub open spec fn rss_from_answer(answer: Option<String>) -> u64 {
    match answer {
        Some(text) => match parse_u64_spec(trim(text@)) {
            Some(kb) => clamp((kb * 1024) as nat),
            None => 0,
        },
        None => 0,
    }
}

/// Swap and physical bytes of a process from the memory-map summary. A
/// failed answer gives 0 for both.
pub open spec fn memory_from_answer(answer: Option<String>) -> (u64, u64) {
    match answer {
        Some(text) => scan_summary(lines(text@), 0, 0),
        None => (0, 0),
    }
}

/// The scrollback bytes of a pane from the multiplexer's answer: the
/// length of what it printed, or 0 where it failed.
pub open spec fn history_from_answer(answer: Option<String>) -> u64 {
    match answer {
        Some(text) => byte_length(text@) as u64,
        None => 0,
    }
}

/// Whether `bytes` is what `capture` can have measured for the pane
/// `target`.
pub open spec fn measured<C: Fn(&str) -> Option<String>>(
    capture: &C,
    target: Seq<char>,
    bytes: u64,
) -> bool {
    exists|asked: &str, answer: Option<String>|
        asked@ == target && #[trigger] capture.ensures((asked,), answer) && bytes
            == history_from_answer(answer)
}

/// Whether `row` names its pane as it should: with the target, window name
/// and history counters of `owner` and the scrollback bytes `history`, or,
/// for a process without a pane, with `?` for both names, `-1` for both
/// counters and no bytes.
pub open spec fn attributed(row: ProcRecord, owner: Option<PaneInfo>, history: u64) -> bool {
    match owner {
        Some(pane) => {
            &&& row.tmux_target@ == pane.target@
            &&& row.tmux_window_name@ == pane.window_name@
            &&& row.pane_history_size == pane.history_size
            &&& row.pane_history_limit == pane.history_limit
            &&& row.pane_history_bytes == history
        },
        None => {
            &&& row.tmux_target@ == "?"@
            &&& row.tmux_window_name@ == "?"@
            &&& row.pane_history_size == -1
            &&& row.pane_history_limit == -1
            &&& row.pane_history_bytes == 0
        },
    }
}

/// The history size of a row tells whether the process has a pane: it is
/// negative for a process without one, and for no other, as long as panes
/// are well formed.
pub proof fn lemma_history_size_tells_owner(row: ProcRecord, owner: Option<PaneInfo>, history: u64)
    requires
        attributed(row, owner, history),
        owner is Some ==> owner->Some_0.well_formed(),
    ensures
        row.pane_history_size >= 0 <==> owner is Some,
{
}

/// The scrollback bytes of the pane `target`: 0 where `skip` says not to
/// measure, else the size in `cache`, else what `capture` measures, which
/// `cache` then keeps. A failed measurement counts as 0 and is kept too.
pub fn pane_history_bytes<C: Fn(&str) -> Option<String>>(
    target: &str,
    skip: bool,
    cache: &mut HistoryCache,
    capture: &C,
) -> (bytes: u64)
    requires
        forall|t: &str| capture.requires((t,)),
    ensures
        skip ==> bytes == 0 && final(cache)@ == old(cache)@,
        !skip && old(cache)@.contains_key(target@) ==> bytes == old(cache)@[target@]
            && final(cache)@ == old(cache)@,
        !skip && !old(cache)@.contains_key(target@) ==> measured(capture, target@, bytes)
            && final(cache)@ == old(cache)@.insert(target@, bytes),
{
    if skip {
        return 0;
    }
    match cache.get(target) {
        Some(known) => known,
        None => {
            let answer = capture(target);
            let bytes = match &answer {
                Some(out) => capture_pane_bytes(out.as_str()),
                None => 0,
            };
            assert(capture.ensures((target,), answer) && bytes == history_from_answer(answer));
            cache.insert(target, bytes);
            bytes
        },
    }
}

/// The panes by the pid of their root process. Where two panes name the
/// same root, the later one stands.
pub fn index_panes(panes: &[PaneInfo]) -> (by_pid: HashMap<i32, PaneInfo>)
    ensures
        forall|pid: i32|
            by_pid@.contains_key(pid) <==> exists|i: int|
                0 <= i < panes.len() && (#[trigger] panes[i]).pane_pid == pid,
        forall|i: int|
            0 <= i < panes.len() && (forall|j: int|
                i < j < panes.len() ==> (#[trigger] panes[j]).pane_pid != panes[i].pane_pid)
                ==> by_pid@[(#[trigger] panes[i]).pane_pid] == panes[i],
{
    broadcast use vstd::std_specs::hash::group_hash_axioms;

    let mut by_pid: HashMap<i32, PaneInfo> = HashMap::new();
    let mut k: usize = 0;
    while k < panes.len()
        invariant
            k <= panes.len(),
            forall|pid: i32|
                by_pid@.contains_key(pid) <==> exists|i: int|
                    0 <= i < k && (#[trigger] panes[i]).pane_pid == pid,
            forall|i: int|
                0 <= i < k && (forall|j: int|
                    i < j < k ==> (#[trigger] panes[j]).pane_pid != panes[i].pane_pid)
                    ==> by_pid@[(#[trigger] panes[i]).pane_pid] == panes[i],
        decreases panes.len() - k,
    {
        let ghost before = by_pid@;
        by_pid.insert(panes[k].pane_pid, panes[k].clone());
        proof {
            assert forall|pid: i32|
                by_pid@.contains_key(pid) <==> exists|i: int|
                    0 <= i < k + 1 && (#[trigger] panes[i]).pane_pid == pid by {
                if pid == panes[k as int].pane_pid {
                    assert(panes[k as int].pane_pid == pid);
                }
                if before.contains_key(pid) {
                    let i = choose|i: int| 0 <= i < k && (#[trigger] panes[i]).pane_pid == pid;
                    assert(0 <= i < k + 1 && panes[i].pane_pid == pid);
                }
                if exists|i: int| 0 <= i < k + 1 && (#[trigger] panes[i]).pane_pid == pid {
                    let i = choose|i: int| 0 <= i < k + 1 && (#[trigger] panes[i]).pane_pid == pid;
                    if i < k {
                        assert(0 <= i < k && panes[i].pane_pid == pid);
                    }
                }
            }
            assert forall|i: int|
                0 <= i < k + 1 && (forall|j: int|
                    i < j < k + 1 ==> (#[trigger] panes[j]).pane_pid != panes[i].pane_pid) implies by_pid@[(
                #[trigger] panes[i]).pane_pid] == panes[i] by {
                if i < k {
                    assert(panes[k as int].pane_pid != panes[i].pane_pid);
                    assert forall|j: int| i < j < k implies (#[trigger] panes[j]).pane_pid != panes[i].pane_pid by {}
                }
            }
        }
        k += 1;
    }
    by_pid
}

/// Builds the row of the process `pid`.
///
/// `command`, `rss` and `vmmap` are what the tools answered for the process.
/// Its pane is found by `find_owning_pane`, which may ask `lookup` for parent
/// ids and keeps them in `ppid_cache`. The scrollback of the pane comes from
/// `pane_history_bytes`, which may ask `capture` once per pane and keeps the
/// answer in `history_cache`; with `no_history_bytes` nothing is measured.
pub fn record_process<P: Fn(i32) -> Option<String>, C: Fn(&str) -> Option<String>>(
    pid: i32,
    command: &Option<String>,
    rss: &Option<String>,
    vmmap: &Option<String>,
    pane_by_pid: &HashMap<i32, PaneInfo>,
    ppid_cache: &mut HashMap<i32, i32>,
    history_cache: &mut HistoryCache,
    no_history_bytes: bool,
    lookup: &P,
    capture: &C,
) -> (row: ProcRecord)
    requires
        forall|p: i32| p > 0 ==> lookup.requires((p,)),
        forall|t: &str| capture.requires((t,)),
    ensures
        row.pid == pid,
        row.command@ == command_from_answer(*command),
        row.rss_bytes == rss_from_answer(*rss),
        (row.swap_bytes, row.physical_bytes) == memory_from_answer(*vmmap),
        attributed(
            row,
            owner_from(pane_by_pid@, final(ppid_cache)@, pid, 0),
            row.pane_history_bytes,
        ),
        forall|k: i32|
            final(ppid_cache)@.contains_key(k) <==> old(ppid_cache)@.contains_key(k)
                || moves_on_from(pane_by_pid@, final(ppid_cache)@, pid, 0, k),
        forall|k: i32|
            old(ppid_cache)@.contains_key(k) ==> final(ppid_cache)@[k] == old(ppid_cache)@[k],
        forall|k: i32|
            final(ppid_cache)@.contains_key(k) && !old(ppid_cache)@.contains_key(k) ==> answered(
                lookup,
                k,
                final(ppid_cache)@[k],
            ),
        owner_from(pane_by_pid@, final(ppid_cache)@, pid, 0) is None ==> final(history_cache)@
            == old(history_cache)@,
        owner_from(pane_by_pid@, final(ppid_cache)@, pid, 0) is Some ==> {
            let target = row.tmux_target@;
            let before = old(history_cache)@;
            let after = final(history_cache)@;
            if no_history_bytes {
                row.pane_history_bytes == 0 && after == before
            } else if before.contains_key(target) {
                row.pane_history_bytes == before[target] && after == before
            } else {
                after == before.insert(target, row.pane_history_bytes) && measured(
                    capture,
                    target,
                    row.pane_history_bytes,
                )
            }
        },
{
    let command_text = match command {
        Some(raw) => ps_command(raw.as_str()),
        None => {
            let mut text = String::new();
            push_text(&mut text, "<unavailable>");
            assert(Seq::<char>::empty() + "<unavailable>"@ == "<unavailable>"@);
            text
        },
    };
    let rss_bytes = match rss {
        Some(raw) => ps_rss_bytes(raw.as_str()),
        None => 0,
    };
    let (swap_bytes, physical_bytes) = match vmmap {
        Some(raw) => vmmap_memory(raw.as_str()),
        None => (0, 0),
    };
    let owner = find_owning_pane(pid, pane_by_pid, ppid_cache, lookup);
    match owner {
        Some(pane) => {
            let target = pane.target.as_str();
            let pane_history_bytes = pane_history_bytes(
                target,
                no_history_bytes,
                history_cache,
                capture,
            );
            ProcRecord {
                pid,
                command: command_text,
                swap_bytes,
                physical_bytes,
                rss_bytes,
                tmux_target: pane.target,
                tmux_window_name: pane.window_name,
                pane_history_size: pane.history_size,
                pane_history_limit: pane.history_limit,
                pane_history_bytes,
            }
        },
        None => {
            let mut unknown_target = String::new();
            push_text(&mut unknown_target, "?");
            let mut unknown_window = String::new();
            push_text(&mut unknown_window, "?");
            assert(Seq::<char>::empty() + "?"@ == "?"@);
            ProcRecord {
                pid,
                command: command_text,
                swap_bytes,
                physical_bytes,
                rss_bytes,
                tmux_target: unknown_target,
                tmux_window_name: unknown_window,
                pane_history_size: -1,
                pane_history_limit: -1,
                pane_history_bytes: 0,
            }
        },
    }
}

} // verus!
