//! Finding the pane that owns a process by walking up its chain of parents.
//!
//! Parent ids are expensive to come by, so every one that is looked up is
//! kept in a cache that the caller holds for the length of a run. The lookup
//! itself is the caller's: a function from a pid to the text that the
//! process lister printed for it, or nothing where the lister failed.

use vstd::prelude::*;
use std::collections::HashMap;
use crate::decimal::{parse_i32_chars, parse_i32_spec};
use crate::model::PaneInfo;
use crate::text::{to_chars, trim, trim_chars};

verus! {

/// The most parent links a walk follows before it gives up.
pub const MAX_HOPS: usize = 512;

/// The parent id that a lookup's answer stands for: the number it holds
/// once white space around it is dropped, and 0 where the lookup failed or
/// its answer is no number.
pub open spec fn parent_from_answer(answer: Option<Seq<char>>) -> i32 {
    match answer {
        Some(text) => match parse_i32_spec(trim(text)) {
            Some(ppid) => ppid,
            None => 0,
        },
        None => 0,
    }
}

/// The text of an answer, if there is one.
pub open spec fn answer_text(answer: Option<String>) -> Option<Seq<char>> {
    match answer {
        Some(text) => Some(text@),
        None => None,
    }
}

/// Whether `ppid` is what `lookup` can have said of `pid`.
pub open spec fn answered<F: Fn(i32) -> Option<String>>(lookup: &F, pid: i32, ppid: i32) -> bool {
    exists|answer: Option<String>|
        #[trigger] lookup.ensures((pid,), answer) && ppid == parent_from_answer(answer_text(answer))
}

/// The pane that owns `cur`, seen `hops` links into a walk: `cur` itself
/// where it is a pane's root process, else the owner of its parent. A pid
/// that is not positive, a parent that is not known, and a walk that has
/// run its full length have no owner.
pub open spec fn owner_from(
    panes: Map<i32, PaneInfo>,
    parents: Map<i32, i32>,
    cur: i32,
    hops: nat,
) -> Option<PaneInfo>
    decreases MAX_HOPS - hops,
{
    if cur <= 0 || hops >= MAX_HOPS {
        None
    } else if panes.contains_key(cur) {
        Some(panes[cur])
    } else if parents.contains_key(cur) {
        owner_from(panes, parents, parents[cur], hops + 1)
    } else {
        None
    }
}

/// Whether a walk that stands on `cur` after `hops` links moves on from the
/// pid `k`, now or later: `k` is then a pid whose parent the walk asks for.
pub open spec fn moves_on_from(
    panes: Map<i32, PaneInfo>,
    parents: Map<i32, i32>,
    cur: i32,
    hops: nat,
    k: i32,
) -> bool
    decreases MAX_HOPS - hops,
{
    if cur <= 0 || hops >= MAX_HOPS || panes.contains_key(cur) {
        false
    } else {
        cur == k || (parents.contains_key(cur) && moves_on_from(
            panes,
            parents,
            parents[cur],
            hops + 1,
            k,
        ))
    }
}

/// Whether a walk that stands on `cur` after `hops` links comes to stand on
/// the pid `k`, now or later, if nothing stops it but a pid that is not
/// positive, a parent that is not known, or its full length.
pub open spec fn stands_on(parents: Map<i32, i32>, cur: i32, hops: nat, k: i32) -> bool
    decreases MAX_HOPS - hops,
{
    if cur <= 0 || hops >= MAX_HOPS {
        false
    } else {
        cur == k || (parents.contains_key(cur) && stands_on(parents, parents[cur], hops + 1, k))
    }
}

/// An owner is the pane of a root process that the walk comes to stand on.
pub proof fn lemma_owner_is_on_the_way(
    panes: Map<i32, PaneInfo>,
    parents: Map<i32, i32>,
    cur: i32,
    hops: nat,
)
    requires
        owner_from(panes, parents, cur, hops) is Some,
    ensures
        exists|k: i32|
            #[trigger] stands_on(parents, cur, hops, k) && panes.contains_key(k) && Some(panes[k])
                == owner_from(panes, parents, cur, hops),
    decreases MAX_HOPS - hops,
{
    if panes.contains_key(cur) {
        assert(stands_on(parents, cur, hops, cur));
    } else {
        lemma_owner_is_on_the_way(panes, parents, parents[cur], hops + 1);
        let k = choose|k: i32|
            #[trigger] stands_on(parents, parents[cur], hops + 1, k) && panes.contains_key(k)
                && Some(panes[k]) == owner_from(panes, parents, parents[cur], hops + 1);
        assert(stands_on(parents, cur, hops, k));
    }
}

/// Where no pid on the way is the root process of a pane, there is no
/// owner.
pub proof fn lemma_no_pane_on_the_way(
    panes: Map<i32, PaneInfo>,
    parents: Map<i32, i32>,
    cur: i32,
    hops: nat,
)
    requires
        forall|k: i32| #[trigger] stands_on(parents, cur, hops, k) ==> !panes.contains_key(k),
    ensures
        owner_from(panes, parents, cur, hops) is None,
{
    if owner_from(panes, parents, cur, hops) is Some {
        lemma_owner_is_on_the_way(panes, parents, cur, hops);
    }
}

/// Whether `path` is the way a walk has come: each pid on it but the last
/// is positive, is no pane's root, and has the next one as its parent.
pub open spec fn is_path(panes: Map<i32, PaneInfo>, parents: Map<i32, i32>, path: Seq<i32>) -> bool {
    &&& 0 < path.len() <= MAX_HOPS + 1
    &&& forall|h: int|
        0 <= h < path.len() - 1 ==> {
            &&& (#[trigger] path[h]) > 0
            &&& !panes.contains_key(path[h])
            &&& parents.contains_key(path[h])
            &&& parents[path[h]] == path[h + 1]
        }
}

/// Whether `k` is one of the pids of `path` from position `from` on, the
/// last pid of the path left out.
pub open spec fn on_path(path: Seq<i32>, from: int, k: i32) -> bool {
    exists|h: int| from <= h < path.len() - 1 && #[trigger] path[h] == k
}

/// Whether `now` is the cache `before` with the parents of the pids of `path`
/// added, each as `lookup` can have answered.
pub open spec fn cache_grown<F: Fn(i32) -> Option<String>>(
    before: Map<i32, i32>,
    now: Map<i32, i32>,
    path: Seq<i32>,
    lookup: &F,
) -> bool {
    &&& forall|k: i32| now.contains_key(k) <==> before.contains_key(k) || on_path(path, 0, k)
    &&& forall|k: i32| before.contains_key(k) ==> now[k] == before[k]
    &&& forall|k: i32|
        now.contains_key(k) && !before.contains_key(k) ==> answered(lookup, k, #[trigger] now[k])
}

/// A walk that has come along `path` ends as the walk from the path's last
/// pid ends, and moves on from the pids of the path and from those that the
/// rest of the walk moves on from.
proof fn lemma_walk_along_path(
    panes: Map<i32, PaneInfo>,
    parents: Map<i32, i32>,
    path: Seq<i32>,
    from: int,
)
    requires
        is_path(panes, parents, path),
        0 <= from < path.len(),
    ensures
        owner_from(panes, parents, path[from], from as nat) == owner_from(
            panes,
            parents,
            path.last(),
            (path.len() - 1) as nat,
        ),
        forall|k: i32|
            #[trigger] moves_on_from(panes, parents, path[from], from as nat, k) <==> on_path(
                path,
                from,
                k,
            ) || moves_on_from(panes, parents, path.last(), (path.len() - 1) as nat, k),
    decreases path.len() - from,
{
    if from < path.len() - 1 {
        lemma_walk_along_path(panes, parents, path, from + 1);
        let cur = path[from];
        assert forall|k: i32|
            #[trigger] moves_on_from(panes, parents, path[from], from as nat, k) <==> on_path(
                path,
                from,
                k,
            ) || moves_on_from(panes, parents, path.last(), (path.len() - 1) as nat, k) by {
            assert(moves_on_from(panes, parents, path[from], from as nat, k) == (cur == k
                || moves_on_from(panes, parents, path[from + 1], (from + 1) as nat, k)));
            if cur == k {
                assert(path[from] == k);
            }
            if on_path(path, from, k) {
                let h = choose|h: int| from <= h < path.len() - 1 && #[trigger] path[h] == k;
                if h > from {
                    assert(from + 1 <= h < path.len() - 1 && path[h] == k);
                }
            }
            if on_path(path, from + 1, k) {
                let h = choose|h: int| from + 1 <= h < path.len() - 1 && #[trigger] path[h] == k;
                assert(from <= h < path.len() - 1 && path[h] == k);
            }
        }
    } else {
        assert forall|k: i32| !on_path(path, from, k) by {}
    }
}

/// Reads the parent id out of what a lookup answered.
pub fn parent_of_answer(answer: &Option<String>) -> (ppid: i32)
    ensures
        ppid == parent_from_answer(answer_text(*answer)),
{
    match answer {
        Some(text) => {
            let chars = to_chars(text.as_str());
            let trimmed = trim_chars(&chars);
            match parse_i32_chars(&trimmed) {
                Some(ppid) => ppid,
                None => 0,
            }
        },
        None => 0,
    }
}

/// The parent id of `pid`: from `cache` where it is there, else from
/// `lookup`, whose answer is then kept in `cache`. A lookup that fails, or
/// answers with anything but a number, counts as parent 0.
pub fn ps_ppid<F: Fn(i32) -> Option<String>>(
    pid: i32,
    cache: &mut HashMap<i32, i32>,
    lookup: &F,
) -> (ppid: i32)
    requires
        lookup.requires((pid,)),
    ensures
        old(cache)@.contains_key(pid) ==> ppid == old(cache)@[pid] && final(cache)@ == old(cache)@,
        !old(cache)@.contains_key(pid) ==> answered(lookup, pid, ppid)
            && final(cache)@ == old(cache)@.insert(pid, ppid),
{
    broadcast use vstd::std_specs::hash::group_hash_axioms;

    if let Some(known) = cache.get(&pid) {
        return *known;
    }
    let answer = lookup(pid);
    let ppid = parent_of_answer(&answer);
    cache.insert(pid, ppid);
    ppid
}

/// Finds the pane that owns `pid`.
///
/// The walk starts at `pid` and follows parent links. The first pid on the
/// way that is the root process of a pane decides: that pane is the owner.
/// The walk ends without an owner at a pid that is not positive, and after
/// `MAX_HOPS` links. Parent ids come from `ps_ppid`, so `cache` afterwards
/// holds, besides what it held, the parent of every pid that the walk moved
/// on from, and nothing else.
pub fn find_owning_pane<F: Fn(i32) -> Option<String>>(
    pid: i32,
    pane_by_pid: &HashMap<i32, PaneInfo>,
    ppid_cache: &mut HashMap<i32, i32>,
    lookup: &F,
) -> (owner: Option<PaneInfo>)
    requires
        forall|p: i32| p > 0 ==> lookup.requires((p,)),
    ensures
        owner == owner_from(pane_by_pid@, final(ppid_cache)@, pid, 0),
        forall|k: i32|
            final(ppid_cache)@.contains_key(k) <==> old(ppid_cache)@.contains_key(k)
                || moves_on_from(pane_by_pid@, final(ppid_cache)@, pid, 0, k),
        forall|k: i32|
            old(ppid_cache)@.contains_key(k) ==> final(ppid_cache)@[k] == old(ppid_cache)@[k],
        forall|k: i32|
            final(ppid_cache)@.contains_key(k) && !old(ppid_cache)@.contains_key(k) ==> answered(
                lookup,
                k,
                final(ppid_cache)@[k],
            ),
        pid > 0 && pane_by_pid@.contains_key(pid) ==> owner == Some(pane_by_pid@[pid])
            && final(ppid_cache)@ == old(ppid_cache)@,
{
    broadcast use vstd::std_specs::hash::group_hash_axioms;

    let mut cur = pid;
    let mut guard: usize = 0;
    let ghost mut path: Seq<i32> = seq![pid];
    let mut found: Option<PaneInfo> = None;
    while cur > 0 && guard < MAX_HOPS
        invariant_except_break
            found is None,
        invariant
            forall|p: i32| p > 0 ==> lookup.requires((p,)),
            guard <= MAX_HOPS,
            path.len() == guard + 1,
            path[0] == pid,
            path.last() == cur,
            is_path(pane_by_pid@, ppid_cache@, path),
            cache_grown(old(ppid_cache)@, ppid_cache@, path, lookup),
        ensures
            found == owner_from(pane_by_pid@, ppid_cache@, cur, guard as nat),
            forall|k: i32| !moves_on_from(pane_by_pid@, ppid_cache@, cur, guard as nat, k),
        decreases MAX_HOPS - guard,
    {
        if let Some(pane) = pane_by_pid.get(&cur) {
            found = Some(pane.clone());
            break ;
        }
        let ghost before = ppid_cache@;
        let ghost walked = path;
        let parent = ps_ppid(cur, ppid_cache, lookup);
        proof {
            path = walked.push(parent);
            assert forall|h: int| 0 <= h < path.len() - 1 implies {
                &&& (#[trigger] path[h]) > 0
                &&& !pane_by_pid@.contains_key(path[h])
                &&& ppid_cache@.contains_key(path[h])
                &&& ppid_cache@[path[h]] == path[h + 1]
            } by {
                if h < walked.len() - 1 {
                    assert(walked[h] == path[h]);
                    assert(before[walked[h]] == walked[h + 1]);
                }
            }
            assert forall|k: i32|
                ppid_cache@.contains_key(k) <==> old(ppid_cache)@.contains_key(k) || on_path(
                    path,
                    0,
                    k,
                ) by {
                if on_path(walked, 0, k) {
                    let h = choose|h: int| 0 <= h < walked.len() - 1 && #[trigger] walked[h] == k;
                    assert(path[h] == k);
                }
                if k == cur {
                    assert(path[guard as int] == k);
                }
                if on_path(path, 0, k) {
                    let h = choose|h: int| 0 <= h < path.len() - 1 && #[trigger] path[h] == k;
                    if h < walked.len() - 1 {
                        assert(walked[h] == k);
                    }
                }
            }
        }
        cur = parent;
        guard += 1;
    }
    proof {
        lemma_walk_along_path(pane_by_pid@, ppid_cache@, path, 0);
        assert forall|k: i32|
            ppid_cache@.contains_key(k) <==> old(ppid_cache)@.contains_key(k) || moves_on_from(
                pane_by_pid@,
                ppid_cache@,
                pid,
                0,
                k,
            ) by {
            if on_path(path, 0, k) {
                let h = choose|h: int| 0 <= h < path.len() - 1 && #[trigger] path[h] == k;
                assert(0 <= h < path.len() - 1 && path[h] == k);
            }
        }
        if pid > 0 && pane_by_pid@.contains_key(pid) {
            assert(ppid_cache@ =~= old(ppid_cache)@);
        }
    }
    found
}

} // verus!
