//! Reading what the process lister, the memory-map summarizer and the
//! multiplexer print. Each function takes the text that a tool printed and
//! gives the figures in it; running the tools is the caller's part.

use vstd::prelude::*;
use crate::decimal::{parse_i32_chars, parse_i32_spec, parse_i64_chars, parse_i64_spec, parse_u64_chars, parse_u64_spec};
use crate::model::{MatchMode, PaneInfo, PaneView};
use crate::size::{clamp, compact_bytes, compact_bytes_of};
use crate::text::{
    contains_run, contains_text, from_chars, lines, lines_chars, slice_chars, split, split_chars,
    starts_with, starts_with_text, to_chars, trim, trim_chars, trim_start, trim_start_chars,
    views, words, words_chars,
};

verus! {

/// The text of field `i` of a line, or the empty text where the line has
/// no such field.
pub open spec fn text_field(parts: Seq<Seq<char>>, i: int) -> Seq<char> {
    if 0 <= i < parts.len() {
        parts[i]
    } else {
        Seq::empty()
    }
}

/// The `i32` in field `i` of a line, white space around it dropped, or 0
/// where the field is missing or holds no such number.
pub open spec fn i32_field(parts: Seq<Seq<char>>, i: int) -> i32 {
    match parse_i32_spec(trim(text_field(parts, i))) {
        Some(n) => n,
        None => 0,
    }
}

/// The `i64` in field `i` of a line, white space around it dropped, or 0
/// where the field is missing or holds no such number.
pub open spec fn i64_field(parts: Seq<Seq<char>>, i: int) -> i64 {
    match parse_i64_spec(trim(text_field(parts, i))) {
        Some(n) => n,
        None => 0,
    }
}

/// The pane that one line of the multiplexer's list describes: target,
/// window name, root pid, history size and history limit, separated by tabs.
/// A line without a target or without a positive root pid describes none.
pub open spec fn pane_of_line(line: Seq<char>) -> Option<PaneView> {
    let parts = split(line, '\t');
    let pane = PaneView {
        target: text_field(parts, 0),
        window_name: text_field(parts, 1),
        pane_pid: i32_field(parts, 2),
        history_size: i64_field(parts, 3),
        history_limit: i64_field(parts, 4),
    };
    if pane.target.len() > 0 && pane.pane_pid > 0 {
        Some(pane)
    } else {
        None
    }
}

/// The panes that the lines of a list describe, in the order of the lines.
pub open spec fn panes_of_lines(all: Seq<Seq<char>>) -> Seq<PaneView>
    decreases all.len(),
{
    if all.len() == 0 {
        Seq::empty()
    } else {
        match pane_of_line(all.last()) {
            Some(pane) => panes_of_lines(all.drop_last()).push(pane),
            None => panes_of_lines(all.drop_last()),
        }
    }
}

/// What each pane of `panes` says.
pub open spec fn pane_views(panes: Seq<PaneInfo>) -> Seq<PaneView> {
    Seq::new(panes.len(), |i: int| panes[i]@)
}

/// The piece of a `Physical footprint:` line between its first and second
/// colon, read as a size; a piece without a word is zero.
pub open spec fn footprint_of(line: Seq<char>) -> u64 {
    let value = words(text_field(split(line, ':'), 1));
    if value.len() > 0 {
        compact_bytes(value[0])
    } else {
        0
    }
}

/// Whether a line, its leading white space dropped, is the summary's line
/// of totals.
pub open spec fn is_total_line(line: Seq<char>) -> bool {
    starts_with(line, "TOTAL"@) && !contains_run(line, "minus reserved"@)
}

/// The swap and physical figures of a memory-map summary, scanned line by
/// line from the figures `swap` and `physical` read so far. Every
/// `Physical footprint:` line sets the physical figure. The first line of
/// totals ends the scan; its fifth column, if it has one, is the swap
/// figure.
pub open spec fn scan_summary(all: Seq<Seq<char>>, swap: u64, physical: u64) -> (u64, u64)
    decreases all.len(),
{
    if all.len() == 0 {
        (swap, physical)
    } else {
        let line = trim_start(all[0]);
        let seen = if starts_with(line, "Physical footprint:"@) {
            footprint_of(line)
        } else {
            physical
        };
        if is_total_line(line) {
            let columns = words(line);
            if columns.len() >= 5 {
                (compact_bytes(columns[4]), seen)
            } else {
                (swap, seen)
            }
        } else {
            scan_summary(all.drop_first(), swap, seen)
        }
    }
}

/// The number of bytes that a text takes in UTF-8.
pub open spec fn byte_length(text: Seq<char>) -> usize {
    vstd::utf8::encode_utf8(text).len() as usize
}

/// Whether `pid` stands on one of the lines, white space around it dropped.
pub open spec fn lists_pid(all: Seq<Seq<char>>, pid: i32) -> bool {
    exists|i: int| 0 <= i < all.len() && parse_i32_spec(trim(#[trigger] all[i])) == Some(pid)
}

/// Whether `s` rises strictly from each item to the next.
pub open spec fn strictly_rising(s: Seq<i32>) -> bool {
    forall|i: int, j: int| 0 <= i < j < s.len() ==> s[i] < s[j]
}

/// The characters of field `i`, or none where there is no such field.
fn field_chars(parts: &Vec<Vec<char>>, i: usize) -> (r: Vec<char>)
    ensures
        r@ == text_field(views(parts@), i as int),
{
    if i < parts.len() {
        let r = slice_chars(&parts[i], 0, parts[i].len());
        assert(r@ == parts@[i as int]@);
        r
    } else {
        Vec::new()
    }
}

/// Reads field `i` as an `i32`.
fn read_i32_field(parts: &Vec<Vec<char>>, i: usize) -> (n: i32)
    ensures
        n == i32_field(views(parts@), i as int),
{
    let field = field_chars(parts, i);
    let trimmed = trim_chars(&field);
    match parse_i32_chars(&trimmed) {
        Some(n) => n,
        None => 0,
    }
}

/// Reads field `i` as an `i64`.
fn read_i64_field(parts: &Vec<Vec<char>>, i: usize) -> (n: i64)
    ensures
        n == i64_field(views(parts@), i as int),
{
    let field = field_chars(parts, i);
    let trimmed = trim_chars(&field);
    match parse_i64_chars(&trimmed) {
        Some(n) => n,
        None => 0,
    }
}

/// Reads the multiplexer's list of panes: one pane per line, its target,
/// window name, root pid, history size and history limit separated by tabs.
/// A number that is missing or cannot be read counts as 0. Lines without a
/// target or without a positive root pid are left out.
pub fn list_tmux_panes(raw: &str) -> (panes: Vec<PaneInfo>)
    ensures
        pane_views(panes@) == panes_of_lines(lines(raw@)),
        forall|i: int| 0 <= i < panes.len() ==> (#[trigger] panes[i]).target@.len() > 0 && panes[i].pane_pid > 0,
{
    let chars = to_chars(raw);
    let all = lines_chars(&chars);
    let mut panes: Vec<PaneInfo> = Vec::new();
    let mut i: usize = 0;
    assert(views(all@).take(0) == Seq::<Seq<char>>::empty());
    while i < all.len()
        invariant
            i <= all.len(),
            pane_views(panes@) == panes_of_lines(views(all@).take(i as int)),
            forall|k: int| 0 <= k < panes.len() ==> (#[trigger] panes[k]).target@.len() > 0 && panes[k].pane_pid > 0,
        decreases all.len() - i,
    {
        let parts = split_chars(&all[i], '\t');
        let target = from_chars(&field_chars(&parts, 0));
        let window_name = from_chars(&field_chars(&parts, 1));
        let pane_pid = read_i32_field(&parts, 2);
        let history_size = read_i64_field(&parts, 3);
        let history_limit = read_i64_field(&parts, 4);
        let ghost before = pane_views(panes@);
        proof {
            let upto = views(all@).take(i + 1);
            assert(upto.drop_last() == views(all@).take(i as int));
            assert(upto.last() == all@[i as int]@);
        }
        if target.as_str().unicode_len() > 0 && pane_pid > 0 {
            let pane = PaneInfo { target, window_name, pane_pid, history_size, history_limit };
            panes.push(pane);
            assert(pane_views(panes@) == before.push(pane@));
        }
        i += 1;
    }
    assert(views(all@).take(all.len() as int) == views(all@));
    panes
}

/// The command of a process as the process lister printed it, white space
/// around it dropped.
pub fn ps_command(raw: &str) -> (command: String)
    ensures
        command@ == trim(raw@),
{
    let chars = to_chars(raw);
    let trimmed = trim_chars(&chars);
    from_chars(&trimmed)
}

/// The resident size in bytes, from the number of kibibytes that the
/// process lister printed. A text that is no number counts as 0; a size
/// beyond `u64` stays at the largest `u64`.
pub fn ps_rss_bytes(raw: &str) -> (bytes: u64)
    ensures
        bytes == match parse_u64_spec(trim(raw@)) {
            Some(kb) => clamp((kb * 1024) as nat),
            None => 0,
        },
{
    let chars = to_chars(raw);
    let trimmed = trim_chars(&chars);
    match parse_u64_chars(&trimmed) {
        Some(kb) => match kb.checked_mul(1024) {
            Some(bytes) => bytes,
            None => u64::MAX,
        },
        None => 0,
    }
}

/// The size of a pane's scrollback: the number of bytes that the
/// multiplexer printed for it.
pub fn capture_pane_bytes(out: &str) -> (bytes: u64)
    ensures
        bytes == byte_length(out@),
{
    out.len() as u64
}

/// Reads the size on a `Physical footprint:` line.
fn read_footprint(line: &Vec<char>) -> (bytes: u64)
    ensures
        bytes == footprint_of(line@),
{
    let parts = split_chars(line, ':');
    let piece = field_chars(&parts, 1);
    let value = words_chars(&piece);
    if value.len() > 0 {
        assert(views(value@)[0] == value@[0]@);
        compact_bytes_of(&value[0])
    } else {
        0
    }
}

/// Reads swap and physical bytes out of a memory-map summary.
///
/// The physical figure is the size on the last `Physical footprint:` line
/// that stands before the end of the scan. The scan ends at the first line
/// that starts with `TOTAL` and does not mention `minus reserved`; the swap
/// figure is the fifth column of that line. A figure that is not found is 0.
pub fn vmmap_memory(raw: &str) -> (figures: (u64, u64))
    ensures
        figures == scan_summary(lines(raw@), 0, 0),
{
    let chars = to_chars(raw);
    let all = lines_chars(&chars);
    let mut swap: u64 = 0;
    let mut physical: u64 = 0;
    let mut i: usize = 0;
    assert(views(all@).skip(0) == views(all@));
    while i < all.len()
        invariant
            i <= all.len(),
            views(all@) == lines(raw@),
            scan_summary(lines(raw@), 0, 0) == scan_summary(views(all@).skip(i as int), swap, physical),
        decreases all.len() - i,
    {
        let ghost rest = views(all@).skip(i as int);
        proof {
            assert(rest[0] == all@[i as int]@);
            assert(rest.drop_first() == views(all@).skip(i + 1));
        }
        let line = trim_start_chars(&all[i]);
        if starts_with_text(&line, "Physical footprint:") {
            physical = read_footprint(&line);
        }
        if starts_with_text(&line, "TOTAL") && !contains_text(&line, "minus reserved") {
            let columns = words_chars(&line);
            if columns.len() >= 5 {
                assert(views(columns@)[4] == columns@[4]@);
                swap = compact_bytes_of(&columns[4]);
            }
            return (swap, physical);
        }
        i += 1;
    }
    (swap, physical)
}

/// The flag that asks the process matcher for a match mode.
pub fn pgrep_flag(mode: MatchMode) -> (flag: &'static str)
    ensures
        flag@ == match mode {
            MatchMode::Exact => "-x"@,
            MatchMode::Full => "-f"@,
        },
{
    match mode {
        MatchMode::Exact => "-x",
        MatchMode::Full => "-f",
    }
}

/// Puts `pid` into a rising list of pids unless it is there already.
fn insert_rising(pids: &mut Vec<i32>, pid: i32)
    requires
        strictly_rising(old(pids)@),
    ensures
        strictly_rising(final(pids)@),
        forall|q: i32| #[trigger] final(pids)@.contains(q) <==> old(pids)@.contains(q) || q == pid,
{
    let mut at: usize = 0;
    while at < pids.len() && pids[at] < pid
        invariant
            at <= pids.len(),
            pids@ == old(pids)@,
            forall|k: int| 0 <= k < at ==> pids@[k] < pid,
        decreases pids.len() - at,
    {
        at += 1;
    }
    if at < pids.len() && pids[at] == pid {
        assert(pids@.contains(pid));
        return ;
    }
    let ghost before = pids@;
    pids.insert(at, pid);
    proof {
        assert forall|q: i32| #[trigger] pids@.contains(q) <==> before.contains(q) || q == pid by {
            if before.contains(q) {
                let k = choose|k: int| 0 <= k < before.len() && before[k] == q;
                if k < at {
                    assert(pids@[k] == q);
                } else {
                    assert(pids@[k + 1] == q);
                }
            }
            if q == pid {
                assert(pids@[at as int] == q);
            }
            if pids@.contains(q) {
                let k = choose|k: int| 0 <= k < pids@.len() && pids@[k] == q;
                if k < at {
                    assert(before[k] == q);
                } else if k > at {
                    assert(before[k - 1] == q);
                }
            }
        }
        assert forall|i: int, j: int| 0 <= i < j < pids@.len() implies pids@[i] < pids@[j] by {
            let oi = if i < at { i } else { i - 1 };
            let oj = if j < at { j } else { j - 1 };
            if i != at && j != at {
                assert(before[oi] < before[oj]);
            } else if i == at {
                assert(before[at as int] <= before[oj]) by {
                    if oj > at {
                        assert(before[at as int] < before[oj]);
                    }
                }
            }
        }
    }
}

/// The pids that stand on the lines of `stdout`, each once, in rising order.
/// Lines that hold no pid are passed over.
pub fn listed_pids(stdout: &str) -> (pids: Vec<i32>)
    ensures
        strictly_rising(pids@),
        forall|p: i32| #[trigger] pids@.contains(p) <==> lists_pid(lines(stdout@), p),
{
    let chars = to_chars(stdout);
    let all = lines_chars(&chars);
    let mut pids: Vec<i32> = Vec::new();
    let mut i: usize = 0;
    while i < all.len()
        invariant
            i <= all.len(),
            strictly_rising(pids@),
            forall|p: i32| #[trigger] pids@.contains(p) <==> lists_pid(views(all@).take(i as int), p),
        decreases all.len() - i,
    {
        let ghost seen = views(all@).take(i as int);
        let ghost next = views(all@).take(i + 1);
        let ghost before = pids@;
        let trimmed = trim_chars(&all[i]);
        let found = parse_i32_chars(&trimmed);
        match found {
            Some(pid) => {
                insert_rising(&mut pids, pid);
            },
            None => {},
        }
        proof {
            assert(next[i as int] == all@[i as int]@);
            assert forall|p: i32| #[trigger] pids@.contains(p) <==> lists_pid(next, p) by {
                if lists_pid(seen, p) {
                    let k = choose|k: int|
                        0 <= k < seen.len() && parse_i32_spec(trim(#[trigger] seen[k])) == Some(p);
                    assert(next[k] == seen[k]);
                }
                if found == Some(p) {
                    assert(parse_i32_spec(trim(next[i as int])) == Some(p));
                }
                if lists_pid(next, p) {
                    let k = choose|k: int|
                        0 <= k < next.len() && parse_i32_spec(trim(#[trigger] next[k])) == Some(p);
                    if k < i {
                        assert(seen[k] == next[k]);
                    }
                }
            }
        }
        i += 1;
    }
    assert(views(all@).take(all.len() as int) == views(all@));
    pids
}

/// What a run of the process matcher found.
///
/// A run that succeeded lists the matching pids on its output, one per
/// line. A run that failed with exit code 1 found no process, which is no
/// error. Any other failure is an error and carries what the matcher
/// printed as its complaint.
pub fn pgrep_pattern(success: bool, exit_code: Option<i32>, stdout: &str, stderr: &str) -> (r: Result<
    Vec<i32>,
    String,
>)
    ensures
        success ==> r is Ok && strictly_rising(r->Ok_0@) && forall|p: i32|
            #[trigger] r->Ok_0@.contains(p) <==> lists_pid(lines(stdout@), p),
        !success && exit_code == Some(1i32) ==> r is Ok && r->Ok_0@.len() == 0,
        !success && exit_code != Some(1i32) ==> r is Err && r->Err_0@ == stderr@,
{
    if !success {
        let no_match = match exit_code {
            Some(code) => code == 1,
            None => false,
        };
        if no_match {
            return Ok(Vec::new());
        }
        return Err(from_chars(&to_chars(stderr)));
    }
    Ok(listed_pids(stdout))
}

} // verus!
