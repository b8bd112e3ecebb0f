//! The records that flow through a report: panes as the multiplexer lists
//! them, one row per matched process, and one row per pane.

use vstd::prelude::*;

verus! {

/// A multiplexer pane: where it is, what its window is called, the process
/// that runs directly inside it, and how much scrollback it holds.
#[derive(Debug)]
pub struct PaneInfo {
    pub target: String,
    pub window_name: String,
    pub pane_pid: i32,
    pub history_size: i64,
    pub history_limit: i64,
}

/// One matched process with its memory figures and the pane it belongs to.
/// A process without a pane carries `?` for target and window name and `-1`
/// for both history counters.
#[derive(Debug)]
pub struct ProcRecord {
    pub pid: i32,
    pub command: String,
    pub swap_bytes: u64,
    pub physical_bytes: u64,
    pub rss_bytes: u64,
    pub tmux_target: String,
    pub tmux_window_name: String,
    pub pane_history_size: i64,
    pub pane_history_limit: i64,
    pub pane_history_bytes: u64,
}

/// All processes of one pane taken together.
#[derive(Debug)]
pub struct PaneRecord {
    pub tmux_target: String,
    pub tmux_window_name: String,
    pub process_count: usize,
    pub pids: Vec<i32>,
    pub swap_bytes: u64,
    pub physical_bytes: u64,
    pub rss_bytes: u64,
    pub pane_history_size: i64,
    pub pane_history_limit: i64,
    pub pane_history_bytes: u64,
}

/// The shapes a report can be written in.
#[derive(Debug, Clone, Copy, PartialEq, Eq)]
pub enum OutputFormat {
    Table,
    Json,
    Csv,
    Yaml,
    Markdown,
}

/// How a process pattern is matched: against the exact command name, or
/// anywhere in the full command line.
#[derive(Debug, Clone, Copy, PartialEq, Eq)]
pub enum MatchMode {
    Exact,
    Full,
}

/// Whether a report lists processes or panes.
#[derive(Debug, Clone, Copy, PartialEq, Eq)]
pub enum ViewMode {
    Process,
    Pane,
}

/// What a `PaneInfo` says, its texts taken as sequences of characters.
pub ghost struct PaneView {
    pub target: Seq<char>,
    pub window_name: Seq<char>,
    pub pane_pid: i32,
    pub history_size: i64,
    pub history_limit: i64,
}

impl View for PaneInfo {
    type V = PaneView;

    open spec fn view(&self) -> PaneView {
        PaneView {
            target: self.target@,
            window_name: self.window_name@,
            pane_pid: self.pane_pid,
            history_size: self.history_size,
            history_limit: self.history_limit,
        }
    }
}

impl PaneInfo {
    /// A pane as it is kept after listing: it has a name and a live root
    /// process, and its history counters are not negative.
    pub open spec fn well_formed(&self) -> bool {
        &&& self.target@.len() > 0
        &&& self.pane_pid > 0
        &&& self.history_size >= 0
        &&& self.history_limit >= 0
    }
}

impl Clone for PaneInfo {
    fn clone(&self) -> (r: Self)
        ensures
            r == *self,
    {
        PaneInfo {
            target: self.target.clone(),
            window_name: self.window_name.clone(),
            pane_pid: self.pane_pid,
            history_size: self.history_size,
            history_limit: self.history_limit,
        }
    }
}

impl Clone for ProcRecord {
    fn clone(&self) -> (r: Self)
        ensures
            r == *self,
    {
        ProcRecord {
            pid: self.pid,
            command: self.command.clone(),
            swap_bytes: self.swap_bytes,
            physical_bytes: self.physical_bytes,
            rss_bytes: self.rss_bytes,
            tmux_target: self.tmux_target.clone(),
            tmux_window_name: self.tmux_window_name.clone(),
            pane_history_size: self.pane_history_size,
            pane_history_limit: self.pane_history_limit,
            pane_history_bytes: self.pane_history_bytes,
        }
    }
}

impl PaneRecord {
    /// Whether two pane rows say the same: equal in every field, the list of
    /// pids compared item by item.
    pub open spec fn same_as(&self, other: &PaneRecord) -> bool {
        &&& self.tmux_target == other.tmux_target
        &&& self.tmux_window_name == other.tmux_window_name
        &&& self.process_count == other.process_count
        &&& self.pids@ == other.pids@
        &&& self.swap_bytes == other.swap_bytes
        &&& self.physical_bytes == other.physical_bytes
        &&& self.rss_bytes == other.rss_bytes
        &&& self.pane_history_size == other.pane_history_size
        &&& self.pane_history_limit == other.pane_history_limit
        &&& self.pane_history_bytes == other.pane_history_bytes
    }
}

impl Clone for PaneRecord {
    fn clone(&self) -> (r: Self)
        ensures
            r.same_as(self),
    {
        let mut pids: Vec<i32> = Vec::new();
        let mut i: usize = 0;
        while i < self.pids.len()
            invariant
                i <= self.pids.len(),
                pids@ == self.pids@.take(i as int),
            decreases self.pids.len() - i,
        {
            pids.push(self.pids[i]);
            i += 1;
        }
        assert(self.pids@.take(self.pids.len() as int) == self.pids@);
        PaneRecord {
            tmux_target: self.tmux_target.clone(),
            tmux_window_name: self.tmux_window_name.clone(),
            process_count: self.process_count,
            pids,
            swap_bytes: self.swap_bytes,
            physical_bytes: self.physical_bytes,
            rss_bytes: self.rss_bytes,
            pane_history_size: self.pane_history_size,
            pane_history_limit: self.pane_history_limit,
            pane_history_bytes: self.pane_history_bytes,
        }
    }
}

} // verus!
