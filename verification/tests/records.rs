use std::cell::RefCell;
use std::collections::HashMap;

use tmux_mem::model::{MatchMode, OutputFormat, PaneInfo, ViewMode};
use tmux_mem::options::{
    export_format, infer_format_from_path, parse_format, parse_match_mode, parse_view_mode,
};
use tmux_mem::record::{index_panes, pane_history_bytes, record_process, HistoryCache};

fn pane(target: &str, window: &str, pid: i32, size: i64, limit: i64) -> PaneInfo {
    PaneInfo {
        target: target.to_string(),
        window_name: window.to_string(),
        pane_pid: pid,
        history_size: size,
        history_limit: limit,
    }
}

#[test]
fn a_process_in_a_pane_takes_the_panes_fields() {
    let by_pid = index_panes(&[pane("s:1.0", "dev", 100, 42, 2000)]);
    let mut parents = HashMap::new();
    let mut history = HistoryCache::new();
    let lookup = |pid: i32| if pid == 500 { Some("100\n".to_string()) } else { None };
    let capture = |target: &str| Some(format!("{}:{}", target, "x".repeat(95)));
    let row = record_process(
        500,
        &Some("  opencode serve\n".to_string()),
        &Some(" 2048\n".to_string()),
        &Some("Physical footprint: 3M\nTOTAL 1 2 3 1.5K\n".to_string()),
        &by_pid,
        &mut parents,
        &mut history,
        false,
        &lookup,
        &capture,
    );
    assert_eq!(row.pid, 500);
    assert_eq!(row.command, "opencode serve");
    assert_eq!(row.rss_bytes, 2048 * 1024);
    assert_eq!(row.swap_bytes, 1536);
    assert_eq!(row.physical_bytes, 3 * 1024 * 1024);
    assert_eq!(row.tmux_target, "s:1.0");
    assert_eq!(row.tmux_window_name, "dev");
    assert_eq!(row.pane_history_size, 42);
    assert_eq!(row.pane_history_limit, 2000);
    assert_eq!(row.pane_history_bytes, 101);
    assert_eq!(parents.get(&500), Some(&100));
    assert_eq!(history.get("s:1.0"), Some(101));
}

#[test]
fn a_process_without_a_pane_is_marked_unknown() {
    let by_pid = index_panes(&[pane("s:1.0", "dev", 100, 42, 2000)]);
    let mut parents = HashMap::new();
    let mut history = HistoryCache::new();
    let lookup = |_pid: i32| None;
    let captured = RefCell::new(0u32);
    let capture = |_target: &str| {
        *captured.borrow_mut() += 1;
        Some("text".to_string())
    };
    let row = record_process(
        7, &None, &None, &None, &by_pid, &mut parents, &mut history, false, &lookup, &capture,
    );
    assert_eq!(row.pid, 7);
    assert_eq!(row.command, "<unavailable>");
    assert_eq!(row.rss_bytes, 0);
    assert_eq!(row.swap_bytes, 0);
    assert_eq!(row.physical_bytes, 0);
    assert_eq!(row.tmux_target, "?");
    assert_eq!(row.tmux_window_name, "?");
    assert_eq!(row.pane_history_size, -1);
    assert_eq!(row.pane_history_limit, -1);
    assert_eq!(row.pane_history_bytes, 0);
    assert_eq!(*captured.borrow(), 0);
    assert_eq!(history.get("?"), None);
}

#[test]
fn scrollback_is_measured_once_per_pane() {
    let by_pid = index_panes(&[pane("s:1.0", "dev", 100, 1, 2), pane("s:2.0", "ops", 200, 3, 4)]);
    let mut parents = HashMap::new();
    let mut history = HistoryCache::new();
    let lookup = |pid: i32| Some(if pid < 150 { "100".to_string() } else { "200".to_string() });
    let captured = RefCell::new(Vec::<String>::new());
    let capture = |target: &str| {
        captured.borrow_mut().push(target.to_string());
        if target == "s:1.0" { Some("12345".to_string()) } else { None }
    };
    let mut seen = Vec::new();
    for pid in [101, 102, 201, 103, 202] {
        let row = record_process(
            pid, &None, &None, &None, &by_pid, &mut parents, &mut history, false, &lookup, &capture,
        );
        seen.push((row.tmux_target, row.pane_history_bytes));
    }
    assert_eq!(
        seen,
        vec![
            ("s:1.0".to_string(), 5),
            ("s:1.0".to_string(), 5),
            ("s:2.0".to_string(), 0),
            ("s:1.0".to_string(), 5),
            ("s:2.0".to_string(), 0),
        ]
    );
    assert_eq!(*captured.borrow(), vec!["s:1.0".to_string(), "s:2.0".to_string()]);
}

#[test]
fn scrollback_is_not_measured_when_switched_off() {
    let by_pid = index_panes(&[pane("s:1.0", "dev", 100, 1, 2)]);
    let mut parents = HashMap::new();
    let mut history = HistoryCache::new();
    let lookup = |_pid: i32| None;
    let captured = RefCell::new(0u32);
    let capture = |_target: &str| {
        *captured.borrow_mut() += 1;
        Some("text".to_string())
    };
    let row = record_process(
        100, &None, &None, &None, &by_pid, &mut parents, &mut history, true, &lookup, &capture,
    );
    assert_eq!(row.tmux_target, "s:1.0");
    assert_eq!(row.pane_history_size, 1);
    assert_eq!(row.pane_history_bytes, 0);
    assert_eq!(*captured.borrow(), 0);
    assert_eq!(history.get("s:1.0"), None);
}

#[test]
fn the_history_cache_keeps_the_latest_size() {
    let mut cache = HistoryCache::new();
    assert_eq!(cache.get("a"), None);
    cache.insert("a", 1);
    cache.insert("b", 2);
    assert_eq!(cache.get("a"), Some(1));
    assert_eq!(cache.get("b"), Some(2));
    cache.insert("a", 3);
    assert_eq!(cache.get("a"), Some(3));
    assert_eq!(cache.get(""), None);
    let capture = |_t: &str| Some("123456".to_string());
    assert_eq!(pane_history_bytes("a", false, &mut cache, &capture), 3);
    assert_eq!(pane_history_bytes("c", true, &mut cache, &capture), 0);
    assert_eq!(cache.get("c"), None);
    assert_eq!(pane_history_bytes("c", false, &mut cache, &capture), 6);
    assert_eq!(cache.get("c"), Some(6));
}

#[test]
fn the_later_pane_of_a_pid_stands() {
    let by_pid = index_panes(&[
        pane("first", "w", 5, 0, 0),
        pane("other", "w", 6, 0, 0),
        pane("second", "w", 5, 0, 0),
    ]);
    assert_eq!(by_pid.len(), 2);
    assert_eq!(by_pid[&5].target, "second");
    assert_eq!(by_pid[&6].target, "other");
    assert!(index_panes(&[]).is_empty());
}

#[test]
fn formats_have_names() {
    assert_eq!(parse_format("table"), Ok(OutputFormat::Table));
    assert_eq!(parse_format("JSON"), Ok(OutputFormat::Json));
    assert_eq!(parse_format("Csv"), Ok(OutputFormat::Csv));
    assert_eq!(parse_format("yaml"), Ok(OutputFormat::Yaml));
    assert_eq!(parse_format("yml"), Ok(OutputFormat::Yaml));
    assert_eq!(parse_format("markdown"), Ok(OutputFormat::Markdown));
    assert_eq!(parse_format("MD"), Ok(OutputFormat::Markdown));
    assert_eq!(parse_format("xml"), Err("unsupported format: xml".to_string()));
    assert_eq!(parse_format(""), Err("unsupported format: ".to_string()));
    assert_eq!(parse_format(" json"), Err("unsupported format:  json".to_string()));
}

#[test]
fn views_and_match_modes_have_names() {
    assert_eq!(parse_view_mode("PANE"), Ok(ViewMode::Pane));
    assert_eq!(parse_view_mode("Process"), Ok(ViewMode::Process));
    assert_eq!(parse_view_mode("Tree"), Err("unsupported view mode: Tree".to_string()));
    assert_eq!(parse_match_mode("exact"), Ok(MatchMode::Exact));
    assert_eq!(parse_match_mode("FULL"), Ok(MatchMode::Full));
    assert_eq!(
        parse_match_mode("fuzzy"),
        Err("unsupported --match-mode value: fuzzy".to_string())
    );
}

#[test]
fn path_endings_tell_the_format() {
    assert_eq!(infer_format_from_path("a.yml"), Some(OutputFormat::Yaml));
    assert_eq!(infer_format_from_path("a.markdown"), Some(OutputFormat::Markdown));
    assert_eq!(infer_format_from_path("A.JSON"), Some(OutputFormat::Json));
    assert_eq!(infer_format_from_path("dir.csv/report.Md"), Some(OutputFormat::Markdown));
    assert_eq!(infer_format_from_path(".json"), Some(OutputFormat::Json));
    assert_eq!(infer_format_from_path("json"), None);
    assert_eq!(infer_format_from_path("report.json.bak"), None);
    assert_eq!(infer_format_from_path(""), None);
    assert_eq!(infer_format_from_path("report.table"), None);
}

#[test]
fn the_export_format_falls_back_to_json() {
    assert_eq!(export_format(Some(OutputFormat::Csv), "x.yaml"), OutputFormat::Csv);
    assert_eq!(export_format(None, "x.yaml"), OutputFormat::Yaml);
    assert_eq!(export_format(None, "x.out"), OutputFormat::Json);
}
