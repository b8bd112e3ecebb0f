use tmux_mem::aggregate::aggregate_by_pane;
use tmux_mem::model::{OutputFormat, ProcRecord, ViewMode};
use tmux_mem::options::{infer_format_from_path, parse_view_mode};
use tmux_mem::render::escape_csv;
use tmux_mem::size::parse_compact_bytes;

#[test]
fn parse_compact_bytes_supports_units() {
    assert_eq!(parse_compact_bytes("1024"), 1024);
    assert_eq!(parse_compact_bytes("1K"), 1024);
    assert_eq!(parse_compact_bytes("1.5M"), 1_572_864);
    assert_eq!(parse_compact_bytes("2G"), 2_147_483_648);
}

#[test]
fn infer_export_format_from_extension() {
    assert_eq!(
        infer_format_from_path("report.json"),
        Some(OutputFormat::Json)
    );
    assert_eq!(
        infer_format_from_path("report.csv"),
        Some(OutputFormat::Csv)
    );
    assert_eq!(
        infer_format_from_path("report.yaml"),
        Some(OutputFormat::Yaml)
    );
    assert_eq!(
        infer_format_from_path("report.md"),
        Some(OutputFormat::Markdown)
    );
    assert_eq!(infer_format_from_path("report.txt"), None);
}

#[test]
fn csv_escape_quotes_and_commas() {
    let got = escape_csv("a,\"b\"");
    assert_eq!(got, "\"a,\"\"b\"\"\"");
}

#[test]
fn parse_view_mode_supports_process_and_pane() {
    assert_eq!(parse_view_mode("process"), Ok(ViewMode::Process));
    assert_eq!(parse_view_mode("pane"), Ok(ViewMode::Pane));
}

#[test]
fn aggregate_by_pane_sums_process_memory() {
    let rows = vec![
        ProcRecord {
            pid: 1,
            command: "a".to_string(),
            swap_bytes: 100,
            physical_bytes: 200,
            rss_bytes: 300,
            tmux_target: "s:1.0".to_string(),
            tmux_window_name: "w".to_string(),
            pane_history_size: 10,
            pane_history_limit: 100,
            pane_history_bytes: 1000,
        },
        ProcRecord {
            pid: 2,
            command: "b".to_string(),
            swap_bytes: 50,
            physical_bytes: 70,
            rss_bytes: 90,
            tmux_target: "s:1.0".to_string(),
            tmux_window_name: "w".to_string(),
            pane_history_size: 11,
            pane_history_limit: 100,
            pane_history_bytes: 900,
        },
    ];

    let panes = aggregate_by_pane(&rows);
    assert_eq!(panes.len(), 1);
    assert_eq!(panes[0].process_count, 2);
    assert_eq!(panes[0].swap_bytes, 150);
    assert_eq!(panes[0].physical_bytes, 270);
    assert_eq!(panes[0].rss_bytes, 390);
    assert_eq!(panes[0].pane_history_bytes, 1000);
}
