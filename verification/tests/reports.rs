use std::collections::HashMap;

use tmux_mem::model::{OutputFormat, PaneRecord, ProcRecord};
use tmux_mem::pane_report::{
    render_pane, render_pane_csv, render_pane_json, render_pane_markdown, render_pane_table,
    render_pane_yaml,
};
use tmux_mem::process_report::{
    render_csv, render_json, render_markdown, render_process, render_table, render_yaml,
};
use tmux_mem::render::{escape_csv, escape_json};

fn human(bytes: u64) -> String {
    let units = ["B", "KiB", "MiB", "GiB", "TiB", "PiB"];
    let mut v = bytes as f64;
    let mut i = 0usize;
    while v >= 1024.0 && i < units.len() - 1 {
        v /= 1024.0;
        i += 1;
    }
    if i == 0 {
        format!("{} {}", bytes, units[i])
    } else {
        format!("{v:.2} {}", units[i])
    }
}

fn json_text(s: &str) -> String {
    let mut out = String::new();
    for c in s.chars() {
        match c {
            '"' => out.push_str("\\\""),
            '\\' => out.push_str("\\\\"),
            '\n' => out.push_str("\\n"),
            '\r' => out.push_str("\\r"),
            '\t' => out.push_str("\\t"),
            _ => out.push(c),
        }
    }
    out
}

fn csv_text(s: &str) -> String {
    if s.contains(',') || s.contains('"') || s.contains('\n') {
        format!("\"{}\"", s.replace('"', "\"\""))
    } else {
        s.to_string()
    }
}

fn yaml_text(s: &str) -> String {
    s.replace('"', "\\\"")
}

fn plain_history(size: i64, limit: i64, missing: &str) -> String {
    if size >= 0 {
        format!("{}/{}", size, limit)
    } else {
        missing.to_string()
    }
}

fn quoted_history(size: i64, limit: i64) -> String {
    if size >= 0 {
        format!("\"{}/{}\"", size, limit)
    } else {
        "null".to_string()
    }
}

fn pid_list(pids: &[i32], sep: &str) -> String {
    pids.iter()
        .map(|p| p.to_string())
        .collect::<Vec<_>>()
        .join(sep)
}

fn expected_table(rows: &[ProcRecord]) -> String {
    let mut out = String::new();
    out.push_str(
        "PID\tTmux window.pane\tWindow\tSwap\tPhysical\tRSS\tPaneHistory\tHistory lines\tCommand\n",
    );
    for row in rows {
        out.push_str(&format!(
            "{}\t{}\t{}\t{}\t{}\t{}\t{}\t{}\t{}\n",
            row.pid,
            row.tmux_target,
            row.tmux_window_name,
            human(row.swap_bytes),
            human(row.physical_bytes),
            human(row.rss_bytes),
            human(row.pane_history_bytes),
            plain_history(row.pane_history_size, row.pane_history_limit, "-"),
            row.command,
        ));
    }
    let total_swap = rows.iter().map(|r| r.swap_bytes).sum::<u64>();
    let total_phys = rows.iter().map(|r| r.physical_bytes).sum::<u64>();
    let total_rss = rows.iter().map(|r| r.rss_bytes).sum::<u64>();
    let mut unique_hist = HashMap::<String, u64>::new();
    for row in rows {
        unique_hist
            .entry(row.tmux_target.clone())
            .and_modify(|v| *v = (*v).max(row.pane_history_bytes))
            .or_insert(row.pane_history_bytes);
    }
    let total_hist = unique_hist.values().sum::<u64>();
    out.push('\n');
    out.push_str(&format!("Total swap:\t{}\n", human(total_swap)));
    out.push_str(&format!("Total physical:\t{}\n", human(total_phys)));
    out.push_str(&format!("Total RSS:\t{}\n", human(total_rss)));
    out.push_str(&format!("Total pane history bytes:\t{}\n", human(total_hist)));
    out
}

fn expected_json(rows: &[ProcRecord]) -> String {
    let mut out = String::new();
    out.push_str("[\n");
    for (idx, row) in rows.iter().enumerate() {
        let comma = if idx + 1 == rows.len() { "" } else { "," };
        out.push_str(&format!(
            "  {{\"pid\":{},\"tmux_target\":\"{}\",\"tmux_window\":\"{}\",\"swap_bytes\":{},\"swap_human\":\"{}\",\"physical_bytes\":{},\"physical_human\":\"{}\",\"rss_bytes\":{},\"rss_human\":\"{}\",\"pane_history_bytes\":{},\"pane_history_human\":\"{}\",\"pane_history_lines\":{},\"command\":\"{}\"}}{}\n",
            row.pid,
            json_text(&row.tmux_target),
            json_text(&row.tmux_window_name),
            row.swap_bytes,
            json_text(&human(row.swap_bytes)),
            row.physical_bytes,
            json_text(&human(row.physical_bytes)),
            row.rss_bytes,
            json_text(&human(row.rss_bytes)),
            row.pane_history_bytes,
            json_text(&human(row.pane_history_bytes)),
            quoted_history(row.pane_history_size, row.pane_history_limit),
            json_text(&row.command),
            comma,
        ));
    }
    out.push_str("]\n");
    out
}

fn expected_csv(rows: &[ProcRecord]) -> String {
    let mut out = String::new();
    out.push_str("pid,tmux_target,tmux_window,swap_bytes,swap_human,physical_bytes,physical_human,rss_bytes,rss_human,pane_history_bytes,pane_history_human,pane_history_lines,command\n");
    for row in rows {
        out.push_str(&format!(
            "{},{},{},{},{},{},{},{},{},{},{},{},{}\n",
            row.pid,
            csv_text(&row.tmux_target),
            csv_text(&row.tmux_window_name),
            row.swap_bytes,
            csv_text(&human(row.swap_bytes)),
            row.physical_bytes,
            csv_text(&human(row.physical_bytes)),
            row.rss_bytes,
            csv_text(&human(row.rss_bytes)),
            row.pane_history_bytes,
            csv_text(&human(row.pane_history_bytes)),
            csv_text(&plain_history(row.pane_history_size, row.pane_history_limit, "")),
            csv_text(&row.command),
        ));
    }
    out
}

fn expected_yaml(rows: &[ProcRecord]) -> String {
    let mut out = String::new();
    out.push_str("---\n");
    for row in rows {
        out.push_str(&format!(
            "- pid: {}\n  tmux_target: \"{}\"\n  tmux_window: \"{}\"\n  swap_bytes: {}\n  swap_human: \"{}\"\n  physical_bytes: {}\n  physical_human: \"{}\"\n  rss_bytes: {}\n  rss_human: \"{}\"\n  pane_history_bytes: {}\n  pane_history_human: \"{}\"\n  pane_history_lines: {}\n  command: \"{}\"\n",
            row.pid,
            yaml_text(&row.tmux_target),
            yaml_text(&row.tmux_window_name),
            row.swap_bytes,
            yaml_text(&human(row.swap_bytes)),
            row.physical_bytes,
            yaml_text(&human(row.physical_bytes)),
            row.rss_bytes,
            yaml_text(&human(row.rss_bytes)),
            row.pane_history_bytes,
            yaml_text(&human(row.pane_history_bytes)),
            quoted_history(row.pane_history_size, row.pane_history_limit),
            yaml_text(&row.command),
        ));
    }
    out
}

fn expected_markdown(rows: &[ProcRecord]) -> String {
    let mut out = String::new();
    out.push_str("| PID | Tmux window.pane | Window | Swap | Physical | RSS | PaneHistory | History lines | Command |\n");
    out.push_str("|---:|---|---|---:|---:|---:|---:|---:|---|\n");
    for row in rows {
        let cmd = row.command.replace('|', "\\|").replace('\n', " ");
        out.push_str(&format!(
            "| {} | {} | {} | {} | {} | {} | {} | {} | {} |\n",
            row.pid,
            row.tmux_target,
            row.tmux_window_name,
            human(row.swap_bytes),
            human(row.physical_bytes),
            human(row.rss_bytes),
            human(row.pane_history_bytes),
            plain_history(row.pane_history_size, row.pane_history_limit, "-"),
            cmd,
        ));
    }
    out
}

fn expected_pane_table(rows: &[PaneRecord]) -> String {
    let mut out = String::new();
    out.push_str("Tmux window.pane\tWindow\tProcesses\tPIDs\tSwap\tPhysical\tRSS\tPaneHistory\tHistory lines\n");
    for row in rows {
        out.push_str(&format!(
            "{}\t{}\t{}\t{}\t{}\t{}\t{}\t{}\t{}\n",
            row.tmux_target,
            row.tmux_window_name,
            row.process_count,
            pid_list(&row.pids, ","),
            human(row.swap_bytes),
            human(row.physical_bytes),
            human(row.rss_bytes),
            human(row.pane_history_bytes),
            plain_history(row.pane_history_size, row.pane_history_limit, "-"),
        ));
    }
    let total_swap = rows.iter().map(|r| r.swap_bytes).sum::<u64>();
    let total_phys = rows.iter().map(|r| r.physical_bytes).sum::<u64>();
    let total_rss = rows.iter().map(|r| r.rss_bytes).sum::<u64>();
    let total_hist = rows.iter().map(|r| r.pane_history_bytes).sum::<u64>();
    out.push('\n');
    out.push_str(&format!("Total swap:\t{}\n", human(total_swap)));
    out.push_str(&format!("Total physical:\t{}\n", human(total_phys)));
    out.push_str(&format!("Total RSS:\t{}\n", human(total_rss)));
    out.push_str(&format!("Total pane history bytes:\t{}\n", human(total_hist)));
    out
}

fn expected_pane_json(rows: &[PaneRecord]) -> String {
    let mut out = String::new();
    out.push_str("[\n");
    for (idx, row) in rows.iter().enumerate() {
        let comma = if idx + 1 == rows.len() { "" } else { "," };
        out.push_str(&format!(
            "  {{\"tmux_target\":\"{}\",\"tmux_window\":\"{}\",\"process_count\":{},\"pids\":[{}],\"swap_bytes\":{},\"swap_human\":\"{}\",\"physical_bytes\":{},\"physical_human\":\"{}\",\"rss_bytes\":{},\"rss_human\":\"{}\",\"pane_history_bytes\":{},\"pane_history_human\":\"{}\",\"pane_history_lines\":{}}}{}\n",
            json_text(&row.tmux_target),
            json_text(&row.tmux_window_name),
            row.process_count,
            pid_list(&row.pids, ","),
            row.swap_bytes,
            json_text(&human(row.swap_bytes)),
            row.physical_bytes,
            json_text(&human(row.physical_bytes)),
            row.rss_bytes,
            json_text(&human(row.rss_bytes)),
            row.pane_history_bytes,
            json_text(&human(row.pane_history_bytes)),
            quoted_history(row.pane_history_size, row.pane_history_limit),
            comma,
        ));
    }
    out.push_str("]\n");
    out
}

fn expected_pane_csv(rows: &[PaneRecord]) -> String {
    let mut out = String::new();
    out.push_str("tmux_target,tmux_window,process_count,pids,swap_bytes,swap_human,physical_bytes,physical_human,rss_bytes,rss_human,pane_history_bytes,pane_history_human,pane_history_lines\n");
    for row in rows {
        out.push_str(&format!(
            "{},{},{},{},{},{},{},{},{},{},{},{},{}\n",
            csv_text(&row.tmux_target),
            csv_text(&row.tmux_window_name),
            row.process_count,
            csv_text(&pid_list(&row.pids, ",")),
            row.swap_bytes,
            csv_text(&human(row.swap_bytes)),
            row.physical_bytes,
            csv_text(&human(row.physical_bytes)),
            row.rss_bytes,
            csv_text(&human(row.rss_bytes)),
            row.pane_history_bytes,
            csv_text(&human(row.pane_history_bytes)),
            csv_text(&plain_history(row.pane_history_size, row.pane_history_limit, "")),
        ));
    }
    out
}

fn expected_pane_yaml(rows: &[PaneRecord]) -> String {
    let mut out = String::new();
    out.push_str("---\n");
    for row in rows {
        out.push_str(&format!(
            "- tmux_target: \"{}\"\n  tmux_window: \"{}\"\n  process_count: {}\n  pids: [{}]\n  swap_bytes: {}\n  swap_human: \"{}\"\n  physical_bytes: {}\n  physical_human: \"{}\"\n  rss_bytes: {}\n  rss_human: \"{}\"\n  pane_history_bytes: {}\n  pane_history_human: \"{}\"\n  pane_history_lines: {}\n",
            yaml_text(&row.tmux_target),
            yaml_text(&row.tmux_window_name),
            row.process_count,
            pid_list(&row.pids, ", "),
            row.swap_bytes,
            yaml_text(&human(row.swap_bytes)),
            row.physical_bytes,
            yaml_text(&human(row.physical_bytes)),
            row.rss_bytes,
            yaml_text(&human(row.rss_bytes)),
            row.pane_history_bytes,
            yaml_text(&human(row.pane_history_bytes)),
            quoted_history(row.pane_history_size, row.pane_history_limit),
        ));
    }
    out
}

fn expected_pane_markdown(rows: &[PaneRecord]) -> String {
    let mut out = String::new();
    out.push_str("| Tmux window.pane | Window | Processes | PIDs | Swap | Physical | RSS | PaneHistory | History lines |\n");
    out.push_str("|---|---|---:|---|---:|---:|---:|---:|---:|\n");
    for row in rows {
        out.push_str(&format!(
            "| {} | {} | {} | {} | {} | {} | {} | {} | {} |\n",
            row.tmux_target,
            row.tmux_window_name,
            row.process_count,
            pid_list(&row.pids, ","),
            human(row.swap_bytes),
            human(row.physical_bytes),
            human(row.rss_bytes),
            human(row.pane_history_bytes),
            plain_history(row.pane_history_size, row.pane_history_limit, "-"),
        ));
    }
    out
}

fn proc(pid: i32, command: &str, figures: (u64, u64, u64), pane: (&str, &str, i64, i64, u64)) -> ProcRecord {
    ProcRecord {
        pid,
        command: command.to_string(),
        swap_bytes: figures.0,
        physical_bytes: figures.1,
        rss_bytes: figures.2,
        tmux_target: pane.0.to_string(),
        tmux_window_name: pane.1.to_string(),
        pane_history_size: pane.2,
        pane_history_limit: pane.3,
        pane_history_bytes: pane.4,
    }
}

fn pane(target: &str, window: &str, pids: &[i32], figures: (u64, u64, u64), history: (i64, i64, u64)) -> PaneRecord {
    PaneRecord {
        tmux_target: target.to_string(),
        tmux_window_name: window.to_string(),
        process_count: pids.len(),
        pids: pids.to_vec(),
        swap_bytes: figures.0,
        physical_bytes: figures.1,
        rss_bytes: figures.2,
        pane_history_size: history.0,
        pane_history_limit: history.1,
        pane_history_bytes: history.2,
    }
}

fn process_samples() -> Vec<Vec<ProcRecord>> {
    vec![
        vec![],
        vec![proc(10, "opencode run", (1536, 2048, 1024), ("s:1.0", "dev", 10, 2000, 500))],
        vec![
            proc(10, "opencode run", (1536, 2048, 1024), ("s:1.0", "dev", 10, 2000, 500)),
            proc(11, "x|y\nz", (0, 0, 0), ("?", "?", -1, -1, 0)),
            proc(12, "say \"hi\", then\tgo\\home\r", (3 << 30, 5 << 20, 7 << 10), ("s:1.0", "dev", 10, 2000, 700)),
            proc(-3, "", (u64::MAX / 4, 1, 1023), ("a,b:2.1", "w\"in|dow", 0, 0, 1 << 40)),
            proc(2147483647, "größe ✓", (1152, 1408, 1 << 53), ("work:0.0", "zsh", 123456, 50000, 99)),
            proc(14, "other", (1, 2, 3), ("work:0.0", "zsh", 123456, 50000, 0)),
        ],
    ]
}

fn pane_samples() -> Vec<Vec<PaneRecord>> {
    vec![
        vec![],
        vec![pane("s:1.0", "dev", &[10, 12], (150, 270, 390), (11, 100, 1000))],
        vec![
            pane("s:1.0", "dev", &[10, 12], (3 << 30, 270, 390), (11, 100, 1000)),
            pane("?", "?", &[11], (0, 0, 0), (-1, -1, 0)),
            pane("a,b:2.1", "w\"in|dow\n", &[-3, 5, 2147483647], (u64::MAX / 8, 1 << 41, 1023), (0, 0, 1 << 40)),
            pane("none", "none", &[], (1, 1, 1), (5, 6, 7)),
        ],
    ]
}

#[test]
fn process_reports_are_written_exactly() {
    for rows in process_samples() {
        assert_eq!(render_table(&rows), expected_table(&rows));
        assert_eq!(render_json(&rows), expected_json(&rows));
        assert_eq!(render_csv(&rows), expected_csv(&rows));
        assert_eq!(render_yaml(&rows), expected_yaml(&rows));
        assert_eq!(render_markdown(&rows), expected_markdown(&rows));
    }
}

#[test]
fn pane_reports_are_written_exactly() {
    for rows in pane_samples() {
        assert_eq!(render_pane_table(&rows), expected_pane_table(&rows));
        assert_eq!(render_pane_json(&rows), expected_pane_json(&rows));
        assert_eq!(render_pane_csv(&rows), expected_pane_csv(&rows));
        assert_eq!(render_pane_yaml(&rows), expected_pane_yaml(&rows));
        assert_eq!(render_pane_markdown(&rows), expected_pane_markdown(&rows));
    }
}

#[test]
fn render_process_picks_the_format() {
    let rows = process_samples().pop().unwrap();
    assert_eq!(render_process(&rows, OutputFormat::Table), expected_table(&rows));
    assert_eq!(render_process(&rows, OutputFormat::Json), expected_json(&rows));
    assert_eq!(render_process(&rows, OutputFormat::Csv), expected_csv(&rows));
    assert_eq!(render_process(&rows, OutputFormat::Yaml), expected_yaml(&rows));
    assert_eq!(render_process(&rows, OutputFormat::Markdown), expected_markdown(&rows));
}

#[test]
fn render_pane_picks_the_format() {
    let rows = pane_samples().pop().unwrap();
    assert_eq!(render_pane(&rows, OutputFormat::Table), expected_pane_table(&rows));
    assert_eq!(render_pane(&rows, OutputFormat::Json), expected_pane_json(&rows));
    assert_eq!(render_pane(&rows, OutputFormat::Csv), expected_pane_csv(&rows));
    assert_eq!(render_pane(&rows, OutputFormat::Yaml), expected_pane_yaml(&rows));
    assert_eq!(render_pane(&rows, OutputFormat::Markdown), expected_pane_markdown(&rows));
}

#[test]
fn a_small_table_reads_as_expected() {
    let rows = vec![
        proc(10, "opencode run", (1536, 2048, 1024), ("s:1.0", "dev", 10, 2000, 500)),
        proc(11, "idle", (0, 0, 0), ("?", "?", -1, -1, 0)),
    ];
    assert_eq!(
        render_table(&rows),
        "PID\tTmux window.pane\tWindow\tSwap\tPhysical\tRSS\tPaneHistory\tHistory lines\tCommand\n\
         10\ts:1.0\tdev\t1.50 KiB\t2.00 KiB\t1.00 KiB\t500 B\t10/2000\topencode run\n\
         11\t?\t?\t0 B\t0 B\t0 B\t0 B\t-\tidle\n\
         \n\
         Total swap:\t1.50 KiB\n\
         Total physical:\t2.00 KiB\n\
         Total RSS:\t1.00 KiB\n\
         Total pane history bytes:\t500 B\n"
    );
    assert_eq!(
        render_json(&rows[1..]),
        "[\n  {\"pid\":11,\"tmux_target\":\"?\",\"tmux_window\":\"?\",\"swap_bytes\":0,\"swap_human\":\"0 B\",\"physical_bytes\":0,\"physical_human\":\"0 B\",\"rss_bytes\":0,\"rss_human\":\"0 B\",\"pane_history_bytes\":0,\"pane_history_human\":\"0 B\",\"pane_history_lines\":null,\"command\":\"idle\"}\n]\n"
    );
}

#[test]
fn history_bytes_count_once_per_pane() {
    let rows = vec![
        proc(1, "a", (0, 0, 0), ("s:1.0", "w", 1, 2, 1000)),
        proc(2, "b", (0, 0, 0), ("s:1.0", "w", 1, 2, 900)),
        proc(3, "c", (0, 0, 0), ("s:2.0", "w", 1, 2, 24)),
    ];
    assert!(render_table(&rows).ends_with("Total pane history bytes:\t1.00 KiB\n"));
}

#[test]
fn table_totals_stay_at_the_maximum() {
    let rows = vec![
        proc(1, "a", (u64::MAX, u64::MAX - 1, 0), ("s:1.0", "w", 1, 2, u64::MAX)),
        proc(2, "b", (5, 9, 0), ("s:2.0", "w", 1, 2, 3)),
    ];
    let table = render_table(&rows);
    assert!(table.contains("Total swap:\t16384.00 PiB\n"));
    assert!(table.contains("Total physical:\t16384.00 PiB\n"));
    assert!(table.ends_with("Total pane history bytes:\t16384.00 PiB\n"));
}

#[test]
fn json_escapes_control_characters() {
    assert_eq!(escape_json("a\"b\\c\nd\re\tf"), "a\\\"b\\\\c\\nd\\re\\tf");
    assert_eq!(escape_json(""), "");
    assert_eq!(escape_json("plain ✓"), "plain ✓");
}

#[test]
fn csv_quotes_only_where_needed() {
    assert_eq!(escape_csv("plain"), "plain");
    assert_eq!(escape_csv(""), "");
    assert_eq!(escape_csv("a\nb"), "\"a\nb\"");
    assert_eq!(escape_csv("say \"x\""), "\"say \"\"x\"\"\"");
    assert_eq!(escape_csv("1,2"), "\"1,2\"");
}
