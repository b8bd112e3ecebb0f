//! Reports that list processes, one row each, in five formats.

use vstd::prelude::*;
use crate::aggregate::{history_total, pane_targets, total, unique_history_bytes, Measure};
use crate::decimal::{decimal, push_decimal, push_signed, signed_decimal};
use crate::human::human_text;
use crate::model::{OutputFormat, ProcRecord};
use crate::render::{
    csv_escaped, history_text, json_escaped, markdown_cell, put_csv, put_csv_history,
    put_csv_human, put_history, put_human, put_json, put_json_human, put_markdown_cell,
    put_quoted_history, put_yaml, put_yaml_human, quoted_history_text, yaml_escaped,
};
use crate::size::clamp;
use crate::text::push_text;

verus! {

/// What a report of processs begins with: the column titles for the table,
/// the CSV file and the Markdown table, the opening bracket for JSON, the
/// document mark for YAML.
pub open spec fn process_head(format: OutputFormat) -> Seq<char> {
    match format {
        OutputFormat::Table => "PID\tTmux window.pane\tWindow\tSwap\tPhysical\tRSS\tPaneHistory\tHistory lines\tCommand\n"@,
        OutputFormat::Json => "[\n"@,
        OutputFormat::Csv => "pid,tmux_target,tmux_window,swap_bytes,swap_human,physical_bytes,physical_human,rss_bytes,rss_human,pane_history_bytes,pane_history_human,pane_history_lines,command\n"@,
        OutputFormat::Yaml => "---\n"@,
        OutputFormat::Markdown => "| PID | Tmux window.pane | Window | Swap | Physical | RSS | PaneHistory | History lines | Command |\n|---:|---|---|---:|---:|---:|---:|---:|---|\n"@,
    }
}

/// The text `out` followed by one process as a line of the tab-separated table.
pub open spec fn process_table_line(out: Seq<char>, row: ProcRecord) -> Seq<char> {
    out
        + signed_decimal(row.pid as int)
        + "\t"@
        + row.tmux_target@
        + "\t"@
        + row.tmux_window_name@
        + "\t"@
        + human_text(row.swap_bytes)
        + "\t"@
        + human_text(row.physical_bytes)
        + "\t"@
        + human_text(row.rss_bytes)
        + "\t"@
        + human_text(row.pane_history_bytes)
        + "\t"@
        + history_text(row.pane_history_size, row.pane_history_limit, "-"@)
        + "\t"@
        + row.command@
        + "\n"@
}

/// The text `out` followed by one process as an object of the JSON array.
/// Every object but the last is followed by a comma.
pub open spec fn process_json_line(out: Seq<char>, row: ProcRecord, last: bool) -> Seq<char> {
    let object = out
        + "  {\"pid\":"@
        + signed_decimal(row.pid as int)
        + ",\"tmux_target\":\""@
        + json_escaped(row.tmux_target@)
        + "\",\"tmux_window\":\""@
        + json_escaped(row.tmux_window_name@)
        + "\",\"swap_bytes\":"@
        + decimal(row.swap_bytes as nat)
        + ",\"swap_human\":\""@
        + json_escaped(human_text(row.swap_bytes))
        + "\",\"physical_bytes\":"@
        + decimal(row.physical_bytes as nat)
        + ",\"physical_human\":\""@
        + json_escaped(human_text(row.physical_bytes))
        + "\",\"rss_bytes\":"@
        + decimal(row.rss_bytes as nat)
        + ",\"rss_human\":\""@
        + json_escaped(human_text(row.rss_bytes))
        + "\",\"pane_history_bytes\":"@
        + decimal(row.pane_history_bytes as nat)
        + ",\"pane_history_human\":\""@
        + json_escaped(human_text(row.pane_history_bytes))
        + "\",\"pane_history_lines\":"@
        + quoted_history_text(row.pane_history_size, row.pane_history_limit)
        + ",\"command\":\""@
        + json_escaped(row.command@)
        + "\"}"@;
    if last {
        object + "\n"@
    } else {
        object + ",\n"@
    }
}

/// The text `out` followed by one process as a line of the CSV file.
pub open spec fn process_csv_line(out: Seq<char>, row: ProcRecord) -> Seq<char> {
    out
        + signed_decimal(row.pid as int)
        + ","@
        + csv_escaped(row.tmux_target@)
        + ","@
        + csv_escaped(row.tmux_window_name@)
        + ","@
        + decimal(row.swap_bytes as nat)
        + ","@
        + csv_escaped(human_text(row.swap_bytes))
        + ","@
        + decimal(row.physical_bytes as nat)
        + ","@
        + csv_escaped(human_text(row.physical_bytes))
        + ","@
        + decimal(row.rss_bytes as nat)
        + ","@
        + csv_escaped(human_text(row.rss_bytes))
        + ","@
        + decimal(row.pane_history_bytes as nat)
        + ","@
        + csv_escaped(human_text(row.pane_history_bytes))
        + ","@
        + csv_escaped(history_text(row.pane_history_size, row.pane_history_limit, ""@))
        + ","@
        + csv_escaped(row.command@)
        + "\n"@
}

/// The text `out` followed by one process as an item of the YAML list.
pub open spec fn process_yaml_line(out: Seq<char>, row: ProcRecord) -> Seq<char> {
    out
        + "- pid: "@
        + signed_decimal(row.pid as int)
        + "\n  tmux_target: \""@
        + yaml_escaped(row.tmux_target@)
        + "\"\n  tmux_window: \""@
        + yaml_escaped(row.tmux_window_name@)
        + "\"\n  swap_bytes: "@
        + decimal(row.swap_bytes as nat)
        + "\n  swap_human: \""@
        + yaml_escaped(human_text(row.swap_bytes))
        + "\"\n  physical_bytes: "@
        + decimal(row.physical_bytes as nat)
        + "\n  physical_human: \""@
        + yaml_escaped(human_text(row.physical_bytes))
        + "\"\n  rss_bytes: "@
        + decimal(row.rss_bytes as nat)
        + "\n  rss_human: \""@
        + yaml_escaped(human_text(row.rss_bytes))
        + "\"\n  pane_history_bytes: "@
        + decimal(row.pane_history_bytes as nat)
        + "\n  pane_history_human: \""@
        + yaml_escaped(human_text(row.pane_history_bytes))
        + "\"\n  pane_history_lines: "@
        + quoted_history_text(row.pane_history_size, row.pane_history_limit)
        + "\n  command: \""@
        + yaml_escaped(row.command@)
        + "\"\n"@
}

/// The text `out` followed by one process as a row of the Markdown table.
pub open spec fn process_markdown_line(out: Seq<char>, row: ProcRecord) -> Seq<char> {
    out
        + "| "@
        + signed_decimal(row.pid as int)
        + " | "@
        + row.tmux_target@
        + " | "@
        + row.tmux_window_name@
        + " | "@
        + human_text(row.swap_bytes)
        + " | "@
        + human_text(row.physical_bytes)
        + " | "@
        + human_text(row.rss_bytes)
        + " | "@
        + human_text(row.pane_history_bytes)
        + " | "@
        + history_text(row.pane_history_size, row.pane_history_limit, "-"@)
        + " | "@
        + markdown_cell(row.command@)
        + " |\n"@
}

/// The text `out` followed by one process in the given format.
pub open spec fn process_line(format: OutputFormat, out: Seq<char>, row: ProcRecord, last: bool) -> Seq<char> {
    match format {
        OutputFormat::Table => process_table_line(out, row),
        OutputFormat::Json => process_json_line(out, row, last),
        OutputFormat::Csv => process_csv_line(out, row),
        OutputFormat::Yaml => process_yaml_line(out, row),
        OutputFormat::Markdown => process_markdown_line(out, row),
    }
}

/// The text `out` followed by the first `upto` of `rows`, in their order.
pub open spec fn process_lines(format: OutputFormat, out: Seq<char>, rows: Seq<ProcRecord>, upto: int) -> Seq<char>
    decreases upto,
{
    if upto <= 0 {
        out
    } else {
        process_line(
            format,
            process_lines(format, out, rows, upto - 1),
            rows[upto - 1],
            upto == rows.len(),
        )
    }
}

/// The text `out` followed by the totals under a table of processes: swap,
/// physical and resident bytes summed over all rows, and scrollback bytes
/// summed over the panes, each pane counted once. Sums stay within `u64`.
pub open spec fn process_totals(out: Seq<char>, rows: Seq<ProcRecord>) -> Seq<char> {
    out
        + "\nTotal swap:\t"@
        + human_text(clamp(total(rows, Measure::Swap)))
        + "\nTotal physical:\t"@
        + human_text(clamp(total(rows, Measure::Physical)))
        + "\nTotal RSS:\t"@
        + human_text(clamp(total(rows, Measure::Resident)))
        + "\nTotal pane history bytes:\t"@
        + human_text(clamp(history_total(rows, pane_targets(rows))))
        + "\n"@
}

/// The text `out` followed by what ends a report: the totals for the
/// table, the closing bracket for JSON, nothing for the other formats.
pub open spec fn process_tail(format: OutputFormat, out: Seq<char>, rows: Seq<ProcRecord>) -> Seq<char> {
    match format {
        OutputFormat::Table => process_totals(out, rows),
        OutputFormat::Json => out + "]\n"@,
        _ => out,
    }
}

/// A whole report of `rows` in the given format: head, one entry per row
/// in the order of `rows`, tail.
pub open spec fn process_report(format: OutputFormat, rows: Seq<ProcRecord>) -> Seq<char> {
    process_tail(
        format,
        process_lines(format, process_head(format), rows, rows.len() as int),
        rows,
    )
}

/// Appends one process as a line of the tab-separated table.
fn put_table_line(out: &mut String, row: &ProcRecord)
    ensures
        final(out)@ == process_table_line(old(out)@, *row),
{
    push_signed(out, row.pid as i64);
    push_text(out, "\t");
    push_text(out, row.tmux_target.as_str());
    push_text(out, "\t");
    push_text(out, row.tmux_window_name.as_str());
    push_text(out, "\t");
    put_human(out, row.swap_bytes);
    push_text(out, "\t");
    put_human(out, row.physical_bytes);
    push_text(out, "\t");
    put_human(out, row.rss_bytes);
    push_text(out, "\t");
    put_human(out, row.pane_history_bytes);
    push_text(out, "\t");
    put_history(out, row.pane_history_size, row.pane_history_limit, "-");
    push_text(out, "\t");
    push_text(out, row.command.as_str());
    push_text(out, "\n");
}

/// Appends one process as an object of the JSON array.
fn put_json_line(out: &mut String, row: &ProcRecord, last: bool)
    ensures
        final(out)@ == process_json_line(old(out)@, *row, last),
{
    push_text(out, "  {\"pid\":");
    push_signed(out, row.pid as i64);
    push_text(out, ",\"tmux_target\":\"");
    put_json(out, row.tmux_target.as_str());
    push_text(out, "\",\"tmux_window\":\"");
    put_json(out, row.tmux_window_name.as_str());
    push_text(out, "\",\"swap_bytes\":");
    push_decimal(out, row.swap_bytes);
    push_text(out, ",\"swap_human\":\"");
    put_json_human(out, row.swap_bytes);
    push_text(out, "\",\"physical_bytes\":");
    push_decimal(out, row.physical_bytes);
    push_text(out, ",\"physical_human\":\"");
    put_json_human(out, row.physical_bytes);
    push_text(out, "\",\"rss_bytes\":");
    push_decimal(out, row.rss_bytes);
    push_text(out, ",\"rss_human\":\"");
    put_json_human(out, row.rss_bytes);
    push_text(out, "\",\"pane_history_bytes\":");
    push_decimal(out, row.pane_history_bytes);
    push_text(out, ",\"pane_history_human\":\"");
    put_json_human(out, row.pane_history_bytes);
    push_text(out, "\",\"pane_history_lines\":");
    put_quoted_history(out, row.pane_history_size, row.pane_history_limit);
    push_text(out, ",\"command\":\"");
    put_json(out, row.command.as_str());
    push_text(out, "\"}");
    if last {
        push_text(out, "\n");
    } else {
        push_text(out, ",\n");
    }
}

/// Appends one process as a line of the CSV file.
fn put_csv_line(out: &mut String, row: &ProcRecord)
    ensures
        final(out)@ == process_csv_line(old(out)@, *row),
{
    push_signed(out, row.pid as i64);
    push_text(out, ",");
    put_csv(out, row.tmux_target.as_str());
    push_text(out, ",");
    put_csv(out, row.tmux_window_name.as_str());
    push_text(out, ",");
    push_decimal(out, row.swap_bytes);
    push_text(out, ",");
    put_csv_human(out, row.swap_bytes);
    push_text(out, ",");
    push_decimal(out, row.physical_bytes);
    push_text(out, ",");
    put_csv_human(out, row.physical_bytes);
    push_text(out, ",");
    push_decimal(out, row.rss_bytes);
    push_text(out, ",");
    put_csv_human(out, row.rss_bytes);
    push_text(out, ",");
    push_decimal(out, row.pane_history_bytes);
    push_text(out, ",");
    put_csv_human(out, row.pane_history_bytes);
    push_text(out, ",");
    put_csv_history(out, row.pane_history_size, row.pane_history_limit);
    push_text(out, ",");
    put_csv(out, row.command.as_str());
    push_text(out, "\n");
}

/// Appends one process as an item of the YAML list.
fn put_yaml_line(out: &mut String, row: &ProcRecord)
    ensures
        final(out)@ == process_yaml_line(old(out)@, *row),
{
    push_text(out, "- pid: ");
    push_signed(out, row.pid as i64);
    push_text(out, "\n  tmux_target: \"");
    put_yaml(out, row.tmux_target.as_str());
    push_text(out, "\"\n  tmux_window: \"");
    put_yaml(out, row.tmux_window_name.as_str());
    push_text(out, "\"\n  swap_bytes: ");
    push_decimal(out, row.swap_bytes);
    push_text(out, "\n  swap_human: \"");
    put_yaml_human(out, row.swap_bytes);
    push_text(out, "\"\n  physical_bytes: ");
    push_decimal(out, row.physical_bytes);
    push_text(out, "\n  physical_human: \"");
    put_yaml_human(out, row.physical_bytes);
    push_text(out, "\"\n  rss_bytes: ");
    push_decimal(out, row.rss_bytes);
    push_text(out, "\n  rss_human: \"");
    put_yaml_human(out, row.rss_bytes);
    push_text(out, "\"\n  pane_history_bytes: ");
    push_decimal(out, row.pane_history_bytes);
    push_text(out, "\n  pane_history_human: \"");
    put_yaml_human(out, row.pane_history_bytes);
    push_text(out, "\"\n  pane_history_lines: ");
    put_quoted_history(out, row.pane_history_size, row.pane_history_limit);
    push_text(out, "\n  command: \"");
    put_yaml(out, row.command.as_str());
    push_text(out, "\"\n");
}

/// Appends one process as a row of the Markdown table.
fn put_markdown_line(out: &mut String, row: &ProcRecord)
    ensures
        final(out)@ == process_markdown_line(old(out)@, *row),
{
    push_text(out, "| ");
    push_signed(out, row.pid as i64);
    push_text(out, " | ");
    push_text(out, row.tmux_target.as_str());
    push_text(out, " | ");
    push_text(out, row.tmux_window_name.as_str());
    push_text(out, " | ");
    put_human(out, row.swap_bytes);
    push_text(out, " | ");
    put_human(out, row.physical_bytes);
    push_text(out, " | ");
    put_human(out, row.rss_bytes);
    push_text(out, " | ");
    put_human(out, row.pane_history_bytes);
    push_text(out, " | ");
    put_history(out, row.pane_history_size, row.pane_history_limit, "-");
    push_text(out, " | ");
    put_markdown_cell(out, row.command.as_str());
    push_text(out, " |\n");
}

/// One memory figure summed over `rows`, held to the range of `u64`.
fn sum_rows(rows: &[ProcRecord], which: Measure) -> (sum: u64)
    ensures
        sum == clamp(total(rows@, which)),
{
    let mut sum: u64 = 0;
    let mut i: usize = 0;
    assert(rows@.take(0) == Seq::<ProcRecord>::empty());
    while i < rows.len()
        invariant
            i <= rows.len(),
            sum == clamp(total(rows@.take(i as int), which)),
        decreases rows.len() - i,
    {
        proof {
            assert(rows@.take(i + 1).drop_last() == rows@.take(i as int));
            assert(rows@.take(i + 1).last() == rows@[i as int]);
        }
        let figure = match which {
            Measure::Swap => rows[i].swap_bytes,
            Measure::Physical => rows[i].physical_bytes,
            Measure::Resident => rows[i].rss_bytes,
        };
        sum = sum.saturating_add(figure);
        i += 1;
    }
    assert(rows@.take(rows.len() as int) == rows@);
    sum
}

/// Appends the totals under a table of processes.
fn put_totals(out: &mut String, rows: &[ProcRecord])
    ensures
        final(out)@ == process_totals(old(out)@, rows@),
{
    push_text(out, "\nTotal swap:\t");
    put_human(out, sum_rows(rows, Measure::Swap));
    push_text(out, "\nTotal physical:\t");
    put_human(out, sum_rows(rows, Measure::Physical));
    push_text(out, "\nTotal RSS:\t");
    put_human(out, sum_rows(rows, Measure::Resident));
    push_text(out, "\nTotal pane history bytes:\t");
    put_human(out, unique_history_bytes(rows));
    push_text(out, "\n");
}

/// Writes the processs as a table with tabs between the columns, followed by
/// the totals.
pub fn render_table(rows: &[ProcRecord]) -> (out: String)
    ensures
        out@ == process_report(OutputFormat::Table, rows@),
{
    let mut out = String::new();
    push_text(&mut out, "PID\tTmux window.pane\tWindow\tSwap\tPhysical\tRSS\tPaneHistory\tHistory lines\tCommand\n");
    assert(out@ == process_head(OutputFormat::Table));
    let mut i: usize = 0;
    while i < rows.len()
        invariant
            i <= rows.len(),
            out@ == process_lines(OutputFormat::Table, process_head(OutputFormat::Table), rows@, i as int),
        decreases rows.len() - i,
    {
        put_table_line(&mut out, &rows[i]);
        i += 1;
    }
    put_totals(&mut out, rows);
    out
}

/// Writes the processs as a JSON array with one object per line.
pub fn render_json(rows: &[ProcRecord]) -> (out: String)
    ensures
        out@ == process_report(OutputFormat::Json, rows@),
{
    let mut out = String::new();
    push_text(&mut out, "[\n");
    assert(out@ == process_head(OutputFormat::Json));
    let mut i: usize = 0;
    while i < rows.len()
        invariant
            i <= rows.len(),
            out@ == process_lines(OutputFormat::Json, process_head(OutputFormat::Json), rows@, i as int),
        decreases rows.len() - i,
    {
        put_json_line(&mut out, &rows[i], i + 1 == rows.len());
        i += 1;
    }
    push_text(&mut out, "]\n");
    out
}

/// Writes the processs as CSV with a header line.
pub fn render_csv(rows: &[ProcRecord]) -> (out: String)
    ensures
        out@ == process_report(OutputFormat::Csv, rows@),
{
    let mut out = String::new();
    push_text(&mut out, "pid,tmux_target,tmux_window,swap_bytes,swap_human,physical_bytes,physical_human,rss_bytes,rss_human,pane_history_bytes,pane_history_human,pane_history_lines,command\n");
    assert(out@ == process_head(OutputFormat::Csv));
    let mut i: usize = 0;
    while i < rows.len()
        invariant
            i <= rows.len(),
            out@ == process_lines(OutputFormat::Csv, process_head(OutputFormat::Csv), rows@, i as int),
        decreases rows.len() - i,
    {
        put_csv_line(&mut out, &rows[i]);
        i += 1;
    }
    out
}

/// Writes the processs as a YAML list.
pub fn render_yaml(rows: &[ProcRecord]) -> (out: String)
    ensures
        out@ == process_report(OutputFormat::Yaml, rows@),
{
    let mut out = String::new();
    push_text(&mut out, "---\n");
    assert(out@ == process_head(OutputFormat::Yaml));
    let mut i: usize = 0;
    while i < rows.len()
        invariant
            i <= rows.len(),
            out@ == process_lines(OutputFormat::Yaml, process_head(OutputFormat::Yaml), rows@, i as int),
        decreases rows.len() - i,
    {
        put_yaml_line(&mut out, &rows[i]);
        i += 1;
    }
    out
}

/// Writes the processs as a Markdown table.
pub fn render_markdown(rows: &[ProcRecord]) -> (out: String)
    ensures
        out@ == process_report(OutputFormat::Markdown, rows@),
{
    let mut out = String::new();
    push_text(&mut out, "| PID | Tmux window.pane | Window | Swap | Physical | RSS | PaneHistory | History lines | Command |\n|---:|---|---|---:|---:|---:|---:|---:|---|\n");
    assert(out@ == process_head(OutputFormat::Markdown));
    let mut i: usize = 0;
    while i < rows.len()
        invariant
            i <= rows.len(),
            out@ == process_lines(OutputFormat::Markdown, process_head(OutputFormat::Markdown), rows@, i as int),
        decreases rows.len() - i,
    {
        put_markdown_line(&mut out, &rows[i]);
        i += 1;
    }
    out
}

/// Writes the processs in the given format.
pub fn render_process(rows: &[ProcRecord], fmt: OutputFormat) -> (out: String)
    ensures
        out@ == process_report(fmt, rows@),
{
    match fmt {
        OutputFormat::Table => render_table(rows),
        OutputFormat::Json => render_json(rows),
        OutputFormat::Csv => render_csv(rows),
        OutputFormat::Yaml => render_yaml(rows),
        OutputFormat::Markdown => render_markdown(rows),
    }
}

} // verus!
