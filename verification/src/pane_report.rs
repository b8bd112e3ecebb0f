//! Reports that list panes, one row each, in five formats.

use vstd::prelude::*;
use crate::decimal::{decimal, push_decimal};
use crate::human::human_text;
use crate::model::{OutputFormat, PaneRecord};
use crate::render::{
    csv_escaped, history_text, joined_pids, json_escaped, put_csv, put_csv_history, put_csv_human,
    put_csv_pids, put_history, put_human, put_json, put_json_human, put_pids,
    put_quoted_history, put_yaml, put_yaml_human, quoted_history_text, yaml_escaped,
};
use crate::size::clamp;
use crate::text::push_text;

verus! {

/// What a report of panes begins with: the column titles for the table,
/// the CSV file and the Markdown table, the opening bracket for JSON, the
/// document mark for YAML.
pub open spec fn pane_head(format: OutputFormat) -> Seq<char> {
    match format {
        OutputFormat::Table => "Tmux window.pane\tWindow\tProcesses\tPIDs\tSwap\tPhysical\tRSS\tPaneHistory\tHistory lines\n"@,
        OutputFormat::Json => "[\n"@,
        OutputFormat::Csv => "tmux_target,tmux_window,process_count,pids,swap_bytes,swap_human,physical_bytes,physical_human,rss_bytes,rss_human,pane_history_bytes,pane_history_human,pane_history_lines\n"@,
        OutputFormat::Yaml => "---\n"@,
        OutputFormat::Markdown => "| Tmux window.pane | Window | Processes | PIDs | Swap | Physical | RSS | PaneHistory | History lines |\n|---|---|---:|---|---:|---:|---:|---:|---:|\n"@,
    }
}

/// The text `out` followed by one pane as a line of the tab-separated table.
pub open spec fn pane_table_line(out: Seq<char>, row: PaneRecord) -> Seq<char> {
    out
        + row.tmux_target@
        + "\t"@
        + row.tmux_window_name@
        + "\t"@
        + decimal(row.process_count as nat)
        + "\t"@
        + joined_pids(row.pids@, ","@)
        + "\t"@
        + human_text(row.swap_bytes)
        + "\t"@
        + human_text(row.physical_bytes)
        + "\t"@
        + human_text(row.rss_bytes)
        + "\t"@
        + human_text(row.pane_history_bytes)
        + "\t"@
        + history_text(row.pane_history_size, row.pane_history_limit, "-"@)
        + "\n"@
}

/// The text `out` followed by one pane as an object of the JSON array.
/// Every object but the last is followed by a comma.
pub open spec fn pane_json_line(out: Seq<char>, row: PaneRecord, last: bool) -> Seq<char> {
    let object = out
        + "  {\"tmux_target\":\""@
        + json_escaped(row.tmux_target@)
        + "\",\"tmux_window\":\""@
        + json_escaped(row.tmux_window_name@)
        + "\",\"process_count\":"@
        + decimal(row.process_count as nat)
        + ",\"pids\":["@
        + joined_pids(row.pids@, ","@)
        + "],\"swap_bytes\":"@
        + decimal(row.swap_bytes as nat)
        + ",\"swap_human\":\""@
        + json_escaped(human_text(row.swap_bytes))
        + "\",\"physical_bytes\":"@
        + decimal(row.physical_bytes as nat)
        + ",\"physical_human\":\""@
        + json_escaped(human_text(row.physical_bytes))
        + "\",\"rss_bytes\":"@
        + decimal(row.rss_bytes as nat)
        + ",\"rss_human\":\""@
        + json_escaped(human_text(row.rss_bytes))
        + "\",\"pane_history_bytes\":"@
        + decimal(row.pane_history_bytes as nat)
        + ",\"pane_history_human\":\""@
        + json_escaped(human_text(row.pane_history_bytes))
        + "\",\"pane_history_lines\":"@
        + quoted_history_text(row.pane_history_size, row.pane_history_limit)
        + "}"@;
    if last {
        object + "\n"@
    } else {
        object + ",\n"@
    }
}

/// The text `out` followed by one pane as a line of the CSV file.
pub open spec fn pane_csv_line(out: Seq<char>, row: PaneRecord) -> Seq<char> {
    out
        + csv_escaped(row.tmux_target@)
        + ","@
        + csv_escaped(row.tmux_window_name@)
        + ","@
        + decimal(row.process_count as nat)
        + ","@
        + csv_escaped(joined_pids(row.pids@, ","@))
        + ","@
        + decimal(row.swap_bytes as nat)
        + ","@
        + csv_escaped(human_text(row.swap_bytes))
        + ","@
        + decimal(row.physical_bytes as nat)
        + ","@
        + csv_escaped(human_text(row.physical_bytes))
        + ","@
        + decimal(row.rss_bytes as nat)
        + ","@
        + csv_escaped(human_text(row.rss_bytes))
        + ","@
        + decimal(row.pane_history_bytes as nat)
        + ","@
        + csv_escaped(human_text(row.pane_history_bytes))
        + ","@
        + csv_escaped(history_text(row.pane_history_size, row.pane_history_limit, ""@))
        + "\n"@
}

/// The text `out` followed by one pane as an item of the YAML list.
pub open spec fn pane_yaml_line(out: Seq<char>, row: PaneRecord) -> Seq<char> {
    out
        + "- tmux_target: \""@
        + yaml_escaped(row.tmux_target@)
        + "\"\n  tmux_window: \""@
        + yaml_escaped(row.tmux_window_name@)
        + "\"\n  process_count: "@
        + decimal(row.process_count as nat)
        + "\n  pids: ["@
        + joined_pids(row.pids@, ", "@)
        + "]\n  swap_bytes: "@
        + decimal(row.swap_bytes as nat)
        + "\n  swap_human: \""@
        + yaml_escaped(human_text(row.swap_bytes))
        + "\"\n  physical_bytes: "@
        + decimal(row.physical_bytes as nat)
        + "\n  physical_human: \""@
        + yaml_escaped(human_text(row.physical_bytes))
        + "\"\n  rss_bytes: "@
        + decimal(row.rss_bytes as nat)
        + "\n  rss_human: \""@
        + yaml_escaped(human_text(row.rss_bytes))
        + "\"\n  pane_history_bytes: "@
        + decimal(row.pane_history_bytes as nat)
        + "\n  pane_history_human: \""@
        + yaml_escaped(human_text(row.pane_history_bytes))
        + "\"\n  pane_history_lines: "@
        + quoted_history_text(row.pane_history_size, row.pane_history_limit)
        + "\n"@
}

/// The text `out` followed by one pane as a row of the Markdown table.
pub open spec fn pane_markdown_line(out: Seq<char>, row: PaneRecord) -> Seq<char> {
    out
        + "| "@
        + row.tmux_target@
        + " | "@
        + row.tmux_window_name@
        + " | "@
        + decimal(row.process_count as nat)
        + " | "@
        + joined_pids(row.pids@, ","@)
        + " | "@
        + human_text(row.swap_bytes)
        + " | "@
        + human_text(row.physical_bytes)
        + " | "@
        + human_text(row.rss_bytes)
        + " | "@
        + human_text(row.pane_history_bytes)
        + " | "@
        + history_text(row.pane_history_size, row.pane_history_limit, "-"@)
        + " |\n"@
}

/// The text `out` followed by one pane in the given format.
pub open spec fn pane_line(format: OutputFormat, out: Seq<char>, row: PaneRecord, last: bool) -> Seq<char> {
    match format {
        OutputFormat::Table => pane_table_line(out, row),
        OutputFormat::Json => pane_json_line(out, row, last),
        OutputFormat::Csv => pane_csv_line(out, row),
        OutputFormat::Yaml => pane_yaml_line(out, row),
        OutputFormat::Markdown => pane_markdown_line(out, row),
    }
}

/// The text `out` followed by the first `upto` of `rows`, in their order.
pub open spec fn pane_lines(format: OutputFormat, out: Seq<char>, rows: Seq<PaneRecord>, upto: int) -> Seq<char>
    decreases upto,
{
    if upto <= 0 {
        out
    } else {
        pane_line(
            format,
            pane_lines(format, out, rows, upto - 1),
            rows[upto - 1],
            upto == rows.len(),
        )
    }
}

/// The figures of a pane row that are summed under a table.
pub enum PaneFigure {
    Swap,
    Physical,
    Resident,
    History,
}

/// One figure of a pane row.
pub open spec fn pane_figure(row: PaneRecord, which: PaneFigure) -> nat {
    match which {
        PaneFigure::Swap => row.swap_bytes as nat,
        PaneFigure::Physical => row.physical_bytes as nat,
        PaneFigure::Resident => row.rss_bytes as nat,
        PaneFigure::History => row.pane_history_bytes as nat,
    }
}

/// The exact sum of one figure over `rows`.
pub open spec fn pane_total(rows: Seq<PaneRecord>, which: PaneFigure) -> nat
    decreases rows.len(),
{
    if rows.len() == 0 {
        0
    } else {
        pane_total(rows.drop_last(), which) + pane_figure(rows.last(), which)
    }
}

/// The text `out` followed by the totals under a table of panes: swap,
/// physical, resident and scrollback bytes summed over all rows. Sums stay
/// within `u64`.
pub open spec fn pane_totals(out: Seq<char>, rows: Seq<PaneRecord>) -> Seq<char> {
    out
        + "\nTotal swap:\t"@
        + human_text(clamp(pane_total(rows, PaneFigure::Swap)))
        + "\nTotal physical:\t"@
        + human_text(clamp(pane_total(rows, PaneFigure::Physical)))
        + "\nTotal RSS:\t"@
        + human_text(clamp(pane_total(rows, PaneFigure::Resident)))
        + "\nTotal pane history bytes:\t"@
        + human_text(clamp(pane_total(rows, PaneFigure::History)))
        + "\n"@
}

/// The text `out` followed by what ends a report: the totals for the
/// table, the closing bracket for JSON, nothing for the other formats.
pub open spec fn pane_tail(format: OutputFormat, out: Seq<char>, rows: Seq<PaneRecord>) -> Seq<char> {
    match format {
        OutputFormat::Table => pane_totals(out, rows),
        OutputFormat::Json => out + "]\n"@,
        _ => out,
    }
}

/// A whole report of `rows` in the given format: head, one entry per row
/// in the order of `rows`, tail.
pub open spec fn pane_report(format: OutputFormat, rows: Seq<PaneRecord>) -> Seq<char> {
    pane_tail(
        format,
        pane_lines(format, pane_head(format), rows, rows.len() as int),
        rows,
    )
}

/// Appends one pane as a line of the tab-separated table.
fn put_table_line(out: &mut String, row: &PaneRecord)
    ensures
        final(out)@ == pane_table_line(old(out)@, *row),
{
    push_text(out, row.tmux_target.as_str());
    push_text(out, "\t");
    push_text(out, row.tmux_window_name.as_str());
    push_text(out, "\t");
    push_decimal(out, row.process_count as u64);
    push_text(out, "\t");
    put_pids(out, &row.pids, ",");
    push_text(out, "\t");
    put_human(out, row.swap_bytes);
    push_text(out, "\t");
    put_human(out, row.physical_bytes);
    push_text(out, "\t");
    put_human(out, row.rss_bytes);
    push_text(out, "\t");
    put_human(out, row.pane_history_bytes);
    push_text(out, "\t");
    put_history(out, row.pane_history_size, row.pane_history_limit, "-");
    push_text(out, "\n");
}

/// Appends one pane as an object of the JSON array.
fn put_json_line(out: &mut String, row: &PaneRecord, last: bool)
    ensures
        final(out)@ == pane_json_line(old(out)@, *row, last),
{
    push_text(out, "  {\"tmux_target\":\"");
    put_json(out, row.tmux_target.as_str());
    push_text(out, "\",\"tmux_window\":\"");
    put_json(out, row.tmux_window_name.as_str());
    push_text(out, "\",\"process_count\":");
    push_decimal(out, row.process_count as u64);
    push_text(out, ",\"pids\":[");
    put_pids(out, &row.pids, ",");
    push_text(out, "],\"swap_bytes\":");
    push_decimal(out, row.swap_bytes);
    push_text(out, ",\"swap_human\":\"");
    put_json_human(out, row.swap_bytes);
    push_text(out, "\",\"physical_bytes\":");
    push_decimal(out, row.physical_bytes);
    push_text(out, ",\"physical_human\":\"");
    put_json_human(out, row.physical_bytes);
    push_text(out, "\",\"rss_bytes\":");
    push_decimal(out, row.rss_bytes);
    push_text(out, ",\"rss_human\":\"");
    put_json_human(out, row.rss_bytes);
    push_text(out, "\",\"pane_history_bytes\":");
    push_decimal(out, row.pane_history_bytes);
    push_text(out, ",\"pane_history_human\":\"");
    put_json_human(out, row.pane_history_bytes);
    push_text(out, "\",\"pane_history_lines\":");
    put_quoted_history(out, row.pane_history_size, row.pane_history_limit);
    push_text(out, "}");
    if last {
        push_text(out, "\n");
    } else {
        push_text(out, ",\n");
    }
}

/// Appends one pane as a line of the CSV file.
fn put_csv_line(out: &mut String, row: &PaneRecord)
    ensures
        final(out)@ == pane_csv_line(old(out)@, *row),
{
    put_csv(out, row.tmux_target.as_str());
    push_text(out, ",");
    put_csv(out, row.tmux_window_name.as_str());
    push_text(out, ",");
    push_decimal(out, row.process_count as u64);
    push_text(out, ",");
    put_csv_pids(out, &row.pids);
    push_text(out, ",");
    push_decimal(out, row.swap_bytes);
    push_text(out, ",");
    put_csv_human(out, row.swap_bytes);
    push_text(out, ",");
    push_decimal(out, row.physical_bytes);
    push_text(out, ",");
    put_csv_human(out, row.physical_bytes);
    push_text(out, ",");
    push_decimal(out, row.rss_bytes);
    push_text(out, ",");
    put_csv_human(out, row.rss_bytes);
    push_text(out, ",");
    push_decimal(out, row.pane_history_bytes);
    push_text(out, ",");
    put_csv_human(out, row.pane_history_bytes);
    push_text(out, ",");
    put_csv_history(out, row.pane_history_size, row.pane_history_limit);
    push_text(out, "\n");
}

/// Appends one pane as an item of the YAML list.
fn put_yaml_line(out: &mut String, row: &PaneRecord)
    ensures
        final(out)@ == pane_yaml_line(old(out)@, *row),
{
    push_text(out, "- tmux_target: \"");
    put_yaml(out, row.tmux_target.as_str());
    push_text(out, "\"\n  tmux_window: \"");
    put_yaml(out, row.tmux_window_name.as_str());
    push_text(out, "\"\n  process_count: ");
    push_decimal(out, row.process_count as u64);
    push_text(out, "\n  pids: [");
    put_pids(out, &row.pids, ", ");
    push_text(out, "]\n  swap_bytes: ");
    push_decimal(out, row.swap_bytes);
    push_text(out, "\n  swap_human: \"");
    put_yaml_human(out, row.swap_bytes);
    push_text(out, "\"\n  physical_bytes: ");
    push_decimal(out, row.physical_bytes);
    push_text(out, "\n  physical_human: \"");
    put_yaml_human(out, row.physical_bytes);
    push_text(out, "\"\n  rss_bytes: ");
    push_decimal(out, row.rss_bytes);
    push_text(out, "\n  rss_human: \"");
    put_yaml_human(out, row.rss_bytes);
    push_text(out, "\"\n  pane_history_bytes: ");
    push_decimal(out, row.pane_history_bytes);
    push_text(out, "\n  pane_history_human: \"");
    put_yaml_human(out, row.pane_history_bytes);
    push_text(out, "\"\n  pane_history_lines: ");
    put_quoted_history(out, row.pane_history_size, row.pane_history_limit);
    push_text(out, "\n");
}

/// Appends one pane as a row of the Markdown table.
fn put_markdown_line(out: &mut String, row: &PaneRecord)
    ensures
        final(out)@ == pane_markdown_line(old(out)@, *row),
{
    push_text(out, "| ");
    push_text(out, row.tmux_target.as_str());
    push_text(out, " | ");
    push_text(out, row.tmux_window_name.as_str());
    push_text(out, " | ");
    push_decimal(out, row.process_count as u64);
    push_text(out, " | ");
    put_pids(out, &row.pids, ",");
    push_text(out, " | ");
    put_human(out, row.swap_bytes);
    push_text(out, " | ");
    put_human(out, row.physical_bytes);
    push_text(out, " | ");
    put_human(out, row.rss_bytes);
    push_text(out, " | ");
    put_human(out, row.pane_history_bytes);
    push_text(out, " | ");
    put_history(out, row.pane_history_size, row.pane_history_limit, "-");
    push_text(out, " |\n");
}

/// One figure summed over `rows`, held to the range of `u64`.
fn sum_rows(rows: &[PaneRecord], which: PaneFigure) -> (sum: u64)
    ensures
        sum == clamp(pane_total(rows@, which)),
{
    let mut sum: u64 = 0;
    let mut i: usize = 0;
    assert(rows@.take(0) == Seq::<PaneRecord>::empty());
    while i < rows.len()
        invariant
            i <= rows.len(),
            sum == clamp(pane_total(rows@.take(i as int), which)),
        decreases rows.len() - i,
    {
        proof {
            assert(rows@.take(i + 1).drop_last() == rows@.take(i as int));
            assert(rows@.take(i + 1).last() == rows@[i as int]);
        }
        let figure = match which {
            PaneFigure::Swap => rows[i].swap_bytes,
            PaneFigure::Physical => rows[i].physical_bytes,
            PaneFigure::Resident => rows[i].rss_bytes,
            PaneFigure::History => rows[i].pane_history_bytes,
        };
        sum = sum.saturating_add(figure);
        i += 1;
    }
    assert(rows@.take(rows.len() as int) == rows@);
    sum
}

/// Appends the totals under a table of panes.
fn put_totals(out: &mut String, rows: &[PaneRecord])
    ensures
        final(out)@ == pane_totals(old(out)@, rows@),
{
    push_text(out, "\nTotal swap:\t");
    put_human(out, sum_rows(rows, PaneFigure::Swap));
    push_text(out, "\nTotal physical:\t");
    put_human(out, sum_rows(rows, PaneFigure::Physical));
    push_text(out, "\nTotal RSS:\t");
    put_human(out, sum_rows(rows, PaneFigure::Resident));
    push_text(out, "\nTotal pane history bytes:\t");
    put_human(out, sum_rows(rows, PaneFigure::History));
    push_text(out, "\n");
}

/// Writes the panes as a table with tabs between the columns, followed by
/// the totals.
pub fn render_pane_table(rows: &[PaneRecord]) -> (out: String)
    ensures
        out@ == pane_report(OutputFormat::Table, rows@),
{
    let mut out = String::new();
    push_text(&mut out, "Tmux window.pane\tWindow\tProcesses\tPIDs\tSwap\tPhysical\tRSS\tPaneHistory\tHistory lines\n");
    assert(out@ == pane_head(OutputFormat::Table));
    let mut i: usize = 0;
    while i < rows.len()
        invariant
            i <= rows.len(),
            out@ == pane_lines(OutputFormat::Table, pane_head(OutputFormat::Table), rows@, i as int),
        decreases rows.len() - i,
    {
        put_table_line(&mut out, &rows[i]);
        i += 1;
    }
    put_totals(&mut out, rows);
    out
}

/// Writes the panes as a JSON array with one object per line.
pub fn render_pane_json(rows: &[PaneRecord]) -> (out: String)
    ensures
        out@ == pane_report(OutputFormat::Json, rows@),
{
    let mut out = String::new();
    push_text(&mut out, "[\n");
    assert(out@ == pane_head(OutputFormat::Json));
    let mut i: usize = 0;
    while i < rows.len()
        invariant
            i <= rows.len(),
            out@ == pane_lines(OutputFormat::Json, pane_head(OutputFormat::Json), rows@, i as int),
        decreases rows.len() - i,
    {
        put_json_line(&mut out, &rows[i], i + 1 == rows.len());
        i += 1;
    }
    push_text(&mut out, "]\n");
    out
}

/// Writes the panes as CSV with a header line.
pub fn render_pane_csv(rows: &[PaneRecord]) -> (out: String)
    ensures
        out@ == pane_report(OutputFormat::Csv, rows@),
{
    let mut out = String::new();
    push_text(&mut out, "tmux_target,tmux_window,process_count,pids,swap_bytes,swap_human,physical_bytes,physical_human,rss_bytes,rss_human,pane_history_bytes,pane_history_human,pane_history_lines\n");
    assert(out@ == pane_head(OutputFormat::Csv));
    let mut i: usize = 0;
    while i < rows.len()
        invariant
            i <= rows.len(),
            out@ == pane_lines(OutputFormat::Csv, pane_head(OutputFormat::Csv), rows@, i as int),
        decreases rows.len() - i,
    {
        put_csv_line(&mut out, &rows[i]);
        i += 1;
    }
    out
}

/// Writes the panes as a YAML list.
pub fn render_pane_yaml(rows: &[PaneRecord]) -> (out: String)
    ensures
        out@ == pane_report(OutputFormat::Yaml, rows@),
{
    let mut out = String::new();
    push_text(&mut out, "---\n");
    assert(out@ == pane_head(OutputFormat::Yaml));
    let mut i: usize = 0;
    while i < rows.len()
        invariant
            i <= rows.len(),
            out@ == pane_lines(OutputFormat::Yaml, pane_head(OutputFormat::Yaml), rows@, i as int),
        decreases rows.len() - i,
    {
        put_yaml_line(&mut out, &rows[i]);
        i += 1;
    }
    out
}

/// Writes the panes as a Markdown table.
pub fn render_pane_markdown(rows: &[PaneRecord]) -> (out: String)
    ensures
        out@ == pane_report(OutputFormat::Markdown, rows@),
{
    let mut out = String::new();
    push_text(&mut out, "| Tmux window.pane | Window | Processes | PIDs | Swap | Physical | RSS | PaneHistory | History lines |\n|---|---|---:|---|---:|---:|---:|---:|---:|\n");
    assert(out@ == pane_head(OutputFormat::Markdown));
    let mut i: usize = 0;
    while i < rows.len()
        invariant
            i <= rows.len(),
            out@ == pane_lines(OutputFormat::Markdown, pane_head(OutputFormat::Markdown), rows@, i as int),
        decreases rows.len() - i,
    {
        put_markdown_line(&mut out, &rows[i]);
        i += 1;
    }
    out
}

/// Writes the panes in the given format.
pub fn render_pane(rows: &[PaneRecord], fmt: OutputFormat) -> (out: String)
    ensures
        out@ == pane_report(fmt, rows@),
{
    match fmt {
        OutputFormat::Table => render_pane_table(rows),
        OutputFormat::Json => render_pane_json(rows),
        OutputFormat::Csv => render_pane_csv(rows),
        OutputFormat::Yaml => render_pane_yaml(rows),
        OutputFormat::Markdown => render_pane_markdown(rows),
    }
}

} // verus!
