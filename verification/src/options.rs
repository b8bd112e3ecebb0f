//! The words a user chooses a report with: format, view and match mode.

use vstd::prelude::*;
use crate::model::{MatchMode, OutputFormat, ViewMode};
use crate::text::{ends_with, ends_with_text, is_text, join_text, lowercase, lowercase_chars, to_chars};

verus! {

/// The format that a name stands for, letter case aside.
pub open spec fn format_named(name: Seq<char>) -> Option<OutputFormat> {
    let word = lowercase(name);
    if word == "table"@ {
        Some(OutputFormat::Table)
    } else if word == "json"@ {
        Some(OutputFormat::Json)
    } else if word == "csv"@ {
        Some(OutputFormat::Csv)
    } else if word == "yaml"@ || word == "yml"@ {
        Some(OutputFormat::Yaml)
    } else if word == "markdown"@ || word == "md"@ {
        Some(OutputFormat::Markdown)
    } else {
        None
    }
}

/// The view that a name stands for, letter case aside.
pub open spec fn view_named(name: Seq<char>) -> Option<ViewMode> {
    let word = lowercase(name);
    if word == "process"@ {
        Some(ViewMode::Process)
    } else if word == "pane"@ {
        Some(ViewMode::Pane)
    } else {
        None
    }
}

/// The match mode that a name stands for, letter case aside.
pub open spec fn match_mode_named(name: Seq<char>) -> Option<MatchMode> {
    let word = lowercase(name);
    if word == "exact"@ {
        Some(MatchMode::Exact)
    } else if word == "full"@ {
        Some(MatchMode::Full)
    } else {
        None
    }
}

/// The format that the ending of a file path stands for, letter case
/// aside, if it stands for one.
pub open spec fn format_of_path(path: Seq<char>) -> Option<OutputFormat> {
    let lower = lowercase(path);
    if ends_with(lower, ".json"@) {
        Some(OutputFormat::Json)
    } else if ends_with(lower, ".csv"@) {
        Some(OutputFormat::Csv)
    } else if ends_with(lower, ".yaml"@) || ends_with(lower, ".yml"@) {
        Some(OutputFormat::Yaml)
    } else if ends_with(lower, ".md"@) || ends_with(lower, ".markdown"@) {
        Some(OutputFormat::Markdown)
    } else {
        None
    }
}

/// Whether `r` is the answer to a name: the value it stands for, or else
/// the complaint `complaint` followed by the name as it was given.
pub open spec fn names_or_complains<T>(
    r: Result<T, String>,
    meant: Option<T>,
    complaint: Seq<char>,
    name: Seq<char>,
) -> bool {
    match meant {
        Some(value) => r == Ok::<T, String>(value),
        None => r is Err && r->Err_0@ == complaint + name,
    }
}

/// Reads the name of an output format.
pub fn parse_format(v: &str) -> (r: Result<OutputFormat, String>)
    ensures
        names_or_complains(r, format_named(v@), "unsupported format: "@, v@),
{
    let chars = to_chars(v);
    let word = lowercase_chars(&chars);
    if is_text(&word, "table") {
        Ok(OutputFormat::Table)
    } else if is_text(&word, "json") {
        Ok(OutputFormat::Json)
    } else if is_text(&word, "csv") {
        Ok(OutputFormat::Csv)
    } else if is_text(&word, "yaml") || is_text(&word, "yml") {
        Ok(OutputFormat::Yaml)
    } else if is_text(&word, "markdown") || is_text(&word, "md") {
        Ok(OutputFormat::Markdown)
    } else {
        Err(join_text("unsupported format: ", v))
    }
}

/// Reads the name of a view.
pub fn parse_view_mode(v: &str) -> (r: Result<ViewMode, String>)
    ensures
        names_or_complains(r, view_named(v@), "unsupported view mode: "@, v@),
{
    let chars = to_chars(v);
    let word = lowercase_chars(&chars);
    if is_text(&word, "process") {
        Ok(ViewMode::Process)
    } else if is_text(&word, "pane") {
        Ok(ViewMode::Pane)
    } else {
        Err(join_text("unsupported view mode: ", v))
    }
}

/// Reads the name of a match mode.
pub fn parse_match_mode(v: &str) -> (r: Result<MatchMode, String>)
    ensures
        names_or_complains(r, match_mode_named(v@), "unsupported --match-mode value: "@, v@),
{
    let chars = to_chars(v);
    let word = lowercase_chars(&chars);
    if is_text(&word, "exact") {
        Ok(MatchMode::Exact)
    } else if is_text(&word, "full") {
        Ok(MatchMode::Full)
    } else {
        Err(join_text("unsupported --match-mode value: ", v))
    }
}

/// Tells the format of an export from the ending of its file path: `.json`,
/// `.csv`, `.yaml` or `.yml`, `.md` or `.markdown`, in any letter case. Any
/// other path tells nothing.
pub fn infer_format_from_path(path: &str) -> (r: Option<OutputFormat>)
    ensures
        r == format_of_path(path@),
{
    let chars = to_chars(path);
    let lower = lowercase_chars(&chars);
    if ends_with_text(&lower, ".json") {
        Some(OutputFormat::Json)
    } else if ends_with_text(&lower, ".csv") {
        Some(OutputFormat::Csv)
    } else if ends_with_text(&lower, ".yaml") || ends_with_text(&lower, ".yml") {
        Some(OutputFormat::Yaml)
    } else if ends_with_text(&lower, ".md") || ends_with_text(&lower, ".markdown") {
        Some(OutputFormat::Markdown)
    } else {
        None
    }
}

/// The format an export is written in: the one asked for, else the one
/// that the file path tells, else JSON.
pub fn export_format(asked: Option<OutputFormat>, path: &str) -> (r: OutputFormat)
    ensures
        r == match asked {
            Some(format) => format,
            None => match format_of_path(path@) {
                Some(format) => format,
                None => OutputFormat::Json,
            },
        },
{
    match asked {
        Some(format) => format,
        None => match infer_format_from_path(path) {
            Some(format) => format,
            None => OutputFormat::Json,
        },
    }
}

} // verus!
