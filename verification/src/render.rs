//! The pieces that every report is written from: escaped texts, history
//! counters and lists of pids.

use vstd::prelude::*;
use crate::decimal::{push_signed, signed_decimal};
use crate::human::{human_bytes, human_text};
use crate::text::{contains_char, push_text, to_chars};

verus! {

/// What one character becomes inside a JSON string.
pub open spec fn json_char(c: char) -> Seq<char> {
    if c == '"' {
        "\\\""@
    } else if c == '\\' {
        "\\\\"@
    } else if c == '\n' {
        "\\n"@
    } else if c == '\r' {
        "\\r"@
    } else if c == '\t' {
        "\\t"@
    } else {
        seq![c]
    }
}

/// `s` as it stands inside a JSON string: quotes, backslashes, line feeds,
/// carriage returns and tabs written as escapes, all else unchanged.
pub open spec fn json_escaped(s: Seq<char>) -> Seq<char>
    decreases s.len(),
{
    if s.len() == 0 {
        Seq::empty()
    } else {
        json_escaped(s.drop_last()) + json_char(s.last())
    }
}

/// `s` with every `c` replaced by the text `with`.
pub open spec fn replaced(s: Seq<char>, c: char, with: Seq<char>) -> Seq<char>
    decreases s.len(),
{
    if s.len() == 0 {
        Seq::empty()
    } else if s.last() == c {
        replaced(s.drop_last(), c, with) + with
    } else {
        replaced(s.drop_last(), c, with).push(s.last())
    }
}

/// Whether a CSV field has to be quoted: it holds a comma, a quote or a
/// line feed.
pub open spec fn needs_quotes(s: Seq<char>) -> bool {
    s.contains(',') || s.contains('"') || s.contains('\n')
}

/// `s` as a CSV field: unchanged where it needs no quotes, else between
/// quotes with every quote inside doubled.
pub open spec fn csv_escaped(s: Seq<char>) -> Seq<char> {
    if needs_quotes(s) {
        "\""@ + replaced(s, '"', "\"\""@) + "\""@
    } else {
        s
    }
}

/// `s` as it stands between double quotes in YAML: every quote gets a
/// backslash before it.
pub open spec fn yaml_escaped(s: Seq<char>) -> Seq<char> {
    replaced(s, '"', "\\\""@)
}

/// `s` as the cell of a Markdown table: every bar gets a backslash before
/// it, and every line feed becomes a blank.
pub open spec fn markdown_cell(s: Seq<char>) -> Seq<char> {
    replaced(replaced(s, '|', "\\|"@), '\n', " "@)
}

/// The history counters of a pane as `size/limit`, or `missing` where the
/// size is negative, which marks a process without a pane.
pub open spec fn history_text(size: i64, limit: i64, missing: Seq<char>) -> Seq<char> {
    if size >= 0 {
        signed_decimal(size as int) + "/"@ + signed_decimal(limit as int)
    } else {
        missing
    }
}

/// The history counters of a pane as `"size/limit"` between quotes, or
/// `null` where the size is negative.
pub open spec fn quoted_history_text(size: i64, limit: i64) -> Seq<char> {
    if size >= 0 {
        "\""@ + signed_decimal(size as int) + "/"@ + signed_decimal(limit as int) + "\""@
    } else {
        "null"@
    }
}

/// The pids written in base ten with `sep` between them.
pub open spec fn joined_pids(pids: Seq<i32>, sep: Seq<char>) -> Seq<char>
    decreases pids.len(),
{
    if pids.len() == 0 {
        Seq::empty()
    } else if pids.len() == 1 {
        signed_decimal(pids[0] as int)
    } else {
        joined_pids(pids.drop_last(), sep) + sep + signed_decimal(pids.last() as int)
    }
}

/// Writes `s` as it stands inside a JSON string.
pub fn escape_json(s: &str) -> (out: String)
    ensures
        out@ == json_escaped(s@),
{
    let chars = to_chars(s);
    let mut out = String::new();
    let mut i: usize = 0;
    assert(chars@.take(0) == Seq::<char>::empty());
    while i < chars.len()
        invariant
            i <= chars.len(),
            out@ == json_escaped(chars@.take(i as int)),
        decreases chars.len() - i,
    {
        let c = chars[i];
        proof {
            assert(chars@.take(i + 1).drop_last() == chars@.take(i as int));
            assert(chars@.take(i + 1).last() == c);
        }
        if c == '"' {
            push_text(&mut out, "\\\"");
        } else if c == '\\' {
            push_text(&mut out, "\\\\");
        } else if c == '\n' {
            push_text(&mut out, "\\n");
        } else if c == '\r' {
            push_text(&mut out, "\\r");
        } else if c == '\t' {
            push_text(&mut out, "\\t");
        } else {
            out.push(c);
            assert(json_escaped(chars@.take(i as int)).push(c) == json_escaped(chars@.take(i as int))
                + seq![c]);
        }
        i += 1;
    }
    assert(chars@.take(chars.len() as int) == chars@);
    out
}

/// Appends `s` to `out` with every `c` replaced by `with`.
pub fn push_replaced(out: &mut String, s: &str, c: char, with: &str)
    ensures
        final(out)@ == old(out)@ + replaced(s@, c, with@),
{
    let chars = to_chars(s);
    let mut i: usize = 0;
    assert(chars@.take(0) == Seq::<char>::empty());
    assert(old(out)@ + Seq::<char>::empty() == old(out)@);
    while i < chars.len()
        invariant
            i <= chars.len(),
            out@ == old(out)@ + replaced(chars@.take(i as int), c, with@),
        decreases chars.len() - i,
    {
        let here = chars[i];
        let ghost done = replaced(chars@.take(i as int), c, with@);
        proof {
            assert(chars@.take(i + 1).drop_last() == chars@.take(i as int));
            assert(chars@.take(i + 1).last() == here);
        }
        if here == c {
            push_text(out, with);
            assert((old(out)@ + done) + with@ == old(out)@ + (done + with@));
        } else {
            out.push(here);
            assert((old(out)@ + done).push(here) == old(out)@ + done.push(here));
        }
        i += 1;
    }
    assert(chars@.take(chars.len() as int) == chars@);
}

/// `s` with every `c` replaced by `with`.
pub fn replace_char(s: &str, c: char, with: &str) -> (out: String)
    ensures
        out@ == replaced(s@, c, with@),
{
    let mut out = String::new();
    push_replaced(&mut out, s, c, with);
    assert(Seq::<char>::empty() + replaced(s@, c, with@) == replaced(s@, c, with@));
    out
}

/// Writes `s` as a CSV field.
pub fn escape_csv(s: &str) -> (out: String)
    ensures
        out@ == csv_escaped(s@),
{
    let chars = to_chars(s);
    let mut out = String::new();
    if contains_char(&chars, ',') || contains_char(&chars, '"') || contains_char(&chars, '\n') {
        push_text(&mut out, "\"");
        push_replaced(&mut out, s, '"', "\"\"");
        push_text(&mut out, "\"");
        assert(Seq::<char>::empty() + "\""@ == "\""@);
    } else {
        push_text(&mut out, s);
        assert(Seq::<char>::empty() + s@ == s@);
    }
    out
}

/// Writes the history counters of a pane as `size/limit`, or `missing`
/// where the size is negative.
pub fn history_lines(size: i64, limit: i64, missing: &str) -> (out: String)
    ensures
        out@ == history_text(size, limit, missing@),
{
    let mut out = String::new();
    if size >= 0 {
        push_signed(&mut out, size);
        push_text(&mut out, "/");
        push_signed(&mut out, limit);
        assert(Seq::<char>::empty() + signed_decimal(size as int) == signed_decimal(size as int));
    } else {
        push_text(&mut out, missing);
        assert(Seq::<char>::empty() + missing@ == missing@);
    }
    out
}

/// Writes the history counters of a pane as `"size/limit"`, or `null` where
/// the size is negative.
pub fn quoted_history_lines(size: i64, limit: i64) -> (out: String)
    ensures
        out@ == quoted_history_text(size, limit),
{
    let mut out = String::new();
    if size >= 0 {
        push_text(&mut out, "\"");
        push_signed(&mut out, size);
        push_text(&mut out, "/");
        push_signed(&mut out, limit);
        push_text(&mut out, "\"");
        assert(Seq::<char>::empty() + "\""@ == "\""@);
    } else {
        push_text(&mut out, "null");
        assert(Seq::<char>::empty() + "null"@ == "null"@);
    }
    out
}

/// Writes the pids in base ten with `sep` between them.
pub fn join_pids(pids: &Vec<i32>, sep: &str) -> (out: String)
    ensures
        out@ == joined_pids(pids@, sep@),
{
    let mut out = String::new();
    let mut i: usize = 0;
    assert(pids@.take(0) == Seq::<i32>::empty());
    while i < pids.len()
        invariant
            i <= pids.len(),
            out@ == joined_pids(pids@.take(i as int), sep@),
        decreases pids.len() - i,
    {
        proof {
            assert(pids@.take(i + 1).drop_last() == pids@.take(i as int));
            assert(pids@.take(i + 1).last() == pids@[i as int]);
        }
        if i > 0 {
            push_text(&mut out, sep);
        } else {
            assert(pids@.take(1)[0] == pids@[0]);
            assert(Seq::<char>::empty() + signed_decimal(pids@[0] as int) == signed_decimal(
                pids@[0] as int,
            ));
        }
        push_signed(&mut out, pids[i] as i64);
        i += 1;
    }
    assert(pids@.take(pids.len() as int) == pids@);
    out
}

/// Appends a byte count written for people.
pub fn put_human(out: &mut String, bytes: u64)
    ensures
        final(out)@ == old(out)@ + human_text(bytes),
{
    let text = human_bytes(bytes);
    push_text(out, text.as_str());
}

/// Appends `s` as it stands inside a JSON string.
pub fn put_json(out: &mut String, s: &str)
    ensures
        final(out)@ == old(out)@ + json_escaped(s@),
{
    let text = escape_json(s);
    push_text(out, text.as_str());
}

/// Appends a byte count written for people, as it stands inside a JSON
/// string.
pub fn put_json_human(out: &mut String, bytes: u64)
    ensures
        final(out)@ == old(out)@ + json_escaped(human_text(bytes)),
{
    let text = human_bytes(bytes);
    put_json(out, text.as_str());
}

/// Appends `s` as a CSV field.
pub fn put_csv(out: &mut String, s: &str)
    ensures
        final(out)@ == old(out)@ + csv_escaped(s@),
{
    let text = escape_csv(s);
    push_text(out, text.as_str());
}

/// Appends a byte count written for people, as a CSV field.
pub fn put_csv_human(out: &mut String, bytes: u64)
    ensures
        final(out)@ == old(out)@ + csv_escaped(human_text(bytes)),
{
    let text = human_bytes(bytes);
    put_csv(out, text.as_str());
}

/// Appends `s` as it stands between double quotes in YAML.
pub fn put_yaml(out: &mut String, s: &str)
    ensures
        final(out)@ == old(out)@ + yaml_escaped(s@),
{
    push_replaced(out, s, '"', "\\\"");
}

/// Appends a byte count written for people, as it stands between double
/// quotes in YAML.
pub fn put_yaml_human(out: &mut String, bytes: u64)
    ensures
        final(out)@ == old(out)@ + yaml_escaped(human_text(bytes)),
{
    let text = human_bytes(bytes);
    put_yaml(out, text.as_str());
}

/// Appends `s` as the cell of a Markdown table.
pub fn put_markdown_cell(out: &mut String, s: &str)
    ensures
        final(out)@ == old(out)@ + markdown_cell(s@),
{
    let barred = replace_char(s, '|', "\\|");
    push_replaced(out, barred.as_str(), '\n', " ");
}

/// Appends the history counters of a pane as `size/limit`, or `missing`.
pub fn put_history(out: &mut String, size: i64, limit: i64, missing: &str)
    ensures
        final(out)@ == old(out)@ + history_text(size, limit, missing@),
{
    let text = history_lines(size, limit, missing);
    push_text(out, text.as_str());
}

/// Appends the history counters of a pane as a CSV field, empty where the
/// pane is missing.
pub fn put_csv_history(out: &mut String, size: i64, limit: i64)
    ensures
        final(out)@ == old(out)@ + csv_escaped(history_text(size, limit, ""@)),
{
    let text = history_lines(size, limit, "");
    put_csv(out, text.as_str());
}

/// Appends the history counters of a pane between quotes, or `null`.
pub fn put_quoted_history(out: &mut String, size: i64, limit: i64)
    ensures
        final(out)@ == old(out)@ + quoted_history_text(size, limit),
{
    let text = quoted_history_lines(size, limit);
    push_text(out, text.as_str());
}

/// Appends the pids with `sep` between them.
pub fn put_pids(out: &mut String, pids: &Vec<i32>, sep: &str)
    ensures
        final(out)@ == old(out)@ + joined_pids(pids@, sep@),
{
    let text = join_pids(pids, sep);
    push_text(out, text.as_str());
}

/// Appends the pids, commas between them, as one CSV field.
pub fn put_csv_pids(out: &mut String, pids: &Vec<i32>)
    ensures
        final(out)@ == old(out)@ + csv_escaped(joined_pids(pids@, ","@)),
{
    let text = join_pids(pids, ",");
    put_csv(out, text.as_str());
}

} // verus!
