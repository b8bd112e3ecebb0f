//! Reading the arguments of a run.

use vstd::prelude::*;
use crate::model::{MatchMode, OutputFormat, ViewMode};
use crate::options::{
    format_named, match_mode_named, parse_format, parse_match_mode, parse_view_mode, view_named,
};
use crate::text::{from_chars, is_text, push_text, to_chars};

verus! {

/// What a run is asked to do.
#[derive(Debug)]
pub struct Cli {
    pub process_pattern: String,
    pub match_mode: MatchMode,
    pub view_mode: ViewMode,
    pub stdout_format: OutputFormat,
    pub export_path: Option<String>,
    pub export_format: Option<OutputFormat>,
    pub no_history_bytes: bool,
}

/// What the arguments ask for: a report, or the help text.
#[derive(Debug)]
pub enum Invocation {
    Report(Cli),
    Help,
}

/// What a `Cli` says, its texts taken as sequences of characters.
pub ghost struct CliView {
    pub process_pattern: Seq<char>,
    pub match_mode: MatchMode,
    pub view_mode: ViewMode,
    pub stdout_format: OutputFormat,
    pub export_path: Option<Seq<char>>,
    pub export_format: Option<OutputFormat>,
    pub no_history_bytes: bool,
}

impl View for Cli {
    type V = CliView;

    open spec fn view(&self) -> CliView {
        CliView {
            process_pattern: self.process_pattern@,
            match_mode: self.match_mode,
            view_mode: self.view_mode,
            stdout_format: self.stdout_format,
            export_path: match self.export_path {
                Some(path) => Some(path@),
                None => None,
            },
            export_format: self.export_format,
            no_history_bytes: self.no_history_bytes,
        }
    }
}

/// What reading arguments comes to: a report to write, the help text to
/// show, or a complaint.
pub ghost enum Reading {
    Report(CliView),
    Help,
    Refused(Seq<char>),
}

/// A run without arguments: processes named `opencode` exactly, listed one
/// by one as a table, nothing exported, scrollback measured.
pub open spec fn default_cli() -> CliView {
    CliView {
        process_pattern: "opencode"@,
        match_mode: MatchMode::Exact,
        view_mode: ViewMode::Process,
        stdout_format: OutputFormat::Table,
        export_path: None,
        export_format: None,
        no_history_bytes: false,
    }
}

/// Whether `arg` is an option that takes the next argument as its value.
pub open spec fn takes_value(arg: Seq<char>) -> bool {
    ||| arg == "--process"@
    ||| arg == "--match-mode"@
    ||| arg == "--format"@
    ||| arg == "--view"@
    ||| arg == "--export"@
    ||| arg == "--export-format"@
}

/// The complaint about an option that stands last and so has no value.
pub open spec fn missing_value(arg: Seq<char>) -> Seq<char> {
    if arg == "--process"@ {
        "--process requires a value"@
    } else if arg == "--match-mode"@ {
        "--match-mode requires a value"@
    } else if arg == "--format"@ {
        "--format requires a value"@
    } else if arg == "--view"@ {
        "--view requires a value"@
    } else if arg == "--export"@ {
        "--export requires a file path"@
    } else {
        "--export-format requires a value"@
    }
}

/// What the option `arg` with the value `value` makes of `cli`, or the
/// complaint about a value that the option does not know.
pub open spec fn with_value(cli: CliView, arg: Seq<char>, value: Seq<char>) -> Result<
    CliView,
    Seq<char>,
> {
    if arg == "--process"@ {
        Ok(CliView { process_pattern: value, ..cli })
    } else if arg == "--match-mode"@ {
        match match_mode_named(value) {
            Some(mode) => Ok(CliView { match_mode: mode, ..cli }),
            None => Err("unsupported --match-mode value: "@ + value),
        }
    } else if arg == "--format"@ {
        match format_named(value) {
            Some(format) => Ok(CliView { stdout_format: format, ..cli }),
            None => Err("unsupported format: "@ + value),
        }
    } else if arg == "--view"@ {
        match view_named(value) {
            Some(view) => Ok(CliView { view_mode: view, ..cli }),
            None => Err("unsupported view mode: "@ + value),
        }
    } else if arg == "--export"@ {
        Ok(CliView { export_path: Some(value), ..cli })
    } else {
        match format_named(value) {
            Some(format) => Ok(CliView { export_format: Some(format), ..cli }),
            None => Err("unsupported format: "@ + value),
        }
    }
}

/// What the arguments from position `i` on make of `cli`. Arguments are
/// read from left to right; a later option replaces an earlier one; the
/// first complaint, or the first call for help, ends the reading.
pub open spec fn read_from(args: Seq<Seq<char>>, i: int, cli: CliView) -> Reading
    decreases args.len() - i,
{
    if i < 0 || i >= args.len() {
        Reading::Report(cli)
    } else if takes_value(args[i]) {
        if i + 1 >= args.len() {
            Reading::Refused(missing_value(args[i]))
        } else {
            match with_value(cli, args[i], args[i + 1]) {
                Ok(next) => read_from(args, i + 2, next),
                Err(complaint) => Reading::Refused(complaint),
            }
        }
    } else if args[i] == "--no-history-bytes"@ {
        read_from(args, i + 1, CliView { no_history_bytes: true, ..cli })
    } else if args[i] == "-h"@ || args[i] == "--help"@ {
        Reading::Help
    } else {
        Reading::Refused("unknown argument: "@ + args[i] + "\n\nUse --help for usage."@)
    }
}

/// The arguments as sequences of characters.
pub open spec fn texts(args: Seq<String>) -> Seq<Seq<char>> {
    Seq::new(args.len(), |i: int| args[i]@)
}

/// Whether `r` reports the reading `reading`.
pub open spec fn reports(r: Result<Invocation, String>, reading: Reading) -> bool {
    match reading {
        Reading::Report(cli) => r matches Ok(Invocation::Report(got)) && got@ == cli,
        Reading::Help => r matches Ok(Invocation::Help),
        Reading::Refused(complaint) => r matches Err(said) && said@ == complaint,
    }
}

/// A text as a `String` of its own.
fn text_of(s: &str) -> (out: String)
    ensures
        out@ == s@,
{
    from_chars(&to_chars(s))
}

/// Reads the arguments of a run, the program's own name left out.
///
/// `--process`, `--match-mode`, `--format`, `--view`, `--export` and
/// `--export-format` each take the next argument as their value;
/// `--no-history-bytes` stands alone; `-h` and `--help` ask for the help
/// text. An option without its value, a value that its option does not
/// know, and an argument that is no option are refused with a complaint.
pub fn parse_cli(args: &Vec<String>) -> (r: Result<Invocation, String>)
    ensures
        reports(r, read_from(texts(args@), 0, default_cli())),
{
    let mut cli = Cli {
        process_pattern: text_of("opencode"),
        match_mode: MatchMode::Exact,
        view_mode: ViewMode::Process,
        stdout_format: OutputFormat::Table,
        export_path: None,
        export_format: None,
        no_history_bytes: false,
    };
    let ghost all = texts(args@);
    let mut i: usize = 0;
    while i < args.len()
        invariant
            i <= args.len(),
            all == texts(args@),
            read_from(all, 0, default_cli()) == read_from(all, i as int, cli@),
        decreases args.len() - i,
    {
        let arg = to_chars(args[i].as_str());
        assert(arg@ == all[i as int]);
        let process = is_text(&arg, "--process");
        let match_mode = is_text(&arg, "--match-mode");
        let format = is_text(&arg, "--format");
        let view = is_text(&arg, "--view");
        let export = is_text(&arg, "--export");
        let export_format = is_text(&arg, "--export-format");
        if process || match_mode || format || view || export || export_format {
            if i + 1 >= args.len() {
                let complaint = if process {
                    "--process requires a value"
                } else if match_mode {
                    "--match-mode requires a value"
                } else if format {
                    "--format requires a value"
                } else if view {
                    "--view requires a value"
                } else if export {
                    "--export requires a file path"
                } else {
                    "--export-format requires a value"
                };
                return Err(text_of(complaint));
            }
            let value = args[i + 1].as_str();
            assert(value@ == all[i + 1]);
            if process {
                cli.process_pattern = text_of(value);
            } else if match_mode {
                match parse_match_mode(value) {
                    Ok(mode) => {
                        cli.match_mode = mode;
                    },
                    Err(complaint) => {
                        return Err(complaint);
                    },
                }
            } else if format {
                match parse_format(value) {
                    Ok(format) => {
                        cli.stdout_format = format;
                    },
                    Err(complaint) => {
                        return Err(complaint);
                    },
                }
            } else if view {
                match parse_view_mode(value) {
                    Ok(view) => {
                        cli.view_mode = view;
                    },
                    Err(complaint) => {
                        return Err(complaint);
                    },
                }
            } else if export {
                cli.export_path = Some(text_of(value));
            } else {
                match parse_format(value) {
                    Ok(format) => {
                        cli.export_format = Some(format);
                    },
                    Err(complaint) => {
                        return Err(complaint);
                    },
                }
            }
            i += 2;
        } else if is_text(&arg, "--no-history-bytes") {
            cli.no_history_bytes = true;
            i += 1;
        } else if is_text(&arg, "-h") || is_text(&arg, "--help") {
            return Ok(Invocation::Help);
        } else {
            let mut complaint = String::new();
            push_text(&mut complaint, "unknown argument: ");
            push_text(&mut complaint, args[i].as_str());
            push_text(&mut complaint, "\n\nUse --help for usage.");
            assert(Seq::<char>::empty() + "unknown argument: "@ == "unknown argument: "@);
            return Err(complaint);
        }
    }
    Ok(Invocation::Report(cli))
}

} // verus!
