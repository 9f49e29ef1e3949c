//! The command line: arguments, their resolution into render options, and the
//! decisions of a command-line run.
//!
//! A run alternates outside work (opening the repository, rendering, writing output) with
//! decisions. `run` makes the decisions: given the arguments and the outcome of the last
//! piece of work, it names the next one.

use vstd::prelude::*;
use crate::model::DiffArea;
use crate::render::RenderOptions;
use crate::render::OutputFormat;
use crate::render::ColorPolicy;
use crate::render::StatusView;
use crate::text::push_str;

verus! {

/// Width used when none is given and none can be read from a terminal.
pub const DEFAULT_WIDTH: usize = 80;

/// CLI color choices.
#[derive(Debug, Clone, Copy, PartialEq, Eq, Structural)]
pub enum ColorArg {
    Auto,
    Always,
    Never,
}

/// CLI output format choices.
#[derive(Debug, Clone, Copy, PartialEq, Eq, Structural)]
pub enum FormatArg {
    Ansi,
    Plain,
    Json,
}

/// CLI diff area choices.
#[derive(Debug, Clone, Copy, PartialEq, Eq, Structural)]
pub enum AreaArg {
    Worktree,
    Staged,
    Head,
}

/// The diff area an area argument names.
pub open spec fn area_of(a: AreaArg) -> DiffArea {
    match a {
        AreaArg::Worktree => DiffArea::Worktree,
        AreaArg::Staged => DiffArea::Staged,
        AreaArg::Head => DiffArea::Head,
    }
}

impl From<AreaArg> for DiffArea {
    fn from(a: AreaArg) -> (d: DiffArea) {
        match a {
            AreaArg::Worktree => DiffArea::Worktree,
            AreaArg::Staged => DiffArea::Staged,
            AreaArg::Head => DiffArea::Head,
        }
    }
}

impl vstd::std_specs::convert::FromSpecImpl<AreaArg> for DiffArea {
    open spec fn obeys_from_spec() -> bool {
        true
    }

    open spec fn from_spec(a: AreaArg) -> DiffArea {
        area_of(a)
    }
}

/// gdl subcommands.
#[derive(Debug, Clone, PartialEq, Eq)]
pub enum Command {
    /// Render repository status.
    Status,
    /// Render a file diff.
    Diff {
        /// Repository-relative file path to diff.
        path: String,
        /// Repository area to compare.
        area: AreaArg,
    },
}

/// gdl command-line arguments.
#[derive(Debug, Clone, PartialEq, Eq)]
pub struct Cli {
    /// Repository path to inspect; the current directory when absent.
    pub repo: Option<String>,
    /// ANSI color policy.
    pub color: ColorArg,
    /// Rendering width.
    pub width: Option<usize>,
    /// Render only repository-relative paths.
    pub paths_only: bool,
    /// Output format.
    pub format: Option<FormatArg>,
    /// Command to run; status when absent.
    pub command: Option<Command>,
}

/// What the process can observe of its terminal and environment.
#[derive(Debug, Clone, Copy, PartialEq, Eq, Structural)]
pub struct TerminalFacts {
    /// Whether standard output is a terminal.
    pub stdout_is_terminal: bool,
    /// Whether the `NO_COLOR` variable is set.
    pub no_color: bool,
    /// The terminal's column count, when it could be read.
    pub terminal_columns: Option<u16>,
}

/// The color policy an argument resolves to: `auto` colors exactly when standard output
/// is a terminal and `NO_COLOR` is not set.
pub open spec fn color_policy_of(c: ColorArg, facts: TerminalFacts) -> ColorPolicy {
    match c {
        ColorArg::Always => ColorPolicy::Always,
        ColorArg::Never => ColorPolicy::Never,
        ColorArg::Auto => if facts.stdout_is_terminal && !facts.no_color {
            ColorPolicy::Always
        } else {
            ColorPolicy::Never
        },
    }
}

/// The output format an argument resolves to: the one named, or ANSI when colors are on
/// and plain text otherwise.
pub open spec fn format_of(f: Option<FormatArg>, color: ColorPolicy) -> OutputFormat {
    match f {
        Some(FormatArg::Ansi) => OutputFormat::Ansi,
        Some(FormatArg::Plain) => OutputFormat::Plain,
        Some(FormatArg::Json) => OutputFormat::Json,
        None => if color == ColorPolicy::Always {
            OutputFormat::Ansi
        } else {
            OutputFormat::Plain
        },
    }
}

/// The width an argument resolves to: the one given, else the terminal's column count
/// when standard output is a terminal whose size could be read, else `DEFAULT_WIDTH`.
pub open spec fn width_of(w: Option<usize>, facts: TerminalFacts) -> usize {
    match w {
        Some(w) => w,
        None => if facts.stdout_is_terminal {
            match facts.terminal_columns {
                Some(c) => c as usize,
                None => DEFAULT_WIDTH,
            }
        } else {
            DEFAULT_WIDTH
        },
    }
}

/// The render options arguments resolve to.
pub open spec fn options_of(cli: Cli, facts: TerminalFacts) -> RenderOptions {
    let color = color_policy_of(cli.color, facts);
    RenderOptions {
        format: format_of(cli.format, color),
        color,
        width: width_of(cli.width, facts),
        view: if cli.paths_only {
            StatusView::PathsOnly
        } else {
            StatusView::Full
        },
    }
}

fn resolve_color(c: ColorArg, facts: &TerminalFacts) -> (p: ColorPolicy)
    ensures
        p == color_policy_of(c, *facts),
{
    match c {
        ColorArg::Always => ColorPolicy::Always,
        ColorArg::Never => ColorPolicy::Never,
        ColorArg::Auto => {
            if facts.stdout_is_terminal && !facts.no_color {
                ColorPolicy::Always
            } else {
                ColorPolicy::Never
            }
        },
    }
}

fn resolve_format(f: Option<FormatArg>, color: ColorPolicy) -> (o: OutputFormat)
    ensures
        o == format_of(f, color),
{
    match f {
        Some(FormatArg::Ansi) => OutputFormat::Ansi,
        Some(FormatArg::Plain) => OutputFormat::Plain,
        Some(FormatArg::Json) => OutputFormat::Json,
        None => {
            if color == ColorPolicy::Always {
                OutputFormat::Ansi
            } else {
                OutputFormat::Plain
            }
        },
    }
}

fn resolve_width(w: Option<usize>, facts: &TerminalFacts) -> (r: usize)
    ensures
        r == width_of(w, *facts),
{
    match w {
        Some(w) => w,
        None => {
            if facts.stdout_is_terminal {
                match facts.terminal_columns {
                    Some(c) => c as usize,
                    None => DEFAULT_WIDTH,
                }
            } else {
                DEFAULT_WIDTH
            }
        },
    }
}

/// Resolves parsed arguments into explicit render options.
pub fn resolve(args: &Cli, facts: &TerminalFacts) -> (o: RenderOptions)
    ensures
        o == options_of(*args, *facts),
{
    let color = resolve_color(args.color, facts);
    let format = resolve_format(args.format, color);
    RenderOptions {
        format,
        color,
        width: resolve_width(args.width, facts),
        view: if args.paths_only {
            StatusView::PathsOnly
        } else {
            StatusView::Full
        },
    }
}

/// The outcome of the last piece of outside work of a run.
#[derive(Debug, Clone, PartialEq, Eq)]
pub enum RunEvent {
    /// The run begins.
    Start,
    /// No repository path was given and the current directory could not be read.
    RepoPathUnavailable { error: String },
    /// The repository at `repo_path` could not be opened; `error` is the open error's text.
    OpenFailed { repo_path: String, error: String },
    /// The repository was opened.
    Opened,
    /// Rendering failed with an error text.
    RenderFailed { error: String },
    /// Rendering produced output.
    Rendered { output: String },
    /// Writing to standard output failed with an error text.
    WriteFailed { error: String },
    /// The output was written.
    Written,
}

/// The next piece of work of a run.
#[derive(Debug, Clone, PartialEq, Eq)]
pub enum RunAction {
    /// Open the repository at `path`, or at the current directory when there is none.
    OpenRepo { path: Option<String> },
    /// Render the opened repository's status.
    RenderStatus { options: RenderOptions },
    /// Render the diff of `path` in the opened repository.
    RenderDiff { path: String, area: DiffArea, options: RenderOptions },
    /// Write `output` to standard output, unchanged.
    Write { output: String },
    /// Write `message` and a newline to standard error, then exit with status 1.
    Fail { message: String },
    /// Exit with `code`.
    Exit { code: i32 },
}

/// Whether `a` is the action that follows `event` in a run with arguments `cli`.
pub open spec fn next_action(cli: Cli, facts: TerminalFacts, event: RunEvent, a: RunAction) -> bool {
    match event {
        RunEvent::Start => a == RunAction::OpenRepo { path: cli.repo },
        RunEvent::RepoPathUnavailable { error } => a matches RunAction::Fail { message } && message@
            == "gdl: "@ + error@,
        RunEvent::OpenFailed { repo_path, error } => a matches RunAction::Fail { message } && message@
            == "gdl: cannot open repo at "@ + repo_path@ + ": "@ + error@,
        RunEvent::Opened => match cli.command {
            Some(Command::Diff { path, area }) => a == RunAction::RenderDiff {
                path,
                area: area_of(area),
                options: options_of(cli, facts),
            },
            _ => a == RunAction::RenderStatus { options: options_of(cli, facts) },
        },
        RunEvent::RenderFailed { error } => a matches RunAction::Fail { message } && message@ == "gdl: "@
            + error@,
        RunEvent::Rendered { output } => a == RunAction::Write { output },
        RunEvent::WriteFailed { error } => a matches RunAction::Fail { message } && message@ == "gdl: "@
            + error@,
        RunEvent::Written => a == RunAction::Exit { code: 0 },
    }
}

fn failure(prefix: &str, detail: &str) -> (a: RunAction)
    ensures
        a matches RunAction::Fail { message } && message@ == prefix@ + detail@,
{
    let mut message = String::new();
    push_str(&mut message, prefix);
    push_str(&mut message, detail);
    RunAction::Fail { message }
}

/// Decides the next piece of work of a command-line run from the outcome of the last one.
/// A run without a subcommand renders status.
pub fn run(cli: &Cli, facts: &TerminalFacts, event: RunEvent) -> (a: RunAction)
    ensures
        next_action(*cli, *facts, event, a),
{
    match event {
        RunEvent::Start => RunAction::OpenRepo {
            path: match &cli.repo {
                Some(p) => Some(p.clone()),
                None => None,
            },
        },
        RunEvent::RepoPathUnavailable { error } => failure("gdl: ", error.as_str()),
        RunEvent::OpenFailed { repo_path, error } => {
            let mut message = String::new();
            push_str(&mut message, "gdl: cannot open repo at ");
            push_str(&mut message, repo_path.as_str());
            push_str(&mut message, ": ");
            push_str(&mut message, error.as_str());
            RunAction::Fail { message }
        },
        RunEvent::Opened => {
            let options = resolve(cli, facts);
            match &cli.command {
                Some(Command::Diff { path, area }) => RunAction::RenderDiff {
                    path: path.clone(),
                    area: DiffArea::from(*area),
                    options,
                },
                _ => RunAction::RenderStatus { options },
            }
        },
        RunEvent::RenderFailed { error } => failure("gdl: ", error.as_str()),
        RunEvent::Rendered { output } => RunAction::Write { output },
        RunEvent::WriteFailed { error } => failure("gdl: ", error.as_str()),
        RunEvent::Written => RunAction::Exit { code: 0 },
    }
}

} // verus!
