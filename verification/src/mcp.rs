//! Tool parameters of the MCP server and their resolution into render options.
//!
//! Every default is fixed: the server never looks at its own terminal or environment.

use vstd::prelude::*;
use crate::model::DiffArea;
use crate::render::RenderOptions;
use crate::render::OutputFormat;
use crate::render::ColorPolicy;
use crate::render::StatusView;
use crate::cli::Cli;
use crate::cli::ColorArg;
use crate::cli::FormatArg;
use crate::cli::AreaArg;
use crate::cli::Command;
use crate::cli::TerminalFacts;
use crate::cli::RunEvent;
use crate::cli::RunAction;
use crate::cli::next_action;

verus! {

/// Output format a tool call asks for; plain by default.
#[derive(Debug, Clone, Copy, PartialEq, Eq, Structural)]
pub enum McpOutputFormat {
    Plain,
    Ansi,
    Json,
}

/// Color policy a tool call asks for; never by default.
#[derive(Debug, Clone, Copy, PartialEq, Eq, Structural)]
pub enum McpColorPolicy {
    Never,
    Always,
}

/// Status view a tool call asks for; full by default.
#[derive(Debug, Clone, Copy, PartialEq, Eq, Structural)]
pub enum McpStatusView {
    Full,
    PathsOnly,
}

/// Diff area a tool call asks for; the worktree by default.
#[derive(Debug, Clone, Copy, PartialEq, Eq, Structural)]
pub enum McpDiffArea {
    Worktree,
    Staged,
    Head,
}

impl Default for McpOutputFormat {
    fn default() -> (r: McpOutputFormat)
        ensures
            r == McpOutputFormat::Plain,
    {
        McpOutputFormat::Plain
    }
}

impl Default for McpColorPolicy {
    fn default() -> (r: McpColorPolicy)
        ensures
            r == McpColorPolicy::Never,
    {
        McpColorPolicy::Never
    }
}

impl Default for McpStatusView {
    fn default() -> (r: McpStatusView)
        ensures
            r == McpStatusView::Full,
    {
        McpStatusView::Full
    }
}

impl Default for McpDiffArea {
    fn default() -> (r: McpDiffArea)
        ensures
            r == McpDiffArea::Worktree,
    {
        McpDiffArea::Worktree
    }
}

/// The output format of a tool's format parameter.
pub open spec fn mcp_format(f: McpOutputFormat) -> OutputFormat {
    match f {
        McpOutputFormat::Plain => OutputFormat::Plain,
        McpOutputFormat::Ansi => OutputFormat::Ansi,
        McpOutputFormat::Json => OutputFormat::Json,
    }
}

/// The color policy of a tool's color parameter.
pub open spec fn mcp_color(c: McpColorPolicy) -> ColorPolicy {
    match c {
        McpColorPolicy::Never => ColorPolicy::Never,
        McpColorPolicy::Always => ColorPolicy::Always,
    }
}

/// The status view of a tool's view parameter.
pub open spec fn mcp_view(v: McpStatusView) -> StatusView {
    match v {
        McpStatusView::Full => StatusView::Full,
        McpStatusView::PathsOnly => StatusView::PathsOnly,
    }
}

/// The diff area of a tool's area parameter.
pub open spec fn mcp_area(a: McpDiffArea) -> DiffArea {
    match a {
        McpDiffArea::Worktree => DiffArea::Worktree,
        McpDiffArea::Staged => DiffArea::Staged,
        McpDiffArea::Head => DiffArea::Head,
    }
}

impl From<McpOutputFormat> for OutputFormat {
    fn from(f: McpOutputFormat) -> (r: OutputFormat) {
        match f {
            McpOutputFormat::Plain => OutputFormat::Plain,
            McpOutputFormat::Ansi => OutputFormat::Ansi,
            McpOutputFormat::Json => OutputFormat::Json,
        }
    }
}

impl vstd::std_specs::convert::FromSpecImpl<McpOutputFormat> for OutputFormat {
    open spec fn obeys_from_spec() -> bool {
        true
    }

    open spec fn from_spec(f: McpOutputFormat) -> OutputFormat {
        mcp_format(f)
    }
}

impl From<McpColorPolicy> for ColorPolicy {
    fn from(c: McpColorPolicy) -> (r: ColorPolicy) {
        match c {
            McpColorPolicy::Never => ColorPolicy::Never,
            McpColorPolicy::Always => ColorPolicy::Always,
        }
    }
}

impl vstd::std_specs::convert::FromSpecImpl<McpColorPolicy> for ColorPolicy {
    open spec fn obeys_from_spec() -> bool {
        true
    }

    open spec fn from_spec(c: McpColorPolicy) -> ColorPolicy {
        mcp_color(c)
    }
}

impl From<McpStatusView> for StatusView {
    fn from(v: McpStatusView) -> (r: StatusView) {
        match v {
            McpStatusView::Full => StatusView::Full,
            McpStatusView::PathsOnly => StatusView::PathsOnly,
        }
    }
}

impl vstd::std_specs::convert::FromSpecImpl<McpStatusView> for StatusView {
    open spec fn obeys_from_spec() -> bool {
        true
    }

    open spec fn from_spec(v: McpStatusView) -> StatusView {
        mcp_view(v)
    }
}

impl From<McpDiffArea> for DiffArea {
    fn from(a: McpDiffArea) -> (r: DiffArea) {
        match a {
            McpDiffArea::Worktree => DiffArea::Worktree,
            McpDiffArea::Staged => DiffArea::Staged,
            McpDiffArea::Head => DiffArea::Head,
        }
    }
}

impl vstd::std_specs::convert::FromSpecImpl<McpDiffArea> for DiffArea {
    open spec fn obeys_from_spec() -> bool {
        true
    }

    open spec fn from_spec(a: McpDiffArea) -> DiffArea {
        mcp_area(a)
    }
}

/// The render width a tool call gets when it names none.
pub fn default_width() -> (w: usize)
    ensures
        w == 80,
{
    80
}

/// Parameters of the status tool.
#[derive(Debug, Clone, PartialEq, Eq)]
pub struct StatusParams {
    /// Repository path to open or discover upward from.
    pub repo: String,
    /// Output format: plain, ansi, or json.
    pub format: McpOutputFormat,
    /// ANSI color policy: never or always.
    pub color: McpColorPolicy,
    /// Deterministic render width.
    pub width: usize,
    /// Status view: full or paths-only.
    pub view: McpStatusView,
}

/// Parameters of the diff tool.
#[derive(Debug, Clone, PartialEq, Eq)]
pub struct DiffParams {
    /// Repository path to open or discover upward from.
    pub repo: String,
    /// Repository-relative file path to diff.
    pub path: String,
    /// Output format: plain, ansi, or json.
    pub format: McpOutputFormat,
    /// ANSI color policy: never or always.
    pub color: McpColorPolicy,
    /// Deterministic render width.
    pub width: usize,
    /// Status view, kept so both tools resolve options alike.
    pub view: McpStatusView,
    /// Diff area: worktree, staged, or head.
    pub area: McpDiffArea,
}

/// The render options of tool parameters.
pub open spec fn tool_options(
    format: McpOutputFormat,
    color: McpColorPolicy,
    width: usize,
    view: McpStatusView,
) -> RenderOptions {
    RenderOptions { format: mcp_format(format), color: mcp_color(color), width, view: mcp_view(view) }
}

impl StatusParams {
    /// The render options the parameters ask for.
    pub fn render_options(&self) -> (o: RenderOptions)
        ensures
            o == tool_options(self.format, self.color, self.width, self.view),
    {
        RenderOptions {
            format: OutputFormat::from(self.format),
            color: ColorPolicy::from(self.color),
            width: self.width,
            view: StatusView::from(self.view),
        }
    }
}

impl DiffParams {
    /// The render options the parameters ask for.
    pub fn render_options(&self) -> (o: RenderOptions)
        ensures
            o == tool_options(self.format, self.color, self.width, self.view),
    {
        RenderOptions {
            format: OutputFormat::from(self.format),
            color: ColorPolicy::from(self.color),
            width: self.width,
            view: StatusView::from(self.view),
        }
    }

    /// The diff area the parameters ask for.
    pub fn diff_area(&self) -> (a: DiffArea)
        ensures
            a == mcp_area(self.area),
    {
        DiffArea::from(self.area)
    }
}

/// The command-line format argument that names the same format as a tool parameter.
pub open spec fn format_arg_of(f: McpOutputFormat) -> FormatArg {
    match f {
        McpOutputFormat::Plain => FormatArg::Plain,
        McpOutputFormat::Ansi => FormatArg::Ansi,
        McpOutputFormat::Json => FormatArg::Json,
    }
}

/// The command-line color argument that names the same policy as a tool parameter.
pub open spec fn color_arg_of(c: McpColorPolicy) -> ColorArg {
    match c {
        McpColorPolicy::Never => ColorArg::Never,
        McpColorPolicy::Always => ColorArg::Always,
    }
}

/// The command-line area argument that names the same area as a tool parameter.
pub open spec fn area_arg_of(a: McpDiffArea) -> AreaArg {
    match a {
        McpDiffArea::Worktree => AreaArg::Worktree,
        McpDiffArea::Staged => AreaArg::Staged,
        McpDiffArea::Head => AreaArg::Head,
    }
}

/// Whether command-line arguments spell out the render options of tool parameters:
/// the same format, color policy and width, given explicitly, and the paths-only flag
/// exactly when the view is paths-only.
pub open spec fn cli_matches_tool(
    cli: Cli,
    format: McpOutputFormat,
    color: McpColorPolicy,
    width: usize,
    view: McpStatusView,
) -> bool {
    &&& cli.format == Some(format_arg_of(format))
    &&& cli.color == color_arg_of(color)
    &&& cli.width == Some(width)
    &&& cli.paths_only == (view == McpStatusView::PathsOnly)
}

/// Whether arguments ask for a diff.
pub open spec fn asks_for_diff(cli: Cli) -> bool {
    cli.command matches Some(Command::Diff { .. })
}

/// A status request renders alike from the command line and from the status tool: once
/// the repository is open, a run whose arguments spell out the tool's parameters renders
/// status with exactly the options the tool renders with, whatever the terminal is.
pub proof fn law_cli_and_mcp_status_render_alike(cli: Cli, facts: TerminalFacts, params: StatusParams, a: RunAction)
    requires
        cli_matches_tool(cli, params.format, params.color, params.width, params.view),
        !asks_for_diff(cli),
        next_action(cli, facts, RunEvent::Opened, a),
    ensures
        a == (RunAction::RenderStatus {
            options: tool_options(params.format, params.color, params.width, params.view),
        }),
        status_tool_next(params, ToolEvent::Opened) matches ToolAction::RenderStatus { options }
            && a == (RunAction::RenderStatus { options }),
{
}

/// A diff request renders alike from the command line and from the diff tool: once the
/// repository is open, a run whose arguments spell out the tool's parameters, path and
/// area renders the same path in the same area with exactly the tool's options, whatever
/// the terminal is.
pub proof fn law_cli_and_mcp_diff_render_alike(cli: Cli, facts: TerminalFacts, params: DiffParams, a: RunAction)
    requires
        cli_matches_tool(cli, params.format, params.color, params.width, params.view),
        cli.command == (Some(Command::Diff { path: params.path, area: area_arg_of(params.area) })),
        next_action(cli, facts, RunEvent::Opened, a),
    ensures
        a == (RunAction::RenderDiff {
            path: params.path,
            area: mcp_area(params.area),
            options: tool_options(params.format, params.color, params.width, params.view),
        }),
        diff_tool_next(params, ToolEvent::Opened) matches ToolAction::RenderDiff { path, area, options }
            && a == (RunAction::RenderDiff { path, area, options }),
{
}

/// The outcome of the last piece of outside work of a tool call.
#[derive(Debug, Clone, PartialEq, Eq)]
pub enum ToolEvent {
    /// The call begins.
    Start,
    /// The repository could not be opened; `error` is the open error's text.
    OpenFailed { error: String },
    /// The repository was opened.
    Opened,
    /// Rendering failed with an error text.
    RenderFailed { error: String },
    /// Rendering produced output.
    Rendered { output: String },
}

/// The next piece of work of a tool call.
#[derive(Debug, Clone, PartialEq, Eq)]
pub enum ToolAction {
    /// Open the repository at `path`, or discover one upward from it.
    OpenRepo { path: String },
    /// Render the opened repository's status.
    RenderStatus { options: RenderOptions },
    /// Render the diff of `path` in the opened repository.
    RenderDiff { path: String, area: DiffArea, options: RenderOptions },
    /// Answer the call with `text`, as a tool error when `error` is set.
    Reply { error: bool, text: String },
}

/// The answer to a failed or finished step, when the event ends the call.
pub open spec fn reply_of(event: ToolEvent) -> Option<ToolAction> {
    match event {
        ToolEvent::OpenFailed { error } => Some(ToolAction::Reply { error: true, text: error }),
        ToolEvent::RenderFailed { error } => Some(ToolAction::Reply { error: true, text: error }),
        ToolEvent::Rendered { output } => Some(ToolAction::Reply { error: false, text: output }),
        _ => None,
    }
}

/// The action that follows `event` in a call of the status tool.
pub open spec fn status_tool_next(params: StatusParams, event: ToolEvent) -> ToolAction {
    match event {
        ToolEvent::Start => ToolAction::OpenRepo { path: params.repo },
        ToolEvent::Opened => ToolAction::RenderStatus {
            options: tool_options(params.format, params.color, params.width, params.view),
        },
        _ => reply_of(event).unwrap(),
    }
}

/// The action that follows `event` in a call of the diff tool.
pub open spec fn diff_tool_next(params: DiffParams, event: ToolEvent) -> ToolAction {
    match event {
        ToolEvent::Start => ToolAction::OpenRepo { path: params.repo },
        ToolEvent::Opened => ToolAction::RenderDiff {
            path: params.path,
            area: mcp_area(params.area),
            options: tool_options(params.format, params.color, params.width, params.view),
        },
        _ => reply_of(event).unwrap(),
    }
}

/// Once the repository is open, the status tool renders status with exactly the options
/// its parameters name: their format, color policy, width and view, each as given.
pub proof fn law_status_tool_renders_requested_options(params: StatusParams)
    ensures
        status_tool_next(params, ToolEvent::Opened) matches ToolAction::RenderStatus { options }
            && options.format == mcp_format(params.format)
            && options.color == mcp_color(params.color)
            && options.width == params.width
            && options.view == mcp_view(params.view),
{
}

/// Once the repository is open, the diff tool renders the diff of the requested path in
/// the requested area, with exactly the options its parameters name.
pub proof fn law_diff_tool_renders_requested_area(params: DiffParams)
    ensures
        diff_tool_next(params, ToolEvent::Opened) matches ToolAction::RenderDiff { path, area, options }
            && path == params.path
            && area == mcp_area(params.area)
            && options.format == mcp_format(params.format)
            && options.color == mcp_color(params.color)
            && options.width == params.width
            && options.view == mcp_view(params.view),
{
}

/// A tool call asks for one thing at a time: it opens the repository first, renders only
/// once it is open, and answers with exactly the text of the outcome, as a tool error
/// when a step failed.
pub proof fn law_tool_steps_answer_outcomes(sp: StatusParams, dp: DiffParams, event: ToolEvent)
    ensures
        event == ToolEvent::Start ==> status_tool_next(sp, event) == (ToolAction::OpenRepo { path: sp.repo })
            && diff_tool_next(dp, event) == (ToolAction::OpenRepo { path: dp.repo }),
        event matches ToolEvent::OpenFailed { error } ==> status_tool_next(sp, event) == (ToolAction::Reply {
            error: true,
            text: error,
        }) && diff_tool_next(dp, event) == (ToolAction::Reply { error: true, text: error }),
        event matches ToolEvent::RenderFailed { error } ==> status_tool_next(sp, event) == (ToolAction::Reply {
            error: true,
            text: error,
        }) && diff_tool_next(dp, event) == (ToolAction::Reply { error: true, text: error }),
        event matches ToolEvent::Rendered { output } ==> status_tool_next(sp, event) == (ToolAction::Reply {
            error: false,
            text: output,
        }) && diff_tool_next(dp, event) == (ToolAction::Reply { error: false, text: output }),
{
}

fn reply(event: ToolEvent) -> (a: ToolAction)
    requires
        reply_of(event) is Some,
    ensures
        reply_of(event) == Some(a),
{
    match event {
        ToolEvent::OpenFailed { error } => ToolAction::Reply { error: true, text: error },
        ToolEvent::RenderFailed { error } => ToolAction::Reply { error: true, text: error },
        ToolEvent::Rendered { output } => ToolAction::Reply { error: false, text: output },
        _ => ToolAction::Reply { error: true, text: String::new() },
    }
}

/// Decides the next piece of work of a status tool call: open the repository, render its
/// status with the parameters' options, and answer with the output, or with the error
/// text of a failed step as a tool error.
pub fn status_tool_step(params: &StatusParams, event: ToolEvent) -> (a: ToolAction)
    ensures
        a == status_tool_next(*params, event),
{
    match event {
        ToolEvent::Start => ToolAction::OpenRepo { path: params.repo.clone() },
        ToolEvent::Opened => ToolAction::RenderStatus { options: params.render_options() },
        _ => reply(event),
    }
}

/// Decides the next piece of work of a diff tool call: open the repository, render the
/// diff of the parameters' path and area with their options, and answer with the output,
/// or with the error text of a failed step as a tool error.
pub fn diff_tool_step(params: &DiffParams, event: ToolEvent) -> (a: ToolAction)
    ensures
        a == diff_tool_next(*params, event),
{
    match event {
        ToolEvent::Start => ToolAction::OpenRepo { path: params.repo.clone() },
        ToolEvent::Opened => ToolAction::RenderDiff {
            path: params.path.clone(),
            area: params.diff_area(),
            options: params.render_options(),
        },
        _ => reply(event),
    }
}

} // verus!
