use gdl::cli::{resolve, Cli, ColorArg, Command, FormatArg, TerminalFacts};
use gdl::mcp::{
    default_width, diff_tool_step, status_tool_step, DiffParams, McpColorPolicy, McpDiffArea, McpOutputFormat, McpStatusView,
    StatusParams, ToolAction, ToolEvent,
};
use gdl::model::OpenError;
use gdl::model::DiffArea;
use gdl::render::{ColorPolicy, OutputFormat, RenderOptions, StatusView};

#[test]
fn tool_defaults_are_fixed() {
    assert_eq!(McpOutputFormat::default(), McpOutputFormat::Plain);
    assert_eq!(McpColorPolicy::default(), McpColorPolicy::Never);
    assert_eq!(McpStatusView::default(), McpStatusView::Full);
    assert_eq!(McpDiffArea::default(), McpDiffArea::Worktree);
    assert_eq!(default_width(), 80);
}

#[test]
fn status_params_resolve_to_render_options() {
    let params = StatusParams {
        repo: ".".to_string(),
        format: McpOutputFormat::Ansi,
        color: McpColorPolicy::Always,
        width: 120,
        view: McpStatusView::PathsOnly,
    };
    assert_eq!(
        params.render_options(),
        RenderOptions { format: OutputFormat::Ansi, color: ColorPolicy::Always, width: 120, view: StatusView::PathsOnly }
    );
}

#[test]
fn diff_params_resolve_to_render_options_and_area() {
    let params = DiffParams {
        repo: ".".to_string(),
        path: "file.txt".to_string(),
        format: McpOutputFormat::Json,
        color: McpColorPolicy::Never,
        width: 80,
        view: McpStatusView::Full,
        area: McpDiffArea::Head,
    };
    assert_eq!(
        params.render_options(),
        RenderOptions { format: OutputFormat::Json, color: ColorPolicy::Never, width: 80, view: StatusView::Full }
    );
    assert_eq!(params.diff_area(), DiffArea::Head);
    let staged = DiffParams { area: McpDiffArea::Staged, ..params.clone() };
    assert_eq!(staged.diff_area(), DiffArea::Staged);
    let worktree = DiffParams { area: McpDiffArea::Worktree, ..params };
    assert_eq!(worktree.diff_area(), DiffArea::Worktree);
}

#[test]
fn command_line_spelling_out_tool_parameters_resolves_alike() {
    let params = StatusParams {
        repo: ".".to_string(),
        format: McpOutputFormat::Plain,
        color: McpColorPolicy::Never,
        width: 120,
        view: McpStatusView::PathsOnly,
    };
    let cli = Cli {
        repo: Some(".".to_string()),
        color: ColorArg::Never,
        width: Some(120),
        paths_only: true,
        format: Some(FormatArg::Plain),
        command: Some(Command::Status),
    };
    for facts in [
        TerminalFacts { stdout_is_terminal: true, no_color: false, terminal_columns: Some(33) },
        TerminalFacts { stdout_is_terminal: false, no_color: true, terminal_columns: None },
    ] {
        assert_eq!(resolve(&cli, &facts), params.render_options());
    }
}

fn status_params(repo: &str) -> StatusParams {
    StatusParams {
        repo: repo.to_string(),
        format: McpOutputFormat::Plain,
        color: McpColorPolicy::Never,
        width: 80,
        view: McpStatusView::Full,
    }
}

#[test]
fn status_tool_reports_open_errors_as_tool_errors() {
    let params = status_params("missing");
    assert_eq!(status_tool_step(&params, ToolEvent::Start), ToolAction::OpenRepo { path: "missing".to_string() });
    let error = OpenError::NotFound { path: "missing".to_string() }.to_text();
    assert_eq!(
        status_tool_step(&params, ToolEvent::OpenFailed { error }),
        ToolAction::Reply { error: true, text: format!("path does not exist: {}", "missing") }
    );
}

#[test]
fn status_tool_renders_then_answers_with_the_output() {
    let params = status_params(".");
    assert_eq!(
        status_tool_step(&params, ToolEvent::Opened),
        ToolAction::RenderStatus {
            options: RenderOptions { format: OutputFormat::Plain, color: ColorPolicy::Never, width: 80, view: StatusView::Full }
        }
    );
    assert_eq!(
        status_tool_step(&params, ToolEvent::Rendered { output: "x".to_string() }),
        ToolAction::Reply { error: false, text: "x".to_string() }
    );
    assert_eq!(
        status_tool_step(&params, ToolEvent::RenderFailed { error: "failed to read blob".to_string() }),
        ToolAction::Reply { error: true, text: "failed to read blob".to_string() }
    );
}

#[test]
fn diff_tool_renders_the_requested_path_and_area() {
    let params = DiffParams {
        repo: "/r".to_string(),
        path: "tracked.txt".to_string(),
        format: McpOutputFormat::Plain,
        color: McpColorPolicy::Never,
        width: 80,
        view: McpStatusView::Full,
        area: McpDiffArea::Worktree,
    };
    assert_eq!(diff_tool_step(&params, ToolEvent::Start), ToolAction::OpenRepo { path: "/r".to_string() });
    assert_eq!(
        diff_tool_step(&params, ToolEvent::Opened),
        ToolAction::RenderDiff {
            path: "tracked.txt".to_string(),
            area: DiffArea::Worktree,
            options: RenderOptions { format: OutputFormat::Plain, color: ColorPolicy::Never, width: 80, view: StatusView::Full },
        }
    );
}
