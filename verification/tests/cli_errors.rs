use gdl::cli::{resolve, run, AreaArg, Cli, ColorArg, Command, FormatArg, RunAction, RunEvent, TerminalFacts};
use gdl::model::{DiffArea, OpenError};
use gdl::render::{ColorPolicy, OutputFormat, RenderOptions, StatusView};

fn args(repo: Option<&str>, command: Option<Command>) -> Cli {
    Cli {
        repo: repo.map(|r| r.to_string()),
        color: ColorArg::Auto,
        width: None,
        paths_only: false,
        format: None,
        command,
    }
}

fn piped() -> TerminalFacts {
    TerminalFacts { stdout_is_terminal: false, no_color: false, terminal_columns: None }
}

#[test]
fn nonexistent_repo_has_stable_error_prefix() {
    let cli = args(Some("/definitely/nonexistent"), Some(Command::Status));
    let facts = piped();

    let first = run(&cli, &facts, RunEvent::Start);
    let path = match first {
        RunAction::OpenRepo { path: Some(path) } => path,
        other => panic!("expected the repository to be opened first, got {other:?}"),
    };
    assert_eq!(path, "/definitely/nonexistent");

    let error = OpenError::NotFound { path: path.clone() }.to_text();
    let next = run(&cli, &facts, RunEvent::OpenFailed { repo_path: path, error });
    let message = match next {
        RunAction::Fail { message } => message,
        other => panic!("expected the run to fail without writing output, got {other:?}"),
    };
    assert!(
        message.starts_with(
            "gdl: cannot open repo at /definitely/nonexistent: path does not exist: /definitely/nonexistent"
        ),
        "unexpected stderr: {message:?}"
    );
}

#[test]
fn run_without_subcommand_renders_status() {
    let cli = args(None, None);
    assert_eq!(run(&cli, &piped(), RunEvent::Start), RunAction::OpenRepo { path: None });
    assert_eq!(
        run(&cli, &piped(), RunEvent::Opened),
        RunAction::RenderStatus {
            options: RenderOptions { format: OutputFormat::Plain, color: ColorPolicy::Never, width: 80, view: StatusView::Full }
        }
    );
}

#[test]
fn run_diff_renders_the_requested_area() {
    let cli = args(Some("."), Some(Command::Diff { path: "src/lib.rs".to_string(), area: AreaArg::Staged }));
    match run(&cli, &piped(), RunEvent::Opened) {
        RunAction::RenderDiff { path, area, options } => {
            assert_eq!(path, "src/lib.rs");
            assert_eq!(area, DiffArea::Staged);
            assert_eq!(options.format, OutputFormat::Plain);
        },
        other => panic!("expected a diff, got {other:?}"),
    }
}

#[test]
fn run_writes_output_then_exits_cleanly() {
    let cli = args(None, None);
    assert_eq!(
        run(&cli, &piped(), RunEvent::Rendered { output: "x\n".to_string() }),
        RunAction::Write { output: "x\n".to_string() }
    );
    assert_eq!(run(&cli, &piped(), RunEvent::Written), RunAction::Exit { code: 0 });
}

#[test]
fn run_reports_render_write_and_path_errors() {
    let cli = args(None, None);
    assert_eq!(
        run(&cli, &piped(), RunEvent::RenderFailed { error: "failed to read blob".to_string() }),
        RunAction::Fail { message: "gdl: failed to read blob".to_string() }
    );
    assert_eq!(
        run(&cli, &piped(), RunEvent::WriteFailed { error: "Broken pipe".to_string() }),
        RunAction::Fail { message: "gdl: Broken pipe".to_string() }
    );
    assert_eq!(
        run(&cli, &piped(), RunEvent::RepoPathUnavailable { error: "No such file or directory".to_string() }),
        RunAction::Fail { message: "gdl: No such file or directory".to_string() }
    );
}

#[test]
fn auto_color_follows_terminal_and_no_color() {
    let cli = args(None, None);
    let tty = TerminalFacts { stdout_is_terminal: true, no_color: false, terminal_columns: Some(132) };
    assert_eq!(
        resolve(&cli, &tty),
        RenderOptions { format: OutputFormat::Ansi, color: ColorPolicy::Always, width: 132, view: StatusView::Full }
    );
    let tty_no_color = TerminalFacts { stdout_is_terminal: true, no_color: true, terminal_columns: None };
    assert_eq!(
        resolve(&cli, &tty_no_color),
        RenderOptions { format: OutputFormat::Plain, color: ColorPolicy::Never, width: 80, view: StatusView::Full }
    );
}

#[test]
fn explicit_arguments_win_over_the_terminal() {
    let cli = Cli {
        repo: None,
        color: ColorArg::Always,
        width: Some(120),
        paths_only: true,
        format: Some(FormatArg::Json),
        command: Some(Command::Status),
    };
    let tty = TerminalFacts { stdout_is_terminal: true, no_color: true, terminal_columns: Some(40) };
    assert_eq!(
        resolve(&cli, &tty),
        RenderOptions { format: OutputFormat::Json, color: ColorPolicy::Always, width: 120, view: StatusView::PathsOnly }
    );
    let never = Cli { color: ColorArg::Never, format: None, ..cli };
    assert_eq!(resolve(&never, &tty).format, OutputFormat::Plain);
    assert_eq!(resolve(&never, &tty).color, ColorPolicy::Never);
}

#[test]
fn open_errors_render_their_text() {
    assert_eq!(OpenError::NotFound { path: "/x".to_string() }.to_text(), "path does not exist: /x");
    assert_eq!(
        OpenError::BareRepository { git_dir: "/r.git".to_string() }.to_text(),
        "bare repositories are not supported: /r.git"
    );
    assert_eq!(OpenError::Open { message: "not a repository".to_string() }.to_text(), "not a repository");
}
