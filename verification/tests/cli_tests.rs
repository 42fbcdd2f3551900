use cortana::cli::{
    check_daemon_flags, help_text, parse_command, parse_config_command, parse_opencode_command,
    parse_recap_args, parse_session_command, parse_summarize_args, piped_input, recap_json,
    recap_report, session_list, speak_message, summary_report, CliCommand, ConfigCommand,
    InstallTarget, OpenCodeCommand, SessionCommand,
};
use cortana::session::Session;
use cortana::summary::{summarize, SummaryMode};

fn args(v: &[&str]) -> Vec<String> {
    v.iter().map(|s| s.to_string()).collect()
}

#[test]
fn first_argument_picks_the_command() {
    assert_eq!(parse_command(&args(&[])).unwrap(), CliCommand::Tui);
    assert_eq!(parse_command(&args(&["-h"])).unwrap(), CliCommand::Help);
    assert_eq!(parse_command(&args(&["version"])).unwrap(), CliCommand::Version);
    assert_eq!(parse_command(&args(&["interactive"])).unwrap(), CliCommand::Tui);
    assert_eq!(parse_command(&args(&["appearance"])).unwrap(), CliCommand::Appear);
    assert_eq!(parse_command(&args(&["opencode", "x"])).unwrap(), CliCommand::OpenCode);
    assert_eq!(
        parse_command(&args(&["dance"])).unwrap_err(),
        "unknown command 'dance'. Run `cortana --help`."
    );
}

#[test]
fn help_text_names_the_version() {
    let h = help_text("0.2.0");
    assert!(h.starts_with("Cortana 0.2.0 — Terminal-first AI assistant\n\nUSAGE:\n  cortana                     Launch the interactive TUI\n"));
    assert!(h.ends_with("Default endpoint: https://api.deepseek.com/v1"));
}

#[test]
fn session_subcommands() {
    assert_eq!(parse_session_command(&args(&["list"])).unwrap(), SessionCommand::List);
    assert_eq!(parse_session_command(&args(&["export", "x"])).unwrap(), SessionCommand::Export);
    assert_eq!(
        parse_session_command(&args(&[])).unwrap_err(),
        "session requires a subcommand: start, list, recap, export"
    );
    assert_eq!(parse_session_command(&args(&["nap"])).unwrap_err(), "unknown session subcommand 'nap'");
}

#[test]
fn session_listing() {
    assert_eq!(session_list(&args(&[])), "No saved sessions.\n");
    assert_eq!(session_list(&args(&["a", "b"])), "Saved sessions:\n  - a\n  - b\n");
}

#[test]
fn summarize_options_are_read() {
    let a = parse_summarize_args(&args(&["--fast", "--mode", "code", "--json", "src/main.rs"])).unwrap();
    assert!(a.fast);
    assert!(a.json);
    assert_eq!(a.mode, SummaryMode::Code);
    assert_eq!(a.path, Some("src/main.rs".to_string()));
    let b = parse_summarize_args(&args(&["--fast"])).unwrap();
    assert_eq!(b.mode, SummaryMode::Text);
    assert!(!b.json);
    assert_eq!(b.path, None);
}

#[test]
fn summarize_options_refused() {
    let err = |v: &[&str]| parse_summarize_args(&args(v)).err().unwrap();
    assert_eq!(err(&[]), "only --fast (no-token) summaries are supported");
    assert_eq!(err(&["--fast", "--mode"]), "--mode requires a value");
    assert_eq!(err(&["--mode", "prose", "--fast"]), "unsupported summary mode 'prose'");
    assert_eq!(err(&["--fast", "-x"]), "unknown flag '-x'");
    assert_eq!(err(&["a", "b", "--fast"]), "only one input path allowed");
}

#[test]
fn blank_input_is_refused() {
    assert_eq!(piped_input(" \n\t".to_string()).unwrap_err(), "no input — pass a path or pipe text");
    assert_eq!(piped_input(" text\n".to_string()).unwrap(), " text\n");
}

#[test]
fn summary_report_plain_and_json() {
    let r = summarize("Rust macros are fun", SummaryMode::Text, None);
    assert_eq!(
        summary_report(&r, false),
        "RECAP: Rust macros are fun\nKEYWORDS: fun, macros, rust\nTOKEN_USAGE: 0\n"
    );
    assert_eq!(summary_report(&r, true), format!("{}\n", r.to_json()));
    let empty = summarize("", SummaryMode::Text, None);
    assert_eq!(summary_report(&empty, false), "RECAP: No summary available.\nTOKEN_USAGE: 0\n");
}

#[test]
fn recap_options_are_read() {
    let a = parse_recap_args(&args(&["--session", "work", "--format", "json", "--speak"])).unwrap();
    assert_eq!(a.session, "work");
    assert_eq!(a.format, "json");
    assert!(a.speak);
    let d = parse_recap_args(&args(&[])).unwrap();
    assert_eq!(d.session, "current");
    assert_eq!(d.format, "markdown");
    assert!(!d.speak);
    assert_eq!(parse_recap_args(&args(&["--format"])).err().unwrap(), "--format requires a value");
    assert_eq!(parse_recap_args(&args(&["--session"])).err().unwrap(), "--session requires a value");
    assert_eq!(parse_recap_args(&args(&["--loud"])).err().unwrap(), "unknown recap flag '--loud'");
}

#[test]
fn recap_json_line() {
    let mut s = Session::new("s");
    s.touch_file("a \"b\".rs");
    s.set_context("say \"hi\"");
    assert_eq!(
        recap_json(" current ", &s),
        "{\"session\":\"current\",\"recap\":\"Working on: say \\\"hi\\\" — Files: a \\\"b\\\".rs\",\"context\":\"say \\\"hi\\\"\",\"files\":[\"a \\\"b\\\".rs\"],\"message_count\":0}"
    );
}

#[test]
fn recap_report_follows_the_format() {
    let s = Session::new("s");
    let json = parse_recap_args(&args(&["--format", "json"])).unwrap();
    assert_eq!(recap_report(&json, &s), format!("{}\n", recap_json("current", &s)));
    let md = parse_recap_args(&args(&[])).unwrap();
    assert_eq!(recap_report(&md, &s), format!("{}\n", s.to_markdown()));
}

#[test]
fn speak_needs_a_message() {
    assert_eq!(speak_message(&args(&[])).unwrap_err(), "speak requires a message");
    assert_eq!(speak_message(&args(&["Build", "done."])).unwrap(), "Build done.");
}

#[test]
fn daemon_requires_stdio() {
    assert!(check_daemon_flags(&args(&["--stdio"])).is_ok());
    assert_eq!(check_daemon_flags(&args(&[])).unwrap_err(), "daemon currently requires --stdio");
    assert_eq!(check_daemon_flags(&args(&["--tcp", "--stdio"])).unwrap_err(), "unknown daemon flag '--tcp'");
}

#[test]
fn config_subcommand() {
    assert!(matches!(parse_config_command(&args(&[])), ConfigCommand::Show));
    assert!(matches!(parse_config_command(&args(&["init"])), ConfigCommand::Init(None)));
    match parse_config_command(&args(&["init", "c.toml"])) {
        ConfigCommand::Init(Some(p)) => assert_eq!(p, "c.toml"),
        _ => panic!("expected init with a path"),
    }
}

#[test]
fn opencode_install_options() {
    match parse_opencode_command(&args(&["install", "--global", "--print"]), true).unwrap() {
        OpenCodeCommand::Install { target, print_only } => {
            assert!(matches!(target, InstallTarget::Global));
            assert!(print_only);
        }
        _ => panic!("expected install"),
    }
    match parse_opencode_command(&args(&["install", "--path", "p.ts"]), false).unwrap() {
        OpenCodeCommand::Install { target: InstallTarget::Path(p), print_only } => {
            assert_eq!(p, "p.ts");
            assert!(!print_only);
        }
        _ => panic!("expected install to a path"),
    }
    assert!(matches!(parse_opencode_command(&args(&["path"]), true).unwrap(), OpenCodeCommand::Path));
}

#[test]
fn opencode_errors() {
    let err = |v: &[&str], g: bool| parse_opencode_command(&args(v), g).err().unwrap();
    assert_eq!(err(&[], true), "opencode requires a subcommand: install, path");
    assert_eq!(err(&["remove"], true), "unknown opencode subcommand 'remove'");
    assert_eq!(err(&["install", "--global", "--bad"], false), "could not resolve user config directory for --global");
    assert_eq!(err(&["install", "--bad"], true), "unknown opencode install flag '--bad'");
    assert_eq!(err(&["install", "--path"], true), "--path requires a destination file");
}
