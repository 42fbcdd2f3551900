//! The command line: what the arguments ask for, and the text the commands print.
use vstd::prelude::*;
use crate::text::{chars_of, chars_eq_str, push_str, string_of, trim, trim_chars, join, dec,
    u64_string};
use crate::summary::{str_string, strs, SummaryMode, SummaryResult, SummaryView, mode_named,
    escape, json_escape, summary_json, mode_label};
use crate::session::{Session, SessionView, recap_text, recent_cuttable, markdown_text};

verus! {

/// What the first argument asks for.
#[derive(Debug, Clone, Copy, PartialEq, Eq, Structural)]
pub enum CliCommand {
    Tui,
    Help,
    Version,
    Boot,
    Appear,
    Session,
    Summarize,
    Recap,
    Speak,
    Daemon,
    OpenCode,
    Config,
}

/// The command a first argument names.
pub open spec fn cli_command(a: Seq<char>) -> Option<CliCommand> {
    if a == "--help"@ || a == "-h"@ || a == "help"@ {
        Some(CliCommand::Help)
    } else if a == "--version"@ || a == "-V"@ || a == "version"@ {
        Some(CliCommand::Version)
    } else if a == "tui"@ || a == "interactive"@ {
        Some(CliCommand::Tui)
    } else if a == "boot"@ {
        Some(CliCommand::Boot)
    } else if a == "appear"@ || a == "appearance"@ {
        Some(CliCommand::Appear)
    } else if a == "session"@ {
        Some(CliCommand::Session)
    } else if a == "summarize"@ {
        Some(CliCommand::Summarize)
    } else if a == "recap"@ {
        Some(CliCommand::Recap)
    } else if a == "speak"@ {
        Some(CliCommand::Speak)
    } else if a == "daemon"@ {
        Some(CliCommand::Daemon)
    } else if a == "opencode"@ {
        Some(CliCommand::OpenCode)
    } else if a == "config"@ {
        Some(CliCommand::Config)
    } else {
        None
    }
}

/// Reads the command from the arguments: none means the interface; an unknown first
/// argument is refused.
pub fn parse_command(args: &Vec<String>) -> (r: Result<CliCommand, String>)
    ensures
        args.len() == 0 ==> (r matches Ok(c) && c == CliCommand::Tui),
        args.len() > 0 ==> match cli_command(args@[0]@) {
            Some(c) => r matches Ok(d) && d == c,
            None => r matches Err(e) && e@ == "unknown command '"@ + args@[0]@
                + "'. Run `cortana --help`."@,
        },
{
    if args.len() == 0 {
        return Ok(CliCommand::Tui);
    }
    let a = chars_of(args[0].as_str());
    if chars_eq_str(&a, "--help") || chars_eq_str(&a, "-h") || chars_eq_str(&a, "help") {
        Ok(CliCommand::Help)
    } else if chars_eq_str(&a, "--version") || chars_eq_str(&a, "-V") || chars_eq_str(&a, "version") {
        Ok(CliCommand::Version)
    } else if chars_eq_str(&a, "tui") || chars_eq_str(&a, "interactive") {
        Ok(CliCommand::Tui)
    } else if chars_eq_str(&a, "boot") {
        Ok(CliCommand::Boot)
    } else if chars_eq_str(&a, "appear") || chars_eq_str(&a, "appearance") {
        Ok(CliCommand::Appear)
    } else if chars_eq_str(&a, "session") {
        Ok(CliCommand::Session)
    } else if chars_eq_str(&a, "summarize") {
        Ok(CliCommand::Summarize)
    } else if chars_eq_str(&a, "recap") {
        Ok(CliCommand::Recap)
    } else if chars_eq_str(&a, "speak") {
        Ok(CliCommand::Speak)
    } else if chars_eq_str(&a, "daemon") {
        Ok(CliCommand::Daemon)
    } else if chars_eq_str(&a, "opencode") {
        Ok(CliCommand::OpenCode)
    } else if chars_eq_str(&a, "config") {
        Ok(CliCommand::Config)
    } else {
        let mut e = str_string("unknown command '");
        push_str(&mut e, args[0].as_str());
        push_str(&mut e, "'. Run `cortana --help`.");
        Err(e)
    }
}

/// The usage text after "Cortana " and the version.
pub const HELP_BODY: &'static str = " — Terminal-first AI assistant\n\nUSAGE:\n  cortana                     Launch the interactive TUI\n  cortana tui                 Same as above\n  cortana boot                Show boot splash\n  cortana session start       Show session start banner\n  cortana session list        List saved sessions\n  cortana session recap       Print current session recap\n  cortana session export      Export session as markdown\n  cortana summarize --fast [--mode text|code|diff] [--json] [path]\n  cortana recap --session current [--format markdown|json] [--speak]\n  cortana speak <message>\n  cortana daemon --stdio\n  cortana opencode install [--project|--global|--path file|--print]\n  cortana config [init]       Show or create config file\n\nTUI KEYBINDINGS:\n  /           Enter command mode\n  Tab         Enter chat mode\n  Esc         Cancel / quit\n  Enter       Send message\n\nCOMMANDS (in TUI, prefix with /):\n  /help          Show commands\n  /recap         Show session recap\n  /summarize     Fast no-token summary\n  /speak         Speak text aloud\n  /context       Set/get session context\n  /clear         Clear messages\n  /quit          Exit\n\nAPI KEY:\n  Set DEEPSEEK_API_KEY env var for LLM chat (optional).\n  Cortana works fully offline for recaps, summaries, and speech.\n  Default endpoint: https://api.deepseek.com/v1";

/// The usage text for a version.
pub fn help_text(version: &str) -> (r: String)
    ensures
        r@ == "Cortana "@ + version@ + HELP_BODY@,
{
    let mut r = str_string("Cortana ");
    push_str(&mut r, version);
    push_str(&mut r, HELP_BODY);
    r
}

// ---------------------------------------------------------------- session

/// A `session` subcommand.
#[derive(Debug, Clone, Copy, PartialEq, Eq, Structural)]
pub enum SessionCommand {
    Start,
    List,
    Recap,
    Export,
}

/// Reads the `session` subcommand.
pub fn parse_session_command(args: &Vec<String>) -> (r: Result<SessionCommand, String>)
    ensures
        args.len() == 0 ==> (r matches Err(e) && e@
            == "session requires a subcommand: start, list, recap, export"@),
        args.len() > 0 ==> {
            let a = args@[0]@;
            if a == "start"@ {
                r matches Ok(c) && c == SessionCommand::Start
            } else if a == "list"@ {
                r matches Ok(c) && c == SessionCommand::List
            } else if a == "recap"@ {
                r matches Ok(c) && c == SessionCommand::Recap
            } else if a == "export"@ {
                r matches Ok(c) && c == SessionCommand::Export
            } else {
                r matches Err(e) && e@ == "unknown session subcommand '"@ + a + "'"@
            }
        },
{
    if args.len() == 0 {
        return Err(str_string("session requires a subcommand: start, list, recap, export"));
    }
    let a = chars_of(args[0].as_str());
    if chars_eq_str(&a, "start") {
        Ok(SessionCommand::Start)
    } else if chars_eq_str(&a, "list") {
        Ok(SessionCommand::List)
    } else if chars_eq_str(&a, "recap") {
        Ok(SessionCommand::Recap)
    } else if chars_eq_str(&a, "export") {
        Ok(SessionCommand::Export)
    } else {
        let mut e = str_string("unknown session subcommand '");
        push_str(&mut e, args[0].as_str());
        push_str(&mut e, "'");
        Err(e)
    }
}

/// The lines `session list` prints for the sessions' names.
pub open spec fn session_list_lines(names: Seq<Seq<char>>) -> Seq<char>
    decreases names.len(),
{
    if names.len() == 0 {
        seq![]
    } else {
        session_list_lines(names.drop_last()) + "  - "@ + names.last() + "\n"@
    }
}

/// What `session list` prints.
pub open spec fn session_list_text(names: Seq<Seq<char>>) -> Seq<char> {
    if names.len() == 0 {
        "No saved sessions.\n"@
    } else {
        "Saved sessions:\n"@ + session_list_lines(names)
    }
}

/// What `session list` prints for the saved sessions' names.
pub fn session_list(names: &Vec<String>) -> (r: String)
    ensures
        r@ == session_list_text(strs(names@)),
{
    if names.len() == 0 {
        return str_string("No saved sessions.\n");
    }
    let mut r = str_string("Saved sessions:\n");
    let ghost head = r@;
    let mut i: usize = 0;
    while i < names.len()
        invariant
            i <= names.len(),
            head == "Saved sessions:\n"@,
            r@ == head + session_list_lines(strs(names@).take(i as int)),
        decreases names.len() - i,
    {
        push_str(&mut r, "  - ");
        push_str(&mut r, names[i].as_str());
        push_str(&mut r, "\n");
        assert(strs(names@).take(i + 1).drop_last() =~= strs(names@).take(i as int));
        i = i + 1;
    }
    assert(strs(names@).take(names.len() as int) =~= strs(names@));
    r
}

// ---------------------------------------------------------------- summarize

/// The options of `summarize`.
pub struct SummarizeArgs {
    pub fast: bool,
    pub mode: SummaryMode,
    pub json: bool,
    pub path: Option<String>,
}

/// What `SummarizeArgs` hold.
pub struct SummarizeArgsView {
    pub fast: bool,
    pub mode: SummaryMode,
    pub json: bool,
    pub path: Option<Seq<char>>,
}

impl View for SummarizeArgs {
    type V = SummarizeArgsView;

    open spec fn view(&self) -> SummarizeArgsView {
        SummarizeArgsView {
            fast: self.fast,
            mode: self.mode,
            json: self.json,
            path: match self.path {
                Some(p) => Some(p@),
                None => None,
            },
        }
    }
}

/// The options of `summarize` read from `args[i..]` on top of `acc`, or the error.
pub open spec fn summarize_args_from(args: Seq<Seq<char>>, i: int, acc: SummarizeArgsView) -> Result<
    SummarizeArgsView,
    Seq<char>,
>
    decreases args.len() - i,
{
    if i < 0 || i >= args.len() {
        if acc.fast {
            Ok(acc)
        } else {
            Err("only --fast (no-token) summaries are supported"@)
        }
    } else {
        let a = args[i];
        if a == "--fast"@ {
            summarize_args_from(args, i + 1, SummarizeArgsView { fast: true, ..acc })
        } else if a == "--json"@ {
            summarize_args_from(args, i + 1, SummarizeArgsView { json: true, ..acc })
        } else if a == "--mode"@ {
            if i + 1 >= args.len() {
                Err("--mode requires a value"@)
            } else {
                match mode_named(args[i + 1]) {
                    Some(m) => summarize_args_from(args, i + 2, SummarizeArgsView { mode: m, ..acc }),
                    None => Err("unsupported summary mode '"@ + args[i + 1] + "'"@),
                }
            }
        } else if a.len() > 0 && a[0] == '-' {
            Err("unknown flag '"@ + a + "'"@)
        } else if acc.path is Some {
            Err("only one input path allowed"@)
        } else {
            summarize_args_from(args, i + 1, SummarizeArgsView { path: Some(a), ..acc })
        }
    }
}

/// The options of `summarize`, from the defaults (text mode, no JSON, standard input).
pub open spec fn summarize_args(args: Seq<Seq<char>>) -> Result<SummarizeArgsView, Seq<char>> {
    summarize_args_from(
        args,
        0,
        SummarizeArgsView { fast: false, mode: SummaryMode::Text, json: false, path: None },
    )
}

/// Reads the options of `summarize`.
pub fn parse_summarize_args(args: &Vec<String>) -> (r: Result<SummarizeArgs, String>)
    ensures
        match (r, summarize_args(strs(args@))) {
            (Ok(a), Ok(b)) => a@ == b,
            (Err(e), Err(f)) => e@ == f,
            _ => false,
        },
{
    let ghost all = strs(args@);
    let mut acc = SummarizeArgs { fast: false, mode: SummaryMode::Text, json: false, path: None };
    let mut i: usize = 0;
    while i < args.len()
        invariant
            i <= args.len(),
            all == strs(args@),
            summarize_args_from(all, i as int, acc@) == summarize_args(all),
        decreases args.len() - i,
    {
        let a = chars_of(args[i].as_str());
        assert(a@ == all[i as int]);
        if chars_eq_str(&a, "--fast") {
            acc.fast = true;
        } else if chars_eq_str(&a, "--json") {
            acc.json = true;
        } else if chars_eq_str(&a, "--mode") {
            if i + 1 >= args.len() {
                return Err(str_string("--mode requires a value"));
            }
            assert(args@[i + 1]@ == all[i + 1]);
            match SummaryMode::parse(args[i + 1].as_str()) {
                Ok(m) => {
                    acc.mode = m;
                },
                Err(e) => {
                    return Err(e);
                },
            }
            i = i + 1;
        } else if a.len() > 0 && a[0] == '-' {
            let mut e = str_string("unknown flag '");
            push_str(&mut e, args[i].as_str());
            push_str(&mut e, "'");
            return Err(e);
        } else if acc.path.is_some() {
            return Err(str_string("only one input path allowed"));
        } else {
            acc.path = Some(str_string(args[i].as_str()));
        }
        i = i + 1;
    }
    if !acc.fast {
        return Err(str_string("only --fast (no-token) summaries are supported"));
    }
    Ok(acc)
}

/// Text read from standard input to summarize; blank input is refused.
pub fn piped_input(buf: String) -> (r: Result<String, String>)
    ensures
        trim(buf@).len() == 0 ==> (r matches Err(e) && e@ == "no input — pass a path or pipe text"@),
        trim(buf@).len() > 0 ==> (r matches Ok(t) && t@ == buf@),
{
    let v = chars_of(buf.as_str());
    let t = trim_chars(&v);
    if t.len() == 0 {
        Err(str_string("no input — pass a path or pipe text"))
    } else {
        Ok(buf)
    }
}

/// What `summarize` prints: the JSON object, or the banner, the keywords when there are
/// some, and the tokens spent.
pub open spec fn summary_report_text(r: SummaryView, json: bool) -> Seq<char> {
    if json {
        summary_json(r) + "\n"@
    } else {
        mode_label(r.mode) + ": "@ + r.summary + "\n"@ + (if r.keywords.len() > 0 {
            "KEYWORDS: "@ + join(r.keywords, ", "@) + "\n"@
        } else {
            seq![]
        }) + "TOKEN_USAGE: "@ + dec(r.token_usage) + "\n"@
    }
}

/// What `summarize` prints for a result.
pub fn summary_report(result: &SummaryResult, json: bool) -> (r: String)
    ensures
        r@ == summary_report_text(result@, json),
{
    if json {
        let mut r = result.to_json();
        push_str(&mut r, "\n");
        return r;
    }
    let mut r = result.to_banner();
    push_str(&mut r, "\n");
    if result.keywords.len() > 0 {
        push_str(&mut r, "KEYWORDS: ");
        crate::tui::push_joined(&mut r, &result.keywords, ", ");
        push_str(&mut r, "\n");
    }
    push_str(&mut r, "TOKEN_USAGE: ");
    let d = u64_string(result.token_usage as u64);
    push_str(&mut r, d.as_str());
    push_str(&mut r, "\n");
    r
}

// ---------------------------------------------------------------- recap

/// The options of `recap`.
pub struct RecapArgs {
    pub session: String,
    pub format: String,
    pub speak: bool,
}

/// What `RecapArgs` hold.
pub struct RecapArgsView {
    pub session: Seq<char>,
    pub format: Seq<char>,
    pub speak: bool,
}

impl View for RecapArgs {
    type V = RecapArgsView;

    open spec fn view(&self) -> RecapArgsView {
        RecapArgsView { session: self.session@, format: self.format@, speak: self.speak }
    }
}

/// The options of `recap` read from `args[i..]` on top of `acc`, or the error.
pub open spec fn recap_args_from(args: Seq<Seq<char>>, i: int, acc: RecapArgsView) -> Result<
    RecapArgsView,
    Seq<char>,
>
    decreases args.len() - i,
{
    if i < 0 || i >= args.len() {
        Ok(acc)
    } else {
        let a = args[i];
        if a == "--session"@ {
            if i + 1 >= args.len() {
                Err("--session requires a value"@)
            } else {
                recap_args_from(args, i + 2, RecapArgsView { session: args[i + 1], ..acc })
            }
        } else if a == "--format"@ {
            if i + 1 >= args.len() {
                Err("--format requires a value"@)
            } else {
                recap_args_from(args, i + 2, RecapArgsView { format: args[i + 1], ..acc })
            }
        } else if a == "--speak"@ {
            recap_args_from(args, i + 1, RecapArgsView { speak: true, ..acc })
        } else {
            Err("unknown recap flag '"@ + a + "'"@)
        }
    }
}

/// The options of `recap`, from the defaults (the current session, as Markdown, silent).
pub open spec fn recap_args(args: Seq<Seq<char>>) -> Result<RecapArgsView, Seq<char>> {
    recap_args_from(
        args,
        0,
        RecapArgsView { session: "current"@, format: "markdown"@, speak: false },
    )
}

/// Reads the options of `recap`.
pub fn parse_recap_args(args: &Vec<String>) -> (r: Result<RecapArgs, String>)
    ensures
        match (r, recap_args(strs(args@))) {
            (Ok(a), Ok(b)) => a@ == b,
            (Err(e), Err(f)) => e@ == f,
            _ => false,
        },
{
    let ghost all = strs(args@);
    let mut acc = RecapArgs {
        session: str_string("current"),
        format: str_string("markdown"),
        speak: false,
    };
    let mut i: usize = 0;
    while i < args.len()
        invariant
            i <= args.len(),
            all == strs(args@),
            recap_args_from(all, i as int, acc@) == recap_args(all),
        decreases args.len() - i,
    {
        let a = chars_of(args[i].as_str());
        assert(a@ == all[i as int]);
        if chars_eq_str(&a, "--session") {
            if i + 1 >= args.len() {
                return Err(str_string("--session requires a value"));
            }
            assert(args@[i + 1]@ == all[i + 1]);
            acc.session = str_string(args[i + 1].as_str());
            i = i + 1;
        } else if chars_eq_str(&a, "--format") {
            if i + 1 >= args.len() {
                return Err(str_string("--format requires a value"));
            }
            assert(args@[i + 1]@ == all[i + 1]);
            acc.format = str_string(args[i + 1].as_str());
            i = i + 1;
        } else if chars_eq_str(&a, "--speak") {
            acc.speak = true;
        } else {
            let mut e = str_string("unknown recap flag '");
            push_str(&mut e, args[i].as_str());
            push_str(&mut e, "'");
            return Err(e);
        }
        i = i + 1;
    }
    Ok(acc)
}

/// `{:?}` of a list of strings: each string in double quotes with Rust's debug escapes,
/// separated by commas, in square brackets. The escapes follow Unicode tables, so only the
/// result is named.
pub uninterp spec fn debug_list(v: Seq<Seq<char>>) -> Seq<char>;

/// Formats a list of strings with `{:?}`; the contract only names the result.
#[verifier::external_body]
fn debug_strings(v: &Vec<String>) -> (r: String)
    ensures
        r@ == debug_list(strs(v@)),
{
    format!("{:?}", v)
}

/// The JSON line `recap --format json` prints (without its newline), given how the files
/// are listed.
pub open spec fn recap_json_text(name: Seq<char>, v: SessionView, files: Seq<char>) -> Seq<char> {
    "{\"session\":\""@ + escape(trim(name)) + "\",\"recap\":\""@ + escape(recap_text(v))
        + "\",\"context\":\""@ + escape(v.context) + "\",\"files\":"@ + files
        + ",\"message_count\":"@ + dec(v.messages.len()) + "}"@
}

/// The JSON line of `recap --format json`, given the listing of the files.
pub fn recap_json_with(name: &str, session: &Session, files: &str) -> (r: String)
    requires
        recent_cuttable(session@),
    ensures
        r@ == recap_json_text(name@, session@, files@),
{
    let v = chars_of(name);
    let t = trim_chars(&v);
    let trimmed = string_of(t.as_slice());
    let mut r = str_string("{\"session\":\"");
    push_str(&mut r, json_escape(trimmed.as_str()).as_str());
    push_str(&mut r, "\",\"recap\":\"");
    push_str(&mut r, json_escape(session.recap().as_str()).as_str());
    push_str(&mut r, "\",\"context\":\"");
    push_str(&mut r, json_escape(session.context.as_str()).as_str());
    push_str(&mut r, "\",\"files\":");
    push_str(&mut r, files);
    push_str(&mut r, ",\"message_count\":");
    push_str(&mut r, u64_string(session.messages.len() as u64).as_str());
    push_str(&mut r, "}");
    r
}

/// The JSON line of `recap --format json`.
pub fn recap_json(name: &str, session: &Session) -> (r: String)
    requires
        recent_cuttable(session@),
    ensures
        r@ == recap_json_text(name@, session@, debug_list(session@.files_touched)),
{
    let files = debug_strings(&session.files_touched);
    recap_json_with(name, session, files.as_str())
}

/// What `recap` prints for its options: the JSON line when the format is `json`, else the
/// Markdown export.
pub fn recap_report(args: &RecapArgs, session: &Session) -> (r: String)
    requires
        args@.format == "json"@ ==> recent_cuttable(session@),
    ensures
        args@.format == "json"@ ==> r@ == recap_json_text(
            args@.session,
            session@,
            debug_list(session@.files_touched),
        ) + "\n"@,
        args@.format != "json"@ ==> r@ == markdown_text(session@) + "\n"@,
{
    let f = chars_of(args.format.as_str());
    let mut r = if chars_eq_str(&f, "json") {
        recap_json(args.session.as_str(), session)
    } else {
        session.to_markdown()
    };
    push_str(&mut r, "\n");
    r
}

// ---------------------------------------------------------------- speak, daemon, config

/// The message `speak` says: the arguments joined by spaces; none is refused.
pub fn speak_message(args: &Vec<String>) -> (r: Result<String, String>)
    ensures
        args.len() == 0 ==> (r matches Err(e) && e@ == "speak requires a message"@),
        args.len() > 0 ==> (r matches Ok(m) && m@ == join(strs(args@), " "@)),
{
    if args.len() == 0 {
        return Err(str_string("speak requires a message"));
    }
    let mut m = String::new();
    crate::tui::push_joined(&mut m, args, " ");
    Ok(m)
}

/// Whether `daemon`'s flags from `i` on are accepted, on top of whether `--stdio` was seen.
pub open spec fn daemon_flags_from(args: Seq<Seq<char>>, i: int, stdio: bool) -> Result<(), Seq<char>>
    decreases args.len() - i,
{
    if i < 0 || i >= args.len() {
        if stdio {
            Ok(())
        } else {
            Err("daemon currently requires --stdio"@)
        }
    } else if args[i] == "--stdio"@ {
        daemon_flags_from(args, i + 1, true)
    } else {
        Err("unknown daemon flag '"@ + args[i] + "'"@)
    }
}

/// Checks the flags of `daemon`: only `--stdio`, and it is required.
pub fn check_daemon_flags(args: &Vec<String>) -> (r: Result<(), String>)
    ensures
        match (r, daemon_flags_from(strs(args@), 0, false)) {
            (Ok(_), Ok(_)) => true,
            (Err(e), Err(f)) => e@ == f,
            _ => false,
        },
{
    let ghost all = strs(args@);
    let mut stdio = false;
    let mut i: usize = 0;
    while i < args.len()
        invariant
            i <= args.len(),
            all == strs(args@),
            daemon_flags_from(all, i as int, stdio) == daemon_flags_from(all, 0, false),
        decreases args.len() - i,
    {
        let a = chars_of(args[i].as_str());
        assert(a@ == all[i as int]);
        if chars_eq_str(&a, "--stdio") {
            stdio = true;
        } else {
            let mut e = str_string("unknown daemon flag '");
            push_str(&mut e, args[i].as_str());
            push_str(&mut e, "'");
            return Err(e);
        }
        i = i + 1;
    }
    if !stdio {
        return Err(str_string("daemon currently requires --stdio"));
    }
    Ok(())
}

/// What `config` does: write the default file (to the given path, or the default one), or
/// print the settings.
pub enum ConfigCommand {
    Init(Option<String>),
    Show,
}

/// Reads the `config` subcommand.
pub fn parse_config_command(args: &Vec<String>) -> (r: ConfigCommand)
    ensures
        args.len() > 0 && args@[0]@ == "init"@ ==> (r matches ConfigCommand::Init(p) && (match p {
            Some(x) => args.len() > 1 && x@ == args@[1]@,
            None => args.len() <= 1,
        })),
        !(args.len() > 0 && args@[0]@ == "init"@) ==> r is Show,
{
    if args.len() > 0 && chars_eq_str(&chars_of(args[0].as_str()), "init") {
        if args.len() > 1 {
            ConfigCommand::Init(Some(str_string(args[1].as_str())))
        } else {
            ConfigCommand::Init(None)
        }
    } else {
        ConfigCommand::Show
    }
}

// ---------------------------------------------------------------- opencode

/// Where `opencode install` puts the addon.
pub enum InstallTarget {
    /// `.opencode/plugins/cortana.ts` in the project.
    Project,
    /// `opencode/plugins/cortana.ts` in the user's configuration directory.
    Global,
    /// A file named on the command line.
    Path(String),
}

/// What `InstallTarget` holds.
pub enum InstallTargetView {
    Project,
    Global,
    Path(Seq<char>),
}

impl View for InstallTarget {
    type V = InstallTargetView;

    open spec fn view(&self) -> InstallTargetView {
        match self {
            InstallTarget::Project => InstallTargetView::Project,
            InstallTarget::Global => InstallTargetView::Global,
            InstallTarget::Path(p) => InstallTargetView::Path(p@),
        }
    }
}

/// An `opencode` subcommand.
pub enum OpenCodeCommand {
    /// Install the addon, or only print it.
    Install { target: InstallTarget, print_only: bool },
    /// Print where the addon's source lives.
    Path,
}

/// The install options read from `args[i..]` on top of a target and the print flag;
/// `global_ok` tells whether the user's configuration directory can be found.
pub open spec fn install_args_from(
    args: Seq<Seq<char>>,
    i: int,
    target: InstallTargetView,
    print_only: bool,
    global_ok: bool,
) -> Result<(InstallTargetView, bool), Seq<char>>
    decreases args.len() - i,
{
    if i < 1 || i >= args.len() {
        Ok((target, print_only))
    } else {
        let a = args[i];
        if a == "--global"@ {
            if global_ok {
                install_args_from(args, i + 1, InstallTargetView::Global, print_only, global_ok)
            } else {
                Err("could not resolve user config directory for --global"@)
            }
        } else if a == "--project"@ {
            install_args_from(args, i + 1, InstallTargetView::Project, print_only, global_ok)
        } else if a == "--path"@ {
            if i + 1 >= args.len() {
                Err("--path requires a destination file"@)
            } else {
                install_args_from(args, i + 2, InstallTargetView::Path(args[i + 1]), print_only, global_ok)
            }
        } else if a == "--print"@ {
            install_args_from(args, i + 1, target, true, global_ok)
        } else {
            Err("unknown opencode install flag '"@ + a + "'"@)
        }
    }
}

/// Reads the `opencode` subcommand; `global_ok` tells whether the user's configuration
/// directory can be found (asked only of `--global`).
pub fn parse_opencode_command(args: &Vec<String>, global_ok: bool) -> (r: Result<OpenCodeCommand, String>)
    ensures
        args.len() == 0 ==> (r matches Err(e) && e@ == "opencode requires a subcommand: install, path"@),
        args.len() > 0 ==> if args@[0]@ == "install"@ {
            match (
                r,
                install_args_from(strs(args@), 1, InstallTargetView::Project, false, global_ok),
            ) {
                (Ok(OpenCodeCommand::Install { target, print_only }), Ok(x)) => target@ == x.0
                    && print_only == x.1,
                (Err(e), Err(f)) => e@ == f,
                _ => false,
            }
        } else if args@[0]@ == "path"@ {
            r matches Ok(c) && c is Path
        } else {
            r matches Err(e) && e@ == "unknown opencode subcommand '"@ + args@[0]@ + "'"@
        },
{
    if args.len() == 0 {
        return Err(str_string("opencode requires a subcommand: install, path"));
    }
    let first = chars_of(args[0].as_str());
    if chars_eq_str(&first, "install") {
        let ghost all = strs(args@);
        let mut target = InstallTarget::Project;
        let mut print_only = false;
        let mut i: usize = 1;
        while i < args.len()
            invariant
                1 <= i <= args.len(),
                all == strs(args@),
                args@[0]@ == "install"@,
                install_args_from(all, i as int, target@, print_only, global_ok)
                    == install_args_from(all, 1, InstallTargetView::Project, false, global_ok),
            decreases args.len() - i,
        {
            let a = chars_of(args[i].as_str());
            assert(a@ == all[i as int]);
            if chars_eq_str(&a, "--global") {
                if !global_ok {
                    return Err(str_string("could not resolve user config directory for --global"));
                }
                target = InstallTarget::Global;
            } else if chars_eq_str(&a, "--project") {
                target = InstallTarget::Project;
            } else if chars_eq_str(&a, "--path") {
                if i + 1 >= args.len() {
                    return Err(str_string("--path requires a destination file"));
                }
                assert(args@[i + 1]@ == all[i + 1]);
                target = InstallTarget::Path(str_string(args[i + 1].as_str()));
                i = i + 1;
            } else if chars_eq_str(&a, "--print") {
                print_only = true;
            } else {
                let mut e = str_string("unknown opencode install flag '");
                push_str(&mut e, args[i].as_str());
                push_str(&mut e, "'");
                return Err(e);
            }
            i = i + 1;
        }
        Ok(OpenCodeCommand::Install { target, print_only })
    } else if chars_eq_str(&first, "path") {
        Ok(OpenCodeCommand::Path)
    } else {
        let mut e = str_string("unknown opencode subcommand '");
        push_str(&mut e, args[0].as_str());
        push_str(&mut e, "'");
        Err(e)
    }
}

} // verus!
