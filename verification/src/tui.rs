//! What the terminal interface decides: what keys do to the input line, what commands and
//! plain chat are answered, and what is left for the terminal loop to do.
use vstd::prelude::*;
use crate::text::{chars_of, byte_len, byte_len_of, slice_chars, string_of, trim, trim_range,
    push_char, push_str, extend_chars, count_until, lemma_count_until, strip_repeated,
    strip_repeated_from, occurs, contains_str, chars_eq_str, join, join_chars, views};
use crate::session::{boundary_at, char_index, char_index_at, lemma_byte_len_step, Session,
    SessionView, SessionStore, MessageView, recorded, context_set, recap_text, recent_cuttable,
    is_stamp, chrono_now};
use crate::summary::{str_string, strs, summarize, summary_of, SummaryMode, SummaryView, mode_label};

verus! {

/// What keys do: browse, edit a message, or listen to speech.
#[derive(Debug, Clone, Copy, PartialEq, Eq, Structural)]
pub enum InputMode {
    Normal,
    Chat,
    Speaking,
}

/// A key press, as far as the interface tells keys apart.
#[derive(Debug, Clone, Copy, PartialEq, Eq, Structural)]
pub enum KeyInput {
    Esc,
    Tab,
    Enter,
    Backspace,
    Left,
    Right,
    Home,
    End,
    Char(char),
    Other,
}

/// What a key asks of the terminal loop beyond the input line.
#[derive(Debug, Clone)]
pub enum KeyEffect {
    Nothing,
    /// Save the session and stop.
    Quit,
    /// Stop listening to the speech being played.
    CancelSpeech,
    /// Handle a message the user sent (trimmed, not empty).
    Submit(String),
}

/// What a key effect holds, as text.
pub enum EffectView {
    Nothing,
    Quit,
    CancelSpeech,
    Submit(Seq<char>),
}

impl View for KeyEffect {
    type V = EffectView;

    open spec fn view(&self) -> EffectView {
        match self {
            KeyEffect::Nothing => EffectView::Nothing,
            KeyEffect::Quit => EffectView::Quit,
            KeyEffect::CancelSpeech => EffectView::CancelSpeech,
            KeyEffect::Submit(m) => EffectView::Submit(m@),
        }
    }
}

/// The input line, its cursor (a byte offset), the mode, the status line, and whether the
/// interface keeps running.
pub struct UiState {
    pub input: String,
    pub cursor: usize,
    pub mode: InputMode,
    pub status: String,
    pub running: bool,
}

/// What a `UiState` holds, as text and numbers.
pub struct UiView {
    pub input: Seq<char>,
    pub cursor: int,
    pub mode: InputMode,
    pub status: Seq<char>,
    pub running: bool,
}

impl View for UiState {
    type V = UiView;

    open spec fn view(&self) -> UiView {
        UiView {
            input: self.input@,
            cursor: self.cursor as int,
            mode: self.mode,
            status: self.status@,
            running: self.running,
        }
    }
}

pub const READY: &'static str = "Ready.";

pub const START_STATUS: &'static str = "Ready. Type /help for commands.";

pub const CHAT_STATUS: &'static str = "Chat mode — type your message, Enter to send, Esc to cancel.";

pub const COMMAND_STATUS: &'static str = "Command mode. /help, /recap, /summarize, /speak, /clear";

pub const SPEECH_CANCELLED: &'static str = "Speech cancelled.";

pub const SPEAKING: &'static str = "Speaking...";

/// The key can be handled without a string operation at a byte offset that is not a char
/// boundary of the input line (where editing the line panics).
pub open spec fn key_ok(s: UiView, key: KeyInput) -> bool {
    s.mode == InputMode::Chat ==> match key {
        KeyInput::Backspace => s.cursor > 0 ==> boundary_at(s.input, (s.cursor - 1) as nat)
            && s.cursor - 1 < byte_len(s.input),
        KeyInput::Char(_) => boundary_at(s.input, s.cursor as nat),
        _ => true,
    }
}

/// The interface after a key in normal mode.
pub open spec fn normal_next(s: UiView, key: KeyInput) -> UiView {
    match key {
        KeyInput::Esc => UiView { running: false, ..s },
        KeyInput::Tab => UiView { mode: InputMode::Chat, status: CHAT_STATUS@, ..s },
        KeyInput::Char(c) => if c == '/' {
            UiView {
                mode: InputMode::Chat,
                input: s.input.push('/'),
                cursor: 1,
                status: COMMAND_STATUS@,
                ..s
            }
        } else if c == 'q' {
            UiView { running: false, ..s }
        } else {
            UiView {
                mode: InputMode::Chat,
                input: s.input.push(c),
                cursor: byte_len(s.input.push(c)) as int,
                ..s
            }
        },
        _ => UiView { mode: InputMode::Chat, ..s },
    }
}

/// The interface after a key in chat mode.
pub open spec fn chat_next(s: UiView, key: KeyInput) -> UiView {
    match key {
        KeyInput::Esc => UiView {
            input: seq![],
            cursor: 0,
            mode: InputMode::Normal,
            status: READY@,
            ..s
        },
        KeyInput::Enter => UiView { input: seq![], cursor: 0, ..s },
        KeyInput::Backspace => if s.cursor > 0 {
            UiView {
                input: s.input.remove(char_index(s.input, (s.cursor - 1) as nat)),
                cursor: s.cursor - 1,
                ..s
            }
        } else {
            s
        },
        KeyInput::Left => if s.cursor > 0 {
            UiView { cursor: s.cursor - 1, ..s }
        } else {
            s
        },
        KeyInput::Right => if s.cursor < byte_len(s.input) {
            UiView { cursor: s.cursor + 1, ..s }
        } else {
            s
        },
        KeyInput::Home => UiView { cursor: 0, ..s },
        KeyInput::End => UiView { cursor: byte_len(s.input) as int, ..s },
        KeyInput::Char(c) => UiView {
            input: s.input.insert(char_index(s.input, s.cursor as nat), c),
            cursor: s.cursor + 1,
            ..s
        },
        _ => s,
    }
}

/// The interface after a key.
pub open spec fn next_ui(s: UiView, key: KeyInput) -> UiView {
    match s.mode {
        InputMode::Normal => normal_next(s, key),
        InputMode::Chat => chat_next(s, key),
        InputMode::Speaking => if key == KeyInput::Esc {
            UiView { mode: InputMode::Normal, status: SPEECH_CANCELLED@, ..s }
        } else {
            s
        },
    }
}

/// What a key asks of the terminal loop.
pub open spec fn key_effect(s: UiView, key: KeyInput) -> EffectView {
    match s.mode {
        InputMode::Normal => if key == KeyInput::Esc || key == KeyInput::Char('q') {
            EffectView::Quit
        } else {
            EffectView::Nothing
        },
        InputMode::Chat => if key == KeyInput::Enter && trim(s.input).len() > 0 {
            EffectView::Submit(trim(s.input))
        } else {
            EffectView::Nothing
        },
        InputMode::Speaking => if key == KeyInput::Esc {
            EffectView::CancelSpeech
        } else {
            EffectView::Nothing
        },
    }
}

proof fn lemma_byte_len_concat(a: Seq<char>, b: Seq<char>)
    ensures
        byte_len(a + b) == byte_len(a) + byte_len(b),
    decreases b.len(),
{
    if b.len() == 0 {
        assert(a + b =~= a);
    } else {
        lemma_byte_len_concat(a, b.drop_last());
        assert((a + b).drop_last() =~= a + b.drop_last());
        assert((a + b).last() == b.last());
    }
}

/// The cursor never runs past the end of the input line: from a cursor within the line,
/// every key leaves it within the line.
pub proof fn lemma_cursor_within_line(s: UiView, key: KeyInput)
    requires
        0 <= s.cursor <= byte_len(s.input),
        key_ok(s, key),
    ensures
        0 <= next_ui(s, key).cursor <= byte_len(next_ui(s, key).input),
{
    let t = s.input;
    if s.mode == InputMode::Normal {
        if let KeyInput::Char(c) = key {
            assert(t.push(c).drop_last() =~= t);
        }
    } else if s.mode == InputMode::Chat {
        match key {
            KeyInput::Char(c) => {
                let k = char_index(t, s.cursor as nat);
                assert(t.insert(k, c) =~= t.take(k) + seq![c] + t.skip(k));
                lemma_byte_len_concat(t.take(k) + seq![c], t.skip(k));
                lemma_byte_len_concat(t.take(k), seq![c]);
                assert(seq![c].drop_last() =~= Seq::<char>::empty());
            },
            KeyInput::Backspace => {
                if s.cursor > 0 {
                    let k = char_index(t, (s.cursor - 1) as nat);
                    if k == t.len() {
                        assert(t.take(k) =~= t);
                    }
                    assert(t.remove(k) =~= t.take(k) + t.skip(k + 1));
                    lemma_byte_len_concat(t.take(k), t.skip(k + 1));
                }
            },
            _ => {},
        }
    }
}

impl UiState {
    /// The state the interface starts in.
    pub fn new() -> (s: Self)
        ensures
            s@ == (UiView {
                input: seq![],
                cursor: 0,
                mode: InputMode::Normal,
                status: START_STATUS@,
                running: true,
            }),
    {
        UiState {
            input: String::new(),
            cursor: 0,
            mode: InputMode::Normal,
            status: str_string(START_STATUS),
            running: true,
        }
    }

    /// Speech started playing: keys now only cancel it.
    pub fn speech_started(&mut self)
        ensures
            final(self)@ == (UiView { mode: InputMode::Speaking, status: SPEAKING@, ..old(self)@ }),
    {
        self.mode = InputMode::Speaking;
        self.status = str_string(SPEAKING);
    }

    /// Speech ended: back to normal mode.
    pub fn speech_ended(&mut self)
        ensures
            final(self)@ == (UiView { mode: InputMode::Normal, status: READY@, ..old(self)@ }),
    {
        self.mode = InputMode::Normal;
        self.status = str_string(READY);
    }

    /// Handles a key press.
    pub fn on_key(&mut self, key: KeyInput) -> (e: KeyEffect)
        requires
            key_ok(old(self)@, key),
        ensures
            final(self)@ == next_ui(old(self)@, key),
            e@ == key_effect(old(self)@, key),
    {
        match self.mode {
            InputMode::Normal => self.normal_key(key),
            InputMode::Chat => self.chat_key(key),
            InputMode::Speaking => {
                if key == KeyInput::Esc {
                    self.mode = InputMode::Normal;
                    self.status = str_string(SPEECH_CANCELLED);
                    KeyEffect::CancelSpeech
                } else {
                    KeyEffect::Nothing
                }
            },
        }
    }

    fn normal_key(&mut self, key: KeyInput) -> (e: KeyEffect)
        requires
            old(self).mode == InputMode::Normal,
        ensures
            final(self)@ == normal_next(old(self)@, key),
            e@ == key_effect(old(self)@, key),
    {
        match key {
            KeyInput::Esc => {
                self.running = false;
                KeyEffect::Quit
            },
            KeyInput::Tab => {
                self.mode = InputMode::Chat;
                self.status = str_string(CHAT_STATUS);
                KeyEffect::Nothing
            },
            KeyInput::Char(c) => {
                if c == '/' {
                    self.mode = InputMode::Chat;
                    push_char(&mut self.input, '/');
                    self.cursor = 1;
                    self.status = str_string(COMMAND_STATUS);
                    KeyEffect::Nothing
                } else if c == 'q' {
                    self.running = false;
                    KeyEffect::Quit
                } else {
                    self.mode = InputMode::Chat;
                    push_char(&mut self.input, c);
                    self.cursor = byte_len_of(self.input.as_str());
                    KeyEffect::Nothing
                }
            },
            _ => {
                self.mode = InputMode::Chat;
                KeyEffect::Nothing
            },
        }
    }

    fn chat_key(&mut self, key: KeyInput) -> (e: KeyEffect)
        requires
            old(self).mode == InputMode::Chat,
            key_ok(old(self)@, key),
        ensures
            final(self)@ == chat_next(old(self)@, key),
            e@ == key_effect(old(self)@, key),
    {
        match key {
            KeyInput::Esc => {
                self.input = String::new();
                self.cursor = 0;
                self.mode = InputMode::Normal;
                self.status = str_string(READY);
                KeyEffect::Nothing
            },
            KeyInput::Enter => {
                let v = chars_of(self.input.as_str());
                let (a, b) = trim_range(&v, 0, v.len());
                assert(v@.subrange(0, v@.len() as int) =~= v@);
                let message = string_of(slice_chars(&v, a, b).as_slice());
                self.input = String::new();
                self.cursor = 0;
                if a == b {
                    KeyEffect::Nothing
                } else {
                    KeyEffect::Submit(message)
                }
            },
            KeyInput::Backspace => {
                if self.cursor > 0 {
                    let v = chars_of(self.input.as_str());
                    let k = char_index_at(&v, self.cursor - 1);
                    proof {
                        assert(k < v.len()) by {
                            if k == v.len() {
                                assert(v@.take(k as int) =~= v@);
                            }
                        }
                    }
                    let mut out = slice_chars(&v, 0, k);
                    let rest = slice_chars(&v, k + 1, v.len());
                    extend_chars(&mut out, &rest);
                    assert(out@ =~= v@.remove(k as int));
                    self.input = string_of(out.as_slice());
                    self.cursor = self.cursor - 1;
                }
                KeyEffect::Nothing
            },
            KeyInput::Left => {
                if self.cursor > 0 {
                    self.cursor = self.cursor - 1;
                }
                KeyEffect::Nothing
            },
            KeyInput::Right => {
                if self.cursor < byte_len_of(self.input.as_str()) {
                    self.cursor = self.cursor + 1;
                }
                KeyEffect::Nothing
            },
            KeyInput::Home => {
                self.cursor = 0;
                KeyEffect::Nothing
            },
            KeyInput::End => {
                self.cursor = byte_len_of(self.input.as_str());
                KeyEffect::Nothing
            },
            KeyInput::Char(c) => {
                let v = chars_of(self.input.as_str());
                let k = char_index_at(&v, self.cursor);
                let mut out = slice_chars(&v, 0, k);
                out.push(c);
                let rest = slice_chars(&v, k, v.len());
                extend_chars(&mut out, &rest);
                assert(out@ =~= v@.insert(k as int, c));
                let line = string_of(out.as_slice());
                let n = byte_len_of(line.as_str());
                proof {
                    lemma_byte_len_step(out@, k as int);
                    assert(out@.take(k as int) =~= v@.take(k as int));
                    crate::text::lemma_byte_len_mono(out@, k + 1);
                    assert(out@.take(out@.len() as int) =~= out@);
                }
                self.input = line;
                self.cursor = self.cursor + 1;
                KeyEffect::Nothing
            },
            _ => KeyEffect::Nothing,
        }
    }
}

// ---------------------------------------------------------------- commands

pub const HELP_TEXT: &'static str = "/help — show commands\n/recap — session recap\n/summarize <text> — fast summary\n/speak <text> — speak aloud\n/ask <question> — ask LLM (uses tokens)\n/context <text> — set session context\n/clear — clear messages\n/quit — exit";

pub const ASK_USAGE: &'static str = "Usage: /ask <your question> — sends to LLM (uses tokens)";

pub const SUMMARIZE_USAGE: &'static str = "Usage: /summarize <text to summarize>";

pub const SPEAK_USAGE: &'static str = "Usage: /speak <text to speak>";

pub const NO_CONTEXT_SET: &'static str = "No context set. Use /context <description> to set.";

pub const MESSAGES_CLEARED: &'static str = "Messages cleared.";

pub const THINKING: &'static str = "Thinking...";

pub const READY_LLM_ERROR: &'static str = "Ready (LLM error).";

pub const LLM_UNREACHABLE: &'static str = "Sorry, I couldn't reach the LLM. Check your API key and connection. I can still do fast summaries and recaps offline.";

pub const GREETING: &'static str = "Hey there. I'm Cortana — your terminal companion. I track your session, summarize files, and keep you oriented. Type /help to see what I can do.";

pub const NO_CONTEXT_YET: &'static str = "No context set yet. Use /context to tell me what you're working on.";

pub const DIGEST_TAIL: &'static str = " | Use /recap for session status, /context to track your work, or /ask for AI help.";

pub const NO_ACTIVITY: &'static str = "No session activity yet.";

/// The first word of a command line: the text before its first space.
pub open spec fn head_word(t: Seq<char>) -> Seq<char> {
    t.take(count_until(t, ' ') as int)
}

/// The command named by a line: its first word without the leading slashes.
pub open spec fn command_name(t: Seq<char>) -> Seq<char> {
    strip_repeated(head_word(t), "/"@)
}

/// The arguments of a command line: what follows its first space, or nothing.
pub open spec fn command_args(t: Seq<char>) -> Seq<char> {
    let n = count_until(t, ' ');
    if n < t.len() {
        t.skip(n + 1int)
    } else {
        seq![]
    }
}

/// Splits a command line into the command's name and its arguments.
pub fn split_command(line: &str) -> (r: (String, String))
    ensures
        r.0@ == command_name(line@),
        r.1@ == command_args(line@),
{
    let v = chars_of(line);
    let mut n: usize = 0;
    while n < v.len() && v[n] != ' '
        invariant
            n <= v.len(),
            forall|i: int| 0 <= i < n ==> #[trigger] v@[i] != ' ',
        decreases v.len() - n,
    {
        n = n + 1;
    }
    proof {
        lemma_count_until(v@, ' ', n as int);
    }
    let head = slice_chars(&v, 0, n);
    assert(head@ =~= head_word(line@));
    let k = strip_repeated_from(&head, 0, "/");
    assert(head@.skip(0) =~= head@);
    let name = string_of(&head.as_slice()[k..head.len()]);
    assert(head@.subrange(k as int, head@.len() as int) =~= head@.skip(k as int));
    let args = if n < v.len() {
        let a = slice_chars(&v, n + 1, v.len());
        assert(a@ =~= v@.skip(n + 1));
        string_of(a.as_slice())
    } else {
        String::new()
    };
    (name, args)
}

/// The reply to `/summarize`: the summary and its keywords.
pub open spec fn summary_reply(r: SummaryView) -> Seq<char> {
    "Summary (0 tokens): "@ + r.summary + "\nKeywords: "@ + join(r.keywords, ", "@)
}

/// The reply of the system to a command, where it makes one.
pub open spec fn command_response(cmd: Seq<char>, args: Seq<char>, m: SessionView) -> Option<Seq<char>> {
    if cmd == "help"@ {
        Some(HELP_TEXT@)
    } else if cmd == "ask"@ {
        if args.len() == 0 {
            Some(ASK_USAGE@)
        } else {
            None
        }
    } else if cmd == "recap"@ {
        Some("Session recap:\n"@ + recap_text(m))
    } else if cmd == "summarize"@ {
        if args.len() == 0 {
            Some(SUMMARIZE_USAGE@)
        } else {
            Some(summary_reply(summary_of(args, SummaryMode::Text, None)))
        }
    } else if cmd == "speak"@ {
        if args.len() == 0 {
            Some(SPEAK_USAGE@)
        } else {
            Some("Speaking: "@ + args)
        }
    } else if cmd == "clear"@ || cmd == "quit"@ {
        None
    } else if cmd == "context"@ {
        if args.len() > 0 {
            Some("Context set: "@ + args)
        } else if m.context.len() == 0 {
            Some(NO_CONTEXT_SET@)
        } else {
            Some("Current context: "@ + m.context)
        }
    } else {
        Some("Unknown command: /"@ + cmd + ". Try /help."@)
    }
}

// ---------------------------------------------------------------- plain chat

/// `str::to_lowercase`, which maps every char by the Unicode lowercase tables; the result
/// depends on the text alone.
pub uninterp spec fn lowercase(s: Seq<char>) -> Seq<char>;

/// Lowercases a message (`str::to_lowercase`); the contract only names the result.
#[verifier::external_body]
fn to_lowercase(s: &str) -> (r: String)
    ensures
        r@ == lowercase(s@),
{
    s.to_lowercase()
}

/// What plain chat is answered with.
#[derive(Debug, Clone, Copy, PartialEq, Eq, Structural)]
pub enum ReplyKind {
    Greeting,
    Recap,
    Context,
    Digest,
}

/// The kind of reply a lowercased message gets.
pub open spec fn reply_kind(lower: Seq<char>) -> ReplyKind {
    if occurs(lower, "hello"@) || occurs(lower, "hi "@) || lower == "hi"@ {
        ReplyKind::Greeting
    } else if occurs(lower, "recap"@) || (occurs(lower, "where"@) && occurs(lower, "left off"@)) {
        ReplyKind::Recap
    } else if occurs(lower, "what"@) && (occurs(lower, "doing"@) || occurs(lower, "working"@)) {
        ReplyKind::Context
    } else {
        ReplyKind::Digest
    }
}

/// Tells which kind of reply a lowercased message gets.
pub fn classify(lower: &str) -> (k: ReplyKind)
    ensures
        k == reply_kind(lower@),
{
    let v = chars_of(lower);
    if contains_str(&v, "hello") || contains_str(&v, "hi ") || chars_eq_str(&v, "hi") {
        ReplyKind::Greeting
    } else if contains_str(&v, "recap") || (contains_str(&v, "where") && contains_str(
        &v,
        "left off",
    )) {
        ReplyKind::Recap
    } else if contains_str(&v, "what") && (contains_str(&v, "doing") || contains_str(
        &v,
        "working",
    )) {
        ReplyKind::Context
    } else {
        ReplyKind::Digest
    }
}

/// The offline reply to plain chat, given the message lowercased.
pub open spec fn local_reply(lower: Seq<char>, message: Seq<char>, m: SessionView) -> Seq<char> {
    match reply_kind(lower) {
        ReplyKind::Greeting => GREETING@,
        ReplyKind::Recap => recap_text(m),
        ReplyKind::Context => if m.context.len() == 0 {
            NO_CONTEXT_YET@
        } else {
            "Current context: "@ + m.context
        },
        ReplyKind::Digest => {
            let r = summary_of(message, SummaryMode::Text, None);
            "Here's what I got: "@ + r.summary + " | Keywords: "@ + join(r.keywords, ", "@)
                + DIGEST_TAIL@
        },
    }
}

/// Plain chat that asks for a recap gets the session's recap: a lowercased message that
/// holds `recap`, or both `where` and `left off`, and is no greeting (no `hello`, no `hi `,
/// not `hi`), is answered with the recap whatever else it says.
pub proof fn lemma_recap_requests_get_the_recap(lower: Seq<char>, message: Seq<char>, m: SessionView)
    requires
        occurs(lower, "recap"@) || (occurs(lower, "where"@) && occurs(lower, "left off"@)),
        !occurs(lower, "hello"@),
        !occurs(lower, "hi "@),
        lower != "hi"@,
    ensures
        local_reply(lower, message, m) == recap_text(m),
{
}

/// Appends the strings joined by `sep`.
pub fn push_joined(out: &mut String, items: &Vec<String>, sep: &str)
    ensures
        final(out)@ == old(out)@ + join(strs(items@), sep@),
{
    let mut parts: Vec<Vec<char>> = Vec::new();
    let mut i: usize = 0;
    while i < items.len()
        invariant
            i <= items.len(),
            views(parts@) == strs(items@).take(i as int),
        decreases items.len() - i,
    {
        let c = chars_of(items[i].as_str());
        let ghost before = views(parts@);
        parts.push(c);
        assert(views(parts@) =~= before.push(c@));
        assert(strs(items@).take(i + 1) =~= strs(items@).take(i as int).push(c@));
        i = i + 1;
    }
    assert(strs(items@).take(items.len() as int) =~= strs(items@));
    let j = join_chars(&parts, sep);
    push_str(out, string_of(j.as_slice()).as_str());
}

/// The offline reply to plain chat, given the message already lowercased.
pub fn reply_for(lower: &str, message: &str, session: &Session) -> (r: String)
    requires
        reply_kind(lower@) == ReplyKind::Recap ==> recent_cuttable(session@),
    ensures
        r@ == local_reply(lower@, message@, session@),
{
    match classify(lower) {
        ReplyKind::Greeting => str_string(GREETING),
        ReplyKind::Recap => session.recap(),
        ReplyKind::Context => {
            if session.context.as_str().is_empty() {
                str_string(NO_CONTEXT_YET)
            } else {
                let mut r = str_string("Current context: ");
                push_str(&mut r, session.context.as_str());
                r
            }
        },
        ReplyKind::Digest => {
            let result = summarize(message, SummaryMode::Text, None);
            let mut r = str_string("Here's what I got: ");
            push_str(&mut r, result.summary.as_str());
            push_str(&mut r, " | Keywords: ");
            push_joined(&mut r, &result.keywords, ", ");
            push_str(&mut r, DIGEST_TAIL);
            r
        },
    }
}

/// The offline reply to plain chat, or `None` where the reply is a recap that cannot be
/// made (a recent message that would be cut inside a char).
pub fn local_response(message: &str, session: &Session) -> (r: Option<String>)
    ensures
        r is None <==> (reply_kind(lowercase(message@)) == ReplyKind::Recap && !recent_cuttable(
            session@,
        )),
        r matches Some(t) ==> t@ == local_reply(lowercase(message@), message@, session@),
{
    let lower = to_lowercase(message);
    if classify(lower.as_str()) == ReplyKind::Recap && !session.can_recap() {
        return None;
    }
    Some(reply_for(lower.as_str(), message, session))
}

// ---------------------------------------------------------------- the conversation

/// A message shown in the interface.
#[derive(Debug, Clone)]
pub struct TuiMessage {
    pub role: String,
    pub content: String,
    pub timestamp: String,
}

impl View for TuiMessage {
    type V = MessageView;

    open spec fn view(&self) -> MessageView {
        MessageView { role: self.role@, content: self.content@, timestamp: self.timestamp@ }
    }
}

/// The views of shown messages.
pub open spec fn tviews(v: Seq<TuiMessage>) -> Seq<MessageView> {
    v.map_values(|m: TuiMessage| m@)
}

/// What the terminal loop does after a message was handled.
#[derive(Debug, Clone)]
pub enum Followup {
    Nothing,
    /// Ask the LLM this question, then hand the answer to `Conversation::answer`.
    Ask(String),
    /// Speak this text aloud.
    Speak(String),
    /// Save the session and stop.
    Quit,
}

/// What a `Followup` holds, as text.
pub enum FollowupView {
    Nothing,
    Ask(Seq<char>),
    Speak(Seq<char>),
    Quit,
}

impl View for Followup {
    type V = FollowupView;

    open spec fn view(&self) -> FollowupView {
        match self {
            Followup::Nothing => FollowupView::Nothing,
            Followup::Ask(q) => FollowupView::Ask(q@),
            Followup::Speak(t) => FollowupView::Speak(t@),
            Followup::Quit => FollowupView::Quit,
        }
    }
}

/// The outcome of a message: what to do next, whether the face's idle clock restarts, and
/// whether the session is to be saved.
pub struct Outcome {
    pub followup: Followup,
    pub reset_idle: bool,
    pub save: bool,
}

/// What an `Outcome` holds.
pub struct OutcomeView {
    pub followup: FollowupView,
    pub reset_idle: bool,
    pub save: bool,
}

impl View for Outcome {
    type V = OutcomeView;

    open spec fn view(&self) -> OutcomeView {
        OutcomeView { followup: self.followup@, reset_idle: self.reset_idle, save: self.save }
    }
}

/// The views of a possible outcome.
pub open spec fn oview(o: Option<Outcome>) -> Option<OutcomeView> {
    match o {
        Some(x) => Some(x@),
        None => None,
    }
}

/// The session store, the messages shown, the recap banner, the status line, and whether
/// the LLM is being waited for.
pub struct Conversation {
    pub sessions: SessionStore,
    pub messages: Vec<TuiMessage>,
    pub recap_banner: String,
    pub status: String,
    pub thinking: bool,
}

/// What a `Conversation` holds.
pub struct ConvView {
    pub session: SessionView,
    pub messages: Seq<MessageView>,
    pub banner: Seq<char>,
    pub status: Seq<char>,
    pub thinking: bool,
}

impl View for Conversation {
    type V = ConvView;

    open spec fn view(&self) -> ConvView {
        ConvView {
            session: self.sessions.session()@,
            messages: tviews(self.messages@),
            banner: self.recap_banner@,
            status: self.status@,
            thinking: self.thinking,
        }
    }
}

/// `b` is `a` with one more message from `role`, stamped with the time it arrived.
pub open spec fn pushed(a: Seq<MessageView>, b: Seq<MessageView>, role: Seq<char>, content: Seq<char>) -> bool {
    &&& b.len() == a.len() + 1
    &&& b.drop_last() == a
    &&& b.last().role == role
    &&& b.last().content == content
    &&& is_stamp(b.last().timestamp)
}

/// The message starts with a slash: it is a command.
pub open spec fn is_command(msg: Seq<char>) -> bool {
    msg.len() > 0 && msg[0] == '/'
}

/// A command of this name.
pub open spec fn is_cmd(msg: Seq<char>, name: Seq<char>) -> bool {
    is_command(msg) && command_name(msg) == name
}

/// A command of this name with arguments.
pub open spec fn is_cmd_with_args(msg: Seq<char>, name: Seq<char>) -> bool {
    is_cmd(msg, name) && command_args(msg).len() > 0
}

/// Who answers: the system answers commands, Cortana answers chat.
pub open spec fn responder(msg: Seq<char>) -> Seq<char> {
    if is_command(msg) {
        "system"@
    } else {
        "cortana"@
    }
}

/// The answer to a message, where one is given at once; `m` is the session once the
/// message is recorded.
pub open spec fn response_text(msg: Seq<char>, m: SessionView) -> Option<Seq<char>> {
    if is_command(msg) {
        command_response(command_name(msg), command_args(msg), m)
    } else {
        Some(local_reply(lowercase(msg), msg, m))
    }
}

/// Where handling a message panics: a recap over a recent message that would be cut inside
/// a char. `m` is the session once the message is recorded, `fin` the session at the end.
pub open spec fn would_panic(msg: Seq<char>, m: SessionView, fin: SessionView) -> bool {
    if is_command(msg) {
        (is_cmd(msg, "recap"@) && !recent_cuttable(m)) || (is_cmd_with_args(msg, "context"@)
            && !recent_cuttable(fin))
    } else {
        reply_kind(lowercase(msg)) == ReplyKind::Recap && !recent_cuttable(m)
    }
}

/// The session at the end, from the session once the message is recorded.
pub open spec fn session_after(msg: Seq<char>, m: SessionView, fin: SessionView) -> bool {
    if is_cmd_with_args(msg, "context"@) {
        exists|c: SessionView|
            #[trigger] context_set(m, c, command_args(msg)) && recorded(
                c,
                fin,
                "system"@,
                "Context set: "@ + command_args(msg),
            )
    } else {
        match response_text(msg, m) {
            Some(t) => recorded(m, fin, responder(msg), t),
            None => fin == m,
        }
    }
}

/// The recap banner at the end.
pub open spec fn banner_after(msg: Seq<char>, m: SessionView, fin: SessionView, banner: Seq<char>) -> Seq<char> {
    if is_cmd(msg, "recap"@) {
        recap_text(m)
    } else if is_cmd_with_args(msg, "summarize"@) {
        mode_label(SummaryMode::Text) + ": "@ + summary_of(command_args(msg), SummaryMode::Text, None).summary
    } else if is_cmd_with_args(msg, "context"@) {
        recap_text(fin)
    } else {
        banner
    }
}

/// The status line at the end.
pub open spec fn status_after(msg: Seq<char>, status: Seq<char>) -> Seq<char> {
    if !is_command(msg) {
        READY@
    } else if is_cmd(msg, "clear"@) {
        MESSAGES_CLEARED@
    } else if is_cmd_with_args(msg, "ask"@) {
        THINKING@
    } else {
        status
    }
}

/// Whether the LLM is waited for at the end.
pub open spec fn thinking_after(msg: Seq<char>, thinking: bool) -> bool {
    if !is_command(msg) {
        false
    } else if is_cmd_with_args(msg, "ask"@) {
        true
    } else {
        thinking
    }
}

/// What the terminal loop does after the message.
pub open spec fn outcome_of(msg: Seq<char>, m: SessionView) -> OutcomeView {
    OutcomeView {
        followup: if is_cmd_with_args(msg, "ask"@) {
            FollowupView::Ask(command_args(msg))
        } else if is_cmd_with_args(msg, "speak"@) {
            FollowupView::Speak(command_args(msg))
        } else if is_cmd(msg, "quit"@) {
            FollowupView::Quit
        } else {
            FollowupView::Nothing
        },
        reset_idle: is_cmd(msg, "recap"@) || is_cmd(msg, "summarize"@) || is_cmd(msg, "speak"@)
            || is_cmd(msg, "context"@),
        save: response_text(msg, m) is Some || is_cmd(msg, "quit"@),
    }
}

/// Handling a message once it is recorded: `mid` is the conversation with the message
/// recorded, `after` the conversation at the end, `out` what the terminal loop is told
/// (`None` where a recap would cut a recent message inside a char).
pub open spec fn turn(msg: Seq<char>, mid: ConvView, after: ConvView, out: Option<OutcomeView>) -> bool {
    let m = mid.session;
    let fin = after.session;
    match out {
        None => would_panic(msg, m, fin) && (is_cmd_with_args(msg, "context"@) ==> session_after(
            msg,
            m,
            fin,
        )),
        Some(o) => {
            &&& !would_panic(msg, m, fin)
            &&& session_after(msg, m, fin)
            &&& if is_cmd(msg, "clear"@) {
                after.messages.len() == 0
            } else {
                match response_text(msg, m) {
                    Some(t) => pushed(mid.messages, after.messages, responder(msg), t),
                    None => after.messages == mid.messages,
                }
            }
            &&& after.banner == banner_after(msg, m, fin, mid.banner)
            &&& after.status == status_after(msg, mid.status)
            &&& after.thinking == thinking_after(msg, mid.thinking)
            &&& o == outcome_of(msg, m)
        },
    }
}

/// `b` is `a` with the user's message recorded in the session and shown.
pub open spec fn user_recorded(a: ConvView, b: ConvView, msg: Seq<char>) -> bool {
    &&& recorded(a.session, b.session, "user"@, msg)
    &&& pushed(a.messages, b.messages, "user"@, msg)
    &&& b.banner == a.banner
    &&& b.status == a.status
    &&& b.thinking == a.thinking
}

/// The command names differ from each other.
proof fn lemma_command_names_differ()
    ensures
        "help"@ != "ask"@,
        "help"@ != "recap"@,
        "help"@ != "summarize"@,
        "help"@ != "speak"@,
        "help"@ != "clear"@,
        "help"@ != "context"@,
        "help"@ != "quit"@,
        "ask"@ != "recap"@,
        "ask"@ != "summarize"@,
        "ask"@ != "speak"@,
        "ask"@ != "clear"@,
        "ask"@ != "context"@,
        "ask"@ != "quit"@,
        "recap"@ != "summarize"@,
        "recap"@ != "speak"@,
        "recap"@ != "clear"@,
        "recap"@ != "context"@,
        "recap"@ != "quit"@,
        "summarize"@ != "speak"@,
        "summarize"@ != "clear"@,
        "summarize"@ != "context"@,
        "summarize"@ != "quit"@,
        "speak"@ != "clear"@,
        "speak"@ != "context"@,
        "speak"@ != "quit"@,
        "clear"@ != "context"@,
        "clear"@ != "quit"@,
        "context"@ != "quit"@,
{
    reveal_strlit("help");
    reveal_strlit("ask");
    reveal_strlit("recap");
    reveal_strlit("summarize");
    reveal_strlit("speak");
    reveal_strlit("clear");
    reveal_strlit("context");
    reveal_strlit("quit");
    assert("help"@.len() != "ask"@.len());
    assert("help"@.len() != "recap"@.len());
    assert("help"@.len() != "summarize"@.len());
    assert("help"@.len() != "speak"@.len());
    assert("help"@.len() != "clear"@.len());
    assert("help"@.len() != "context"@.len());
    assert("help"@[0] != "quit"@[0]);
    assert("ask"@.len() != "recap"@.len());
    assert("ask"@.len() != "summarize"@.len());
    assert("ask"@.len() != "speak"@.len());
    assert("ask"@.len() != "clear"@.len());
    assert("ask"@.len() != "context"@.len());
    assert("ask"@.len() != "quit"@.len());
    assert("recap"@.len() != "summarize"@.len());
    assert("recap"@[0] != "speak"@[0]);
    assert("recap"@[0] != "clear"@[0]);
    assert("recap"@.len() != "context"@.len());
    assert("recap"@.len() != "quit"@.len());
    assert("summarize"@.len() != "speak"@.len());
    assert("summarize"@.len() != "clear"@.len());
    assert("summarize"@.len() != "context"@.len());
    assert("summarize"@.len() != "quit"@.len());
    assert("speak"@[0] != "clear"@[0]);
    assert("speak"@.len() != "context"@.len());
    assert("speak"@.len() != "quit"@.len());
    assert("clear"@.len() != "context"@.len());
    assert("clear"@.len() != "quit"@.len());
    assert("context"@.len() != "quit"@.len());
}

impl Conversation {
    /// A conversation over a session store; the banner starts as the session's recap.
    pub fn new(sessions: SessionStore) -> (c: Self)
        requires
            recent_cuttable(sessions.session()@),
        ensures
            c@.session == sessions.session()@,
            c@.messages.len() == 0,
            c@.banner == (if recap_text(sessions.session()@).len() == 0 {
                NO_ACTIVITY@
            } else {
                recap_text(sessions.session()@)
            }),
            c@.status == START_STATUS@,
            !c@.thinking,
    {
        let recap = sessions.current().recap();
        let banner = if recap.as_str().is_empty() {
            str_string(NO_ACTIVITY)
        } else {
            recap
        };
        Conversation {
            sessions,
            messages: Vec::new(),
            recap_banner: banner,
            status: str_string(START_STATUS),
            thinking: false,
        }
    }

    /// Records a message in the session and shows it.
    fn record(&mut self, role: &str, content: &str)
        ensures
            recorded(old(self)@.session, final(self)@.session, role@, content@),
            pushed(old(self)@.messages, final(self)@.messages, role@, content@),
            final(self)@.banner == old(self)@.banner,
            final(self)@.status == old(self)@.status,
            final(self)@.thinking == old(self)@.thinking,
            final(self).sessions.directory() == old(self).sessions.directory(),
    {
        let now = chrono_now();
        let m = TuiMessage { role: str_string(role), content: str_string(content), timestamp: now };
        let ghost before = tviews(self.messages@);
        self.messages.push(m);
        assert(tviews(self.messages@) =~= before.push(m@));
        assert(tviews(self.messages@).drop_last() =~= before);
        self.sessions.current_mut().add_message(role, content);
    }

    /// Handles a message the user sent: records it, then answers the command or the chat.
    /// `None` where a recap would cut a recent message inside a char.
    pub fn handle_message(&mut self, message: &str) -> (r: Option<Outcome>)
        ensures
            exists|mid: ConvView|
                #[trigger] user_recorded(old(self)@, mid, message@) && turn(
                    message@,
                    mid,
                    final(self)@,
                    oview(r),
                ),
            final(self).sessions.directory() == old(self).sessions.directory(),
    {
        self.record("user", message);
        let ghost mid = self@;
        let v = chars_of(message);
        let r = if v.len() > 0 && v[0] == '/' {
            self.handle_command(message)
        } else {
            self.handle_chat(message)
        };
        assert(user_recorded(old(self)@, mid, message@));
        r
    }

    fn handle_chat(&mut self, message: &str) -> (r: Option<Outcome>)
        requires
            !is_command(message@),
        ensures
            turn(message@, old(self)@, final(self)@, oview(r)),
            final(self).sessions.directory() == old(self).sessions.directory(),
    {
        self.thinking = false;
        let reply = local_response(message, self.sessions.current());
        match reply {
            None => None,
            Some(t) => {
                self.record("cortana", t.as_str());
                self.status = str_string(READY);
                Some(Outcome { followup: Followup::Nothing, reset_idle: false, save: true })
            },
        }
    }

    fn respond(&mut self, content: &str, reset_idle: bool) -> (r: Option<Outcome>)
        ensures
            recorded(old(self)@.session, final(self)@.session, "system"@, content@),
            pushed(old(self)@.messages, final(self)@.messages, "system"@, content@),
            final(self)@.banner == old(self)@.banner,
            final(self)@.status == old(self)@.status,
            final(self)@.thinking == old(self)@.thinking,
            r matches Some(o) && o@ == (OutcomeView {
                followup: FollowupView::Nothing,
                reset_idle,
                save: true,
            }),
            final(self).sessions.directory() == old(self).sessions.directory(),
    {
        self.record("system", content);
        Some(Outcome { followup: Followup::Nothing, reset_idle, save: true })
    }

    fn handle_command(&mut self, command: &str) -> (r: Option<Outcome>)
        requires
            is_command(command@),
        ensures
            turn(command@, old(self)@, final(self)@, oview(r)),
            final(self).sessions.directory() == old(self).sessions.directory(),
    {
        proof {
            lemma_command_names_differ();
        }
        let (name, args) = split_command(command);
        let cmd = chars_of(name.as_str());
        let a = args.as_str();
        let no_args = a.is_empty();
        if chars_eq_str(&cmd, "help") {
            self.respond(HELP_TEXT, false)
        } else if chars_eq_str(&cmd, "ask") {
            if no_args {
                self.respond(ASK_USAGE, false)
            } else {
                self.thinking = true;
                self.status = str_string(THINKING);
                Some(Outcome { followup: Followup::Ask(str_string(a)), reset_idle: false, save: false })
            }
        } else if chars_eq_str(&cmd, "recap") {
            if !self.sessions.current().can_recap() {
                return None;
            }
            let recap = self.sessions.current().recap();
            let mut t = str_string("Session recap:\n");
            push_str(&mut t, recap.as_str());
            self.recap_banner = recap;
            self.respond(t.as_str(), true)
        } else if chars_eq_str(&cmd, "summarize") {
            if no_args {
                self.respond(SUMMARIZE_USAGE, true)
            } else {
                let result = summarize(a, SummaryMode::Text, None);
                let mut t = str_string("Summary (0 tokens): ");
                push_str(&mut t, result.summary.as_str());
                push_str(&mut t, "\nKeywords: ");
                push_joined(&mut t, &result.keywords, ", ");
                self.recap_banner = result.to_banner();
                self.respond(t.as_str(), true)
            }
        } else if chars_eq_str(&cmd, "speak") {
            if no_args {
                self.respond(SPEAK_USAGE, true)
            } else {
                let mut t = str_string("Speaking: ");
                push_str(&mut t, a);
                let r = self.respond(t.as_str(), true);
                Some(Outcome { followup: Followup::Speak(str_string(a)), reset_idle: true, save: true })
            }
        } else if chars_eq_str(&cmd, "clear") {
            self.messages = Vec::new();
            self.status = str_string(MESSAGES_CLEARED);
            assert(tviews(self.messages@) =~= Seq::<MessageView>::empty());
            Some(Outcome { followup: Followup::Nothing, reset_idle: false, save: false })
        } else if chars_eq_str(&cmd, "context") {
            if no_args {
                if self.sessions.current().context.as_str().is_empty() {
                    self.respond(NO_CONTEXT_SET, true)
                } else {
                    let mut t = str_string("Current context: ");
                    push_str(&mut t, self.sessions.current().context.as_str());
                    self.respond(t.as_str(), true)
                }
            } else {
                let ghost m = self@.session;
                self.sessions.current_mut().set_context(a);
                let ghost c = self@.session;
                let mut t = str_string("Context set: ");
                push_str(&mut t, a);
                self.respond(t.as_str(), true);
                assert(context_set(m, c, command_args(command@)));
                assert(recorded(c, self@.session, "system"@, "Context set: "@ + command_args(command@)));
                assert(session_after(command@, m, self@.session));
                if !self.sessions.current().can_recap() {
                    assert(would_panic(command@, m, self@.session));
                    return None;
                }
                self.recap_banner = self.sessions.current().recap();
                Some(Outcome { followup: Followup::Nothing, reset_idle: true, save: true })
            }
        } else if chars_eq_str(&cmd, "quit") {
            Some(Outcome { followup: Followup::Quit, reset_idle: false, save: true })
        } else {
            let mut t = str_string("Unknown command: /");
            push_str(&mut t, name.as_str());
            push_str(&mut t, ". Try /help.");
            self.respond(t.as_str(), false)
        }
    }

    /// Takes the LLM's answer to an `/ask` (`None` where it could not be reached). Returns
    /// the text to speak aloud, where speaking by default is on and the answer is under 200
    /// bytes.
    pub fn answer(&mut self, reply: Option<String>, speak_by_default: bool) -> (r: Option<String>)
        ensures
            !final(self)@.thinking,
            match reply {
                Some(t) => {
                    &&& recorded(old(self)@.session, final(self)@.session, "cortana"@, t@)
                    &&& pushed(old(self)@.messages, final(self)@.messages, "cortana"@, t@)
                    &&& final(self)@.status == READY@
                    &&& r == (if speak_by_default && byte_len(t@) < 200 {
                        Some(t)
                    } else {
                        None::<String>
                    })
                },
                None => {
                    &&& recorded(old(self)@.session, final(self)@.session, "cortana"@, LLM_UNREACHABLE@)
                    &&& pushed(old(self)@.messages, final(self)@.messages, "cortana"@, LLM_UNREACHABLE@)
                    &&& final(self)@.status == READY_LLM_ERROR@
                    &&& r is None
                },
            },
            final(self)@.banner == old(self)@.banner,
            final(self).sessions.directory() == old(self).sessions.directory(),
    {
        self.thinking = false;
        match reply {
            Some(t) => {
                self.record("cortana", t.as_str());
                self.status = str_string(READY);
                if speak_by_default && byte_len_of(t.as_str()) < 200 {
                    Some(t)
                } else {
                    None
                }
            },
            None => {
                self.record("cortana", LLM_UNREACHABLE);
                self.status = str_string(READY_LLM_ERROR);
                None
            },
        }
    }
}

// ---------------------------------------------------------------- the message list

/// Who a shown message is from.
#[derive(Debug, Clone, Copy, PartialEq, Eq, Structural)]
pub enum Speaker {
    Cortana,
    System,
    You,
}

/// Who a role stands for: `cortana` and `assistant` are Cortana, `system` the system, any
/// other role the user.
pub open spec fn speaker_spec(role: Seq<char>) -> Speaker {
    if role == "cortana"@ || role == "assistant"@ {
        Speaker::Cortana
    } else if role == "system"@ {
        Speaker::System
    } else {
        Speaker::You
    }
}

/// Who a role stands for.
pub fn speaker_of(role: &str) -> (s: Speaker)
    ensures
        s == speaker_spec(role@),
{
    let r = chars_of(role);
    if chars_eq_str(&r, "cortana") || chars_eq_str(&r, "assistant") {
        Speaker::Cortana
    } else if chars_eq_str(&r, "system") {
        Speaker::System
    } else {
        Speaker::You
    }
}

/// The first of `len` messages shown when `rows` fit: the last `rows` of them.
pub fn first_visible(len: usize, rows: usize) -> (i: usize)
    ensures
        i == if len > rows {
            len - rows
        } else {
            0
        },
{
    if len > rows {
        len - rows
    } else {
        0
    }
}

} // verus!
