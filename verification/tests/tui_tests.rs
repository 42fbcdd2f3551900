use cortana::session::{Session, SessionStore};
use cortana::tui::{first_visible, speaker_of, Speaker};
use cortana::tui::{
    classify, local_response, reply_for, split_command, Conversation, Followup, InputMode,
    KeyEffect, KeyInput, ReplyKind, UiState, ASK_USAGE, COMMAND_STATUS, GREETING, HELP_TEXT,
    LLM_UNREACHABLE, MESSAGES_CLEARED, NO_CONTEXT_YET, READY, READY_LLM_ERROR, THINKING,
};

fn typed(ui: &mut UiState, text: &str) {
    for c in text.chars() {
        ui.on_key(KeyInput::Char(c));
    }
}

#[test]
fn slash_starts_a_command() {
    let mut ui = UiState::new();
    assert!(matches!(ui.on_key(KeyInput::Char('/')), KeyEffect::Nothing));
    assert_eq!(ui.mode, InputMode::Chat);
    assert_eq!(ui.input, "/");
    assert_eq!(ui.cursor, 1);
    assert_eq!(ui.status, COMMAND_STATUS);
}

#[test]
fn escape_or_q_in_normal_mode_quits() {
    let mut ui = UiState::new();
    assert!(matches!(ui.on_key(KeyInput::Esc), KeyEffect::Quit));
    assert!(!ui.running);
    let mut ui = UiState::new();
    assert!(matches!(ui.on_key(KeyInput::Char('q')), KeyEffect::Quit));
    assert!(!ui.running);
}

#[test]
fn typing_in_normal_mode_starts_chat() {
    let mut ui = UiState::new();
    ui.on_key(KeyInput::Char('h'));
    assert_eq!(ui.mode, InputMode::Chat);
    assert_eq!(ui.input, "h");
    assert_eq!(ui.cursor, 1);
}

#[test]
fn enter_submits_the_trimmed_line() {
    let mut ui = UiState::new();
    ui.on_key(KeyInput::Tab);
    typed(&mut ui, "  hi there ");
    match ui.on_key(KeyInput::Enter) {
        KeyEffect::Submit(m) => assert_eq!(m, "hi there"),
        _ => panic!("expected a submitted message"),
    }
    assert_eq!(ui.input, "");
    assert_eq!(ui.cursor, 0);
    ui.on_key(KeyInput::Char(' '));
    assert!(matches!(ui.on_key(KeyInput::Enter), KeyEffect::Nothing));
}

#[test]
fn editing_keys_move_and_delete() {
    let mut ui = UiState::new();
    ui.on_key(KeyInput::Tab);
    typed(&mut ui, "abc");
    ui.on_key(KeyInput::Left);
    ui.on_key(KeyInput::Backspace);
    assert_eq!(ui.input, "ac");
    assert_eq!(ui.cursor, 1);
    ui.on_key(KeyInput::Char('X'));
    assert_eq!(ui.input, "aXc");
    ui.on_key(KeyInput::Home);
    assert_eq!(ui.cursor, 0);
    ui.on_key(KeyInput::Backspace);
    assert_eq!(ui.input, "aXc");
    ui.on_key(KeyInput::End);
    assert_eq!(ui.cursor, 3);
    ui.on_key(KeyInput::Right);
    assert_eq!(ui.cursor, 3);
    ui.on_key(KeyInput::Esc);
    assert_eq!(ui.mode, InputMode::Normal);
    assert_eq!(ui.input, "");
    assert_eq!(ui.status, READY);
}

#[test]
fn escape_cancels_speech() {
    let mut ui = UiState::new();
    ui.mode = InputMode::Speaking;
    assert!(matches!(ui.on_key(KeyInput::Char('x')), KeyEffect::Nothing));
    assert!(matches!(ui.on_key(KeyInput::Esc), KeyEffect::CancelSpeech));
    assert_eq!(ui.mode, InputMode::Normal);
    assert_eq!(ui.status, "Speech cancelled.");
}

#[test]
fn commands_split_into_name_and_arguments() {
    assert_eq!(split_command("/summarize some text"), ("summarize".to_string(), "some text".to_string()));
    assert_eq!(split_command("//help"), ("help".to_string(), String::new()));
    assert_eq!(split_command("/context  x"), ("context".to_string(), " x".to_string()));
}

#[test]
fn chat_kinds_are_recognised() {
    assert_eq!(classify("hello there"), ReplyKind::Greeting);
    assert_eq!(classify("hi"), ReplyKind::Greeting);
    assert_eq!(classify("chilly"), ReplyKind::Digest);
    assert_eq!(classify("where we left off"), ReplyKind::Recap);
    assert_eq!(classify("what are you doing"), ReplyKind::Context);
}

#[test]
fn local_reply_lowercases_first() {
    let s = Session::new("s");
    assert_eq!(local_response("HELLO!", &s), Some(GREETING.to_string()));
    assert_eq!(local_response("What are you DOING", &s), Some(NO_CONTEXT_YET.to_string()));
}

#[test]
fn digest_reply_summarizes_the_message() {
    let s = Session::new("s");
    let r = reply_for("rust macros are fun", "Rust macros are fun", &s);
    assert_eq!(
        r,
        "Here's what I got: Rust macros are fun | Keywords: fun, macros, rust | Use /recap for session status, /context to track your work, or /ask for AI help."
    );
}

fn conversation() -> Conversation {
    Conversation::new(SessionStore::from_parts("/tmp/s".to_string(), Session::new("s")))
}

#[test]
fn help_command_answers_with_the_commands() {
    let mut c = conversation();
    let out = c.handle_message("/help").unwrap();
    assert!(matches!(out.followup, Followup::Nothing));
    assert!(out.save);
    assert_eq!(c.messages.len(), 2);
    assert_eq!(c.messages[0].role, "user");
    assert_eq!(c.messages[1].role, "system");
    assert_eq!(c.messages[1].content, HELP_TEXT);
    assert_eq!(c.sessions.current().messages.len(), 2);
}

#[test]
fn recap_command_updates_the_banner() {
    let mut c = conversation();
    assert_eq!(c.recap_banner, "No session activity yet.");
    let out = c.handle_message("/recap").unwrap();
    assert!(out.reset_idle);
    assert_eq!(c.recap_banner, "Recent: [user] /recap");
    assert_eq!(c.messages[1].content, "Session recap:\nRecent: [user] /recap");
}

#[test]
fn context_command_sets_and_reports() {
    let mut c = conversation();
    c.handle_message("/context").unwrap();
    assert_eq!(c.messages[1].content, "No context set. Use /context <description> to set.");
    c.handle_message("/context building cortana").unwrap();
    assert_eq!(c.sessions.current().context, "building cortana");
    assert_eq!(c.messages[3].content, "Context set: building cortana");
    assert!(c.recap_banner.starts_with("Working on: building cortana — Recent: "));
    c.handle_message("/context").unwrap();
    assert_eq!(c.messages[5].content, "Current context: building cortana");
}

#[test]
fn clear_and_unknown_commands() {
    let mut c = conversation();
    c.handle_message("/nope").unwrap();
    assert_eq!(c.messages[1].content, "Unknown command: /nope. Try /help.");
    let out = c.handle_message("/clear").unwrap();
    assert!(!out.save);
    assert!(c.messages.is_empty());
    assert_eq!(c.status, MESSAGES_CLEARED);
    assert_eq!(c.sessions.current().messages.len(), 3);
}

#[test]
fn summarize_and_speak_commands() {
    let mut c = conversation();
    c.handle_message("/summarize").unwrap();
    assert_eq!(c.messages[1].content, "Usage: /summarize <text to summarize>");
    c.handle_message("/summarize Rust macros are fun").unwrap();
    assert_eq!(c.messages[3].content, "Summary (0 tokens): Rust macros are fun\nKeywords: fun, macros, rust");
    assert_eq!(c.recap_banner, "RECAP: Rust macros are fun");
    let out = c.handle_message("/speak hello").unwrap();
    match out.followup {
        Followup::Speak(t) => assert_eq!(t, "hello"),
        _ => panic!("expected speech"),
    }
    assert_eq!(c.messages[5].content, "Speaking: hello");
}

#[test]
fn ask_waits_for_the_llm() {
    let mut c = conversation();
    c.handle_message("/ask").unwrap();
    assert_eq!(c.messages[1].content, ASK_USAGE);
    let out = c.handle_message("/ask what is rust").unwrap();
    match out.followup {
        Followup::Ask(q) => assert_eq!(q, "what is rust"),
        _ => panic!("expected a question"),
    }
    assert!(c.thinking);
    assert_eq!(c.status, THINKING);
    assert_eq!(c.answer(Some("A language.".to_string()), true), Some("A language.".to_string()));
    assert!(!c.thinking);
    assert_eq!(c.status, READY);
    assert_eq!(c.messages.last().unwrap().content, "A language.");
    assert_eq!(c.answer(None, true), None);
    assert_eq!(c.status, READY_LLM_ERROR);
    assert_eq!(c.messages.last().unwrap().content, LLM_UNREACHABLE);
    assert_eq!(c.answer(Some("quiet".to_string()), false), None);
}

#[test]
fn quit_command_asks_to_stop() {
    let mut c = conversation();
    let out = c.handle_message("/quit").unwrap();
    assert!(matches!(out.followup, Followup::Quit));
    assert!(out.save);
}

#[test]
fn plain_chat_gets_a_local_reply() {
    let mut c = conversation();
    c.handle_message("Hello Cortana").unwrap();
    assert_eq!(c.messages[1].role, "cortana");
    assert_eq!(c.messages[1].content, GREETING);
    assert_eq!(c.status, READY);
}

#[test]
fn recap_over_a_split_char_is_refused() {
    let mut c = conversation();
    let long = format!("{}é", "x".repeat(79));
    c.handle_message(&long).unwrap();
    assert!(c.handle_message("/recap").is_none());
}

#[test]
fn speech_start_and_end_switch_modes() {
    let mut ui = UiState::new();
    ui.speech_started();
    assert_eq!(ui.mode, InputMode::Speaking);
    assert_eq!(ui.status, "Speaking...");
    ui.speech_ended();
    assert_eq!(ui.mode, InputMode::Normal);
    assert_eq!(ui.status, READY);
}

#[test]
fn roles_map_to_speakers() {
    assert_eq!(speaker_of("assistant"), Speaker::Cortana);
    assert_eq!(speaker_of("cortana"), Speaker::Cortana);
    assert_eq!(speaker_of("system"), Speaker::System);
    assert_eq!(speaker_of("user"), Speaker::You);
}

#[test]
fn only_the_last_messages_that_fit_are_shown() {
    assert_eq!(first_visible(10, 4), 6);
    assert_eq!(first_visible(3, 4), 0);
}
