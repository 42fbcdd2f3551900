use cortana::config::{
    default_banner_max_chars, default_face_frame_rate, default_llm_endpoint, default_llm_model,
    default_llm_provider, default_renderer, default_speech_recap_sentences, default_true,
    default_tts_provider, dotenv_entries, dotenv_entry, CortanaConfig, LlmConfig, SpeechConfig,
    SummaryConfig, UiConfig,
};

#[test]
fn field_defaults_match_documented_values() {
    assert!(default_true());
    assert_eq!(default_renderer(), "canvas");
    assert_eq!(default_face_frame_rate(), 15);
    assert_eq!(default_tts_provider(), "system");
    assert_eq!(default_banner_max_chars(), 120);
    assert_eq!(default_speech_recap_sentences(), 2);
    assert_eq!(default_llm_provider(), "openai-compatible");
    assert_eq!(default_llm_endpoint(), "https://api.deepseek.com/v1");
    assert_eq!(default_llm_model(), "deepseek-chat");
}

#[test]
fn section_defaults() {
    let ui = UiConfig::default();
    assert!(ui.show_recap_banner);
    assert_eq!(ui.renderer, "ascii");
    let speech = SpeechConfig::default();
    assert!(!speech.speak_by_default);
    let summary = SummaryConfig::default();
    assert_eq!(summary.banner_max_chars, 120);
    let llm = LlmConfig::with_api_key("k".to_string());
    assert_eq!(llm.api_key, "k");
    assert_eq!(llm.model, "deepseek-chat");
    let all = CortanaConfig::with_api_key(String::new());
    assert_eq!(all.llm.api_key, "");
    assert_eq!(all.speech.tts_provider, "system");
}

#[test]
fn dotenv_line_is_trimmed_and_unquoted() {
    assert_eq!(
        dotenv_entry("  KEY = \"value\" "),
        Some(("KEY".to_string(), "value".to_string()))
    );
    assert_eq!(dotenv_entry("A='b'"), Some(("A".to_string(), "b".to_string())));
    assert_eq!(dotenv_entry("A=b=c"), Some(("A".to_string(), "b=c".to_string())));
}

#[test]
fn dotenv_comments_and_blank_lines_are_skipped() {
    assert_eq!(dotenv_entry("# comment"), None);
    assert_eq!(dotenv_entry("   "), None);
    assert_eq!(dotenv_entry("no_equals_sign"), None);
}

#[test]
fn dotenv_text_is_read_line_by_line() {
    let entries = dotenv_entries("A=1\n# skip\n\nB = 2\r\n");
    assert_eq!(
        entries,
        vec![("A".to_string(), "1".to_string()), ("B".to_string(), "2".to_string())]
    );
}
