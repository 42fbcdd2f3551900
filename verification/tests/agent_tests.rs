use cortana::agent::{
    chat_messages, chat_request, completions_url, extract_reply, has_api_key, read_reply, ChatMessage,
    SYSTEM_PROMPT,
};
use cortana::config::LlmConfig;

fn msg(role: &str, content: &str) -> ChatMessage {
    ChatMessage { role: role.to_string(), content: content.to_string() }
}

#[test]
fn request_carries_prompt_last_eight_and_question() {
    let history: Vec<ChatMessage> = (0..10).map(|i| msg("user", &format!("m{i}"))).collect();
    let out = chat_messages("why?", &history);
    assert_eq!(out.len(), 10);
    assert_eq!(out[0].role, "system");
    assert_eq!(out[0].content, SYSTEM_PROMPT);
    assert_eq!(out[1].content, "m2");
    assert_eq!(out[8].content, "m9");
    assert_eq!(out[9].role, "user");
    assert_eq!(out[9].content, "why?");
}

#[test]
fn short_history_is_sent_whole() {
    let out = chat_messages("q", &[msg("cortana", "a")]);
    assert_eq!(out.len(), 3);
    assert_eq!(out[1].role, "cortana");
}

#[test]
fn completions_url_drops_trailing_slashes() {
    assert_eq!(completions_url("https://api.deepseek.com/v1//"), "https://api.deepseek.com/v1/chat/completions");
    assert_eq!(completions_url("http://x"), "http://x/chat/completions");
}

#[test]
fn api_key_presence() {
    assert!(!has_api_key(&LlmConfig::with_api_key(String::new())));
    assert!(has_api_key(&LlmConfig::with_api_key("sk".to_string())));
}

#[test]
fn reply_taken_from_message_content() {
    let body = r#"{"choices":[{"message":{"content":"Hello"}}]}"#;
    assert_eq!(extract_reply(body), Some("Hello".to_string()));
}

#[test]
fn reply_falls_back_to_delta_then_text() {
    assert_eq!(extract_reply(r#"{"choices":[{"delta":{"content":"d"}}]}"#), Some("d".to_string()));
    assert_eq!(extract_reply(r#"{"choices":[{"text":"t"}]}"#), Some("t".to_string()));
}

#[test]
fn api_error_is_reported() {
    assert_eq!(
        extract_reply(r#"{"error":{"message":"bad key"}}"#),
        Some("API error: bad key".to_string())
    );
}

#[test]
fn unreadable_answer_gives_no_reply() {
    assert_eq!(extract_reply("not json"), None);
    assert_eq!(extract_reply("{}"), None);
}

#[test]
fn chat_request_carries_model_headers_and_limits() {
    let config = LlmConfig {
        provider: "openai-compatible".to_string(),
        api_key: "k".to_string(),
        endpoint: "http://h/v1/".to_string(),
        model: "m".to_string(),
    };
    let history: Vec<ChatMessage> = (0..9).map(|i| msg("assistant", &format!("m{i}"))).collect();
    let r = chat_request(&config, "q", &history);
    assert_eq!(r.url, "http://h/v1/chat/completions");
    assert_eq!(r.authorization, "Bearer k");
    assert_eq!(r.content_type, "application/json");
    assert_eq!(r.model, "m");
    assert!(!r.stream);
    assert_eq!(r.max_tokens, 512);
    assert_eq!(r.messages.len(), 10);
    assert_eq!(r.messages[0].role, "system");
    assert_eq!(r.messages[0].content, SYSTEM_PROMPT);
    assert_eq!(r.messages[1].content, "m1");
    assert_eq!(r.messages[8].content, "m8");
    assert_eq!(r.messages[9].role, "user");
    assert_eq!(r.messages[9].content, "q");
}

#[test]
fn reply_that_looks_like_an_error_is_not_one() {
    let (reply, api_error) = read_reply(r#"{"choices":[{"message":{"content":"API error: joke"}}]}"#);
    assert_eq!(reply, Some("API error: joke".to_string()));
    assert!(!api_error);
    let (reply, api_error) = read_reply(r#"{"error":{"message":"bad key"}}"#);
    assert_eq!(reply, Some("API error: bad key".to_string()));
    assert!(api_error);
    assert_eq!(read_reply("{}"), (None, false));
}
