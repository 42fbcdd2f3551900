//! The chat request an LLM gets and the reply taken from its answer.
use vstd::prelude::*;
use crate::text::{chars_of, trailing_count, string_of, slice_chars, push_str};
use crate::summary::str_string;
use crate::config::LlmConfig;

verus! {

/// One message of a chat.
#[derive(Debug, Clone)]
pub struct ChatMessage {
    pub role: String,
    pub content: String,
}

pub struct ChatView {
    pub role: Seq<char>,
    pub content: Seq<char>,
}

impl View for ChatMessage {
    type V = ChatView;

    open spec fn view(&self) -> ChatView {
        ChatView { role: self.role@, content: self.content@ }
    }
}

pub open spec fn cviews(v: Seq<ChatMessage>) -> Seq<ChatView> {
    v.map_values(|m: ChatMessage| m@)
}

/// The system prompt of every chat.
pub const SYSTEM_PROMPT: &'static str = "You are Cortana, a terminal-native AI assistant.
Rules:
- Be extremely concise. Terminal users hate walls of text.
- One to three sentences maximum unless asked for detail.
- You have personality — be witty, not robotic.
- Focus on code, project context, and technical questions.
- If you don't know something, say so directly.";

/// How many earlier messages a chat request carries.
pub const HISTORY_WINDOW: usize = 8;

/// The last eight messages of the history (all when fewer).
pub open spec fn history_window(h: Seq<ChatView>) -> Seq<ChatView> {
    if h.len() > 8 {
        h.skip(h.len() - 8)
    } else {
        h
    }
}

/// The messages a chat request sends: the system prompt, the recent history, the question.
pub open spec fn request_messages(user: Seq<char>, h: Seq<ChatView>) -> Seq<ChatView> {
    seq![ChatView { role: "system"@, content: SYSTEM_PROMPT@ }] + history_window(h) + seq![
        ChatView { role: "user"@, content: user },
    ]
}

/// The messages to send for a question after the given history.
pub fn chat_messages(user_message: &str, history: &[ChatMessage]) -> (out: Vec<ChatMessage>)
    ensures
        cviews(out@) == request_messages(user_message@, cviews(history@)),
{
    let mut out: Vec<ChatMessage> = Vec::new();
    out.push(ChatMessage { role: str_string("system"), content: str_string(SYSTEM_PROMPT) });
    let n = history.len();
    let start = if n > HISTORY_WINDOW {
        n - HISTORY_WINDOW
    } else {
        0
    };
    let ghost head = cviews(out@);
    let ghost w = history_window(cviews(history@));
    let mut i = start;
    while i < n
        invariant
            n == history@.len(),
            start <= i <= n,
            start == if n > 8 {
                n - 8
            } else {
                0
            },
            w == history_window(cviews(history@)),
            cviews(out@) == head + w.take(i - start),
        decreases n - i,
    {
        let m = ChatMessage {
            role: history[i].role.clone(),
            content: history[i].content.clone(),
        };
        let ghost before = cviews(out@);
        out.push(m);
        assert(cviews(out@) =~= before.push(m@));
        assert(w.take(i + 1 - start) =~= w.take(i - start).push(m@));
        i = i + 1;
    }
    assert(w.take(n - start) =~= w);
    let ghost before = cviews(out@);
    let u = ChatMessage { role: str_string("user"), content: str_string(user_message) };
    out.push(u);
    assert(cviews(out@) =~= before.push(u@));
    assert(cviews(out@) =~= request_messages(user_message@, cviews(history@)));
    out
}

/// The chat completions URL of an endpoint: without trailing `/`s, then
/// `/chat/completions`.
pub open spec fn completions_url_of(endpoint: Seq<char>) -> Seq<char> {
    endpoint.take(endpoint.len() - crate::text::trail_char(endpoint, '/')) + "/chat/completions"@
}

/// The chat completions URL of an endpoint.
pub fn completions_url(endpoint: &str) -> (r: String)
    ensures
        r@ == completions_url_of(endpoint@),
{
    let e = chars_of(endpoint);
    let k = trailing_count(&e, '/');
    let mut r = string_of(slice_chars(&e, 0, e.len() - k).as_slice());
    assert(e@.subrange(0, e.len() - k) =~= e@.take(e.len() - k));
    push_str(&mut r, "/chat/completions");
    r
}

/// The most tokens a reply may spend.
pub const MAX_REPLY_TOKENS: u32 = 512;

/// Everything a chat completions request carries: where it goes, its headers, and the
/// fields of its JSON body.
#[derive(Debug, Clone)]
pub struct ChatRequest {
    pub url: String,
    pub authorization: String,
    pub content_type: String,
    pub model: String,
    pub messages: Vec<ChatMessage>,
    pub stream: bool,
    pub max_tokens: u32,
}

/// The request for a question after the given history, with the given settings: a POST to
/// the endpoint's completions URL, `Bearer` and the API key as authorization, a JSON body
/// naming the model, the messages, no streaming and at most 512 reply tokens.
pub fn chat_request(config: &LlmConfig, user_message: &str, history: &[ChatMessage]) -> (r:
    ChatRequest)
    ensures
        r.url@ == completions_url_of(config.endpoint@),
        r.authorization@ == "Bearer "@ + config.api_key@,
        r.content_type@ == "application/json"@,
        r.model@ == config.model@,
        cviews(r.messages@) == request_messages(user_message@, cviews(history@)),
        !r.stream,
        r.max_tokens == 512,
{
    let mut authorization = str_string("Bearer ");
    push_str(&mut authorization, config.api_key.as_str());
    ChatRequest {
        url: completions_url(config.endpoint.as_str()),
        authorization,
        content_type: str_string("application/json"),
        model: str_string(config.model.as_str()),
        messages: chat_messages(user_message, history),
        stream: false,
        max_tokens: MAX_REPLY_TOKENS,
    }
}

/// Whether the settings hold an API key (an LLM client is made only then).
pub fn has_api_key(config: &LlmConfig) -> (b: bool)
    ensures
        b == (config.api_key@.len() > 0),
{
    chars_of(config.api_key.as_str()).len() > 0
}

/// The strings an LLM answer holds at `choices[0].message.content`,
/// `choices[0].delta.content`, `choices[0].text` and `error.message`, when the body is JSON
/// (each `None` where no string stands).
pub uninterp spec fn response_fields(body: Seq<char>) -> (
    Option<Seq<char>>,
    Option<Seq<char>>,
    Option<Seq<char>>,
    Option<Seq<char>>,
);

pub open spec fn opt_str(o: Option<String>) -> Option<Seq<char>> {
    match o {
        Some(s) => Some(s@),
        None => None,
    }
}

/// Parses the body with `serde_json::from_str` into a `serde_json::Value` and reads the four
/// fields by indexing it; the contract names the result `response_fields`.
#[verifier::external_body]
fn read_response_fields(body: &str) -> (r: (Option<String>, Option<String>, Option<String>, Option<String>))
    ensures
        (opt_str(r.0), opt_str(r.1), opt_str(r.2), opt_str(r.3)) == response_fields(body@),
{
    match serde_json::from_str::<serde_json::Value>(body) {
        Ok(v) => (
            v["choices"][0]["message"]["content"].as_str().map(String::from),
            v["choices"][0]["delta"]["content"].as_str().map(String::from),
            v["choices"][0]["text"].as_str().map(String::from),
            v["error"]["message"].as_str().map(String::from),
        ),
        Err(_) => (None, None, None, None),
    }
}

/// The reply in an answer's fields: the message content, else the delta content, else the
/// text, else the API's error message after `API error: `; none without any of them.
pub open spec fn reply_of(
    f: (Option<Seq<char>>, Option<Seq<char>>, Option<Seq<char>>, Option<Seq<char>>),
) -> Option<Seq<char>> {
    if f.0 is Some {
        f.0
    } else if f.1 is Some {
        f.1
    } else if f.2 is Some {
        f.2
    } else if f.3 is Some {
        Some("API error: "@ + f.3->0)
    } else {
        None
    }
}

/// The reply from an answer's fields.
pub fn choose_reply(
    message: Option<String>,
    delta: Option<String>,
    text: Option<String>,
    error: Option<String>,
) -> (r: Option<String>)
    ensures
        opt_str(r) == reply_of((opt_str(message), opt_str(delta), opt_str(text), opt_str(error))),
{
    if let Some(c) = message {
        return Some(c);
    }
    if let Some(c) = delta {
        return Some(c);
    }
    if let Some(c) = text {
        return Some(c);
    }
    if let Some(e) = error {
        let mut r = str_string("API error: ");
        push_str(&mut r, e.as_str());
        return Some(r);
    }
    None
}

/// Whether an answer's fields give the API's error message: none of the three content
/// fields holds a string, and the error message does.
pub open spec fn is_api_error(
    f: (Option<Seq<char>>, Option<Seq<char>>, Option<Seq<char>>, Option<Seq<char>>),
) -> bool {
    f.0 is None && f.1 is None && f.2 is None && f.3 is Some
}

/// The reply in an LLM answer's body, and whether it is the API's error message.
pub fn read_reply(body: &str) -> (r: (Option<String>, bool))
    ensures
        opt_str(r.0) == reply_of(response_fields(body@)),
        r.1 == is_api_error(response_fields(body@)),
{
    let (m, d, t, e) = read_response_fields(body);
    let err = m.is_none() && d.is_none() && t.is_none() && e.is_some();
    (choose_reply(m, d, t, e), err)
}

/// The reply in an LLM answer's body.
pub fn extract_reply(body: &str) -> (r: Option<String>)
    ensures
        opt_str(r) == reply_of(response_fields(body@)),
{
    read_reply(body).0
}

} // verus!
