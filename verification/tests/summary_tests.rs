use cortana::summary::{
    extract_doc_lines, file_from_path, first_non_empty_line, json_escape, parse_diff_files,
    summarize, tokenize, top_keywords, top_sentences, SummaryMode,
};

#[test]
fn text_summary_uses_zero_tokens() {
    let input = "Cortana is a terminal assistant. Cortana can summarize documents quickly without LLM tokens. The terminal recap banner stays concise.";
    let result = summarize(input, SummaryMode::Text, None);
    assert_eq!(result.token_usage, 0);
    assert!(result.summary.contains("Cortana"));
    assert!(!result.keywords.is_empty());
}

#[test]
fn code_summary_extracts_symbols() {
    let input = "/// Renders the living face.\npub struct FaceParams {}\npub fn render_face() {}";
    let result = summarize(input, SummaryMode::Code, Some("src/face.rs"));
    assert_eq!(result.token_usage, 0);
    assert!(result.summary.contains("FaceParams"));
    assert!(result.summary.contains("render_face"));
}

#[test]
fn diff_summary_extracts_changed_files() {
    let input = "diff --git a/src/main.rs b/src/main.rs\n+++ b/src/main.rs\n@@ -1 +1 @@\n+pub fn main() { println!(\"ready\"); }\n";
    let result = summarize(input, SummaryMode::Diff, None);
    assert_eq!(result.token_usage, 0);
    assert_eq!(result.files[0].path, "src/main.rs");
}

const TEXT: &str = "Cortana is a terminal assistant. Cortana can summarize documents quickly without LLM tokens. The terminal recap banner stays concise.";

#[test]
fn keywords_rank_by_count_then_alphabetically() {
    assert_eq!(
        top_keywords(TEXT, 6),
        vec!["cortana", "terminal", "assistant", "banner", "concise", "documents"]
    );
}

#[test]
fn keywords_skip_stopwords_and_short_tokens() {
    assert_eq!(top_keywords("the cat and the cat ate an ox dog", 10), vec!["cat", "ate", "dog"]);
}

#[test]
fn text_summary_exact_result() {
    let result = summarize(TEXT, SummaryMode::Text, Some("notes.md"));
    assert_eq!(result.summary, TEXT);
    assert_eq!(result.highlights.len(), 3);
    assert_eq!(result.files.len(), 1);
    assert_eq!(result.files[0].kind, "md");
    assert_eq!(result.to_banner(), format!("RECAP: {TEXT}"));
}

#[test]
fn top_sentences_keep_source_order() {
    let kws: Vec<String> = vec!["terminal".to_string()];
    let s = top_sentences("Nothing here to see, really. The terminal is where we live now.", &kws, 1);
    assert_eq!(s, vec!["The terminal is where we live now."]);
}

#[test]
fn tokenize_splits_on_non_word_chars_and_lowercases() {
    assert_eq!(tokenize("Hello, World_1 foo-bar"), vec!["hello", "world_1", "foo", "bar"]);
}

#[test]
fn short_text_falls_back_to_first_line() {
    let result = summarize("\n  tiny note  \nmore", SummaryMode::Text, None);
    assert_eq!(result.summary, "tiny note");
    let empty = summarize("", SummaryMode::Text, None);
    assert_eq!(empty.summary, "No summary available.");
}

#[test]
fn first_non_empty_line_is_trimmed() {
    assert_eq!(first_non_empty_line("\n \n  x y \n"), Some("x y"));
    assert_eq!(first_non_empty_line(" \n"), None);
}

#[test]
fn doc_lines_are_cleaned_and_limited() {
    let input = "/// Renders the living face.\n// short\n#[derive(Debug)]\n# Heading for the docs\n//! Module level words\n";
    assert_eq!(
        extract_doc_lines(input, 4),
        vec!["Renders the living face.", "Heading for the docs", "Module level words"]
    );
    assert_eq!(extract_doc_lines(input, 1), vec!["Renders the living face."]);
}

#[test]
fn diff_files_record_kind_and_highlights() {
    let input = "diff --git a/new.txt b/new.txt\nnew file mode 100644\n+++ b/new.txt\n@@ -0,0 +1 @@\n+a line that is long enough\n+short\n";
    let files = parse_diff_files(input);
    assert_eq!(files.len(), 1);
    assert_eq!(files[0].path, "new.txt");
    assert_eq!(files[0].kind, "added");
    assert_eq!(files[0].highlights, vec!["@@ -0,0 +1 @@", "added: a line that is long enough"]);
}

#[test]
fn diff_files_come_out_sorted_by_path() {
    let input = "+++ b/z.rs\n+++ b/a.rs\ndeleted file mode 100644\n";
    let files = parse_diff_files(input);
    assert_eq!(files.len(), 2);
    assert_eq!(files[0].path, "a.rs");
    assert_eq!(files[0].kind, "deleted");
    assert_eq!(files[1].path, "z.rs");
    assert_eq!(files[1].kind, "modified");
}

#[test]
fn file_kind_is_the_extension() {
    assert_eq!(file_from_path("src/face.rs").kind, "rs");
    assert_eq!(file_from_path("archive.tar.gz").kind, "gz");
    assert_eq!(file_from_path("README").kind, "text");
    assert_eq!(file_from_path(".bashrc").kind, "text");
}

#[test]
fn json_escape_handles_quotes_and_controls() {
    assert_eq!(json_escape("a\"b\\c\nd\te\r\u{1}"), "a\\\"b\\\\c\\nd\\te\\r\\u0001");
    assert_eq!(json_escape("plain é"), "plain é");
}

#[test]
fn summary_json_reports_zero_tokens() {
    let input = "diff --git a/src/main.rs b/src/main.rs\n+++ b/src/main.rs\n@@ -1 +1 @@\n";
    let json = summarize(input, SummaryMode::Diff, None).to_json();
    assert_eq!(
        json,
        "{\"mode\":\"diff\",\"summary\":\"modified file src/main.rs with 1 highlight(s).\",\"keywords\":[\"file\",\"highlight\",\"main\",\"modified\",\"src\"],\"highlights\":[\"modified file src/main.rs with 1 highlight(s).\"],\"files\":[{\"path\":\"src/main.rs\",\"kind\":\"modified\",\"highlights\":[\"@@ -1 +1 @@\"]}],\"token_usage\":0}"
    );
}

#[test]
fn mode_names_parse_and_print() {
    assert!(matches!(SummaryMode::parse("code"), Ok(SummaryMode::Code)));
    assert!(matches!(SummaryMode::parse("text"), Ok(SummaryMode::Text)));
    assert_eq!(SummaryMode::parse("prose").unwrap_err(), "unsupported summary mode 'prose'");
    assert_eq!(SummaryMode::Diff.as_str(), "diff");
}

#[test]
fn more_keywords_extend_the_shorter_list() {
    let three = top_keywords(TEXT, 3);
    let six = top_keywords(TEXT, 6);
    assert_eq!(three.len(), 3);
    assert_eq!(&six[..3], &three[..]);
}

#[test]
fn tokens_rejoined_tokenize_the_same() {
    let input = "Hello, World_2! naïve foo-bar";
    let tokens = tokenize(input);
    assert_eq!(tokens, vec!["hello", "world_2", "na", "ve", "foo", "bar"]);
    assert_eq!(tokenize(&tokens.join(" ")), tokens);
}

#[test]
fn summary_json_reads_back_every_field() {
    let input = "He said \"stop\" at C:\\temp\tthen left. Quoting \"stop\" twice makes stop a keyword.\nThird line \u{1} here.";
    let result = summarize(input, SummaryMode::Text, Some("notes/a \"b\".md"));
    let value: serde_json::Value = serde_json::from_str(&result.to_json()).unwrap();
    assert_eq!(value["mode"], "text");
    assert_eq!(value["summary"], result.summary.as_str());
    let keywords: Vec<String> = value["keywords"]
        .as_array()
        .unwrap()
        .iter()
        .map(|k| k.as_str().unwrap().to_string())
        .collect();
    assert_eq!(keywords, result.keywords);
    let highlights: Vec<String> = value["highlights"]
        .as_array()
        .unwrap()
        .iter()
        .map(|k| k.as_str().unwrap().to_string())
        .collect();
    assert_eq!(highlights, result.highlights);
    assert_eq!(value["files"][0]["path"], result.files[0].path.as_str());
    assert_eq!(value["files"][0]["kind"], result.files[0].kind.as_str());
    assert_eq!(value["token_usage"], 0);
}

#[test]
fn file_kind_follows_the_last_path_component() {
    assert_eq!(file_from_path("docs/guide.md/.").kind, "md");
    assert_eq!(file_from_path("docs/guide.md//").kind, "md");
    assert_eq!(file_from_path("docs/..").kind, "text");
    assert_eq!(file_from_path("v1.2/notes").kind, "text");
    assert_eq!(file_from_path("notes.").kind, "");
    assert_eq!(file_from_path("/").kind, "text");
}
