use cortana::session::{can_cut, newest_index, sort_names, stamp, truncate, Session, SessionStore};

#[test]
fn stamps_count_whole_days_and_seconds() {
    assert_eq!(stamp(0), "1970-01-01T00:00:00Z");
    assert_eq!(stamp(365 * 86400 + 3661), "1971-01-01T01:01:01Z");
    assert_eq!(stamp(45 * 86400 + 59), "1970-02-16T00:00:59Z");
}

#[test]
fn new_session_is_empty() {
    let s = Session::new("work");
    assert_eq!(s.name, "work");
    assert!(s.messages.is_empty());
    assert!(s.context.is_empty());
    assert_eq!(s.created_at, s.updated_at);
}

#[test]
fn empty_session_recap_says_nothing_happened() {
    assert_eq!(Session::new("s").recap(), "No session activity yet.");
}

#[test]
fn recap_lists_context_files_and_recent_messages() {
    let mut s = Session::new("s");
    s.set_context("building cortana");
    s.touch_file("a.rs");
    s.add_message("user", "hello");
    assert_eq!(
        s.recap(),
        "Working on: building cortana — Files: a.rs — Recent: [user] hello"
    );
}

#[test]
fn recap_shows_three_files_and_counts_the_rest() {
    let mut s = Session::new("s");
    for f in ["a", "b", "c", "d", "e"] {
        s.touch_file(f);
    }
    assert_eq!(s.recap(), "Files: a, b, c and 2 more");
}

#[test]
fn recap_keeps_last_five_messages_cut_to_eighty_bytes() {
    let mut s = Session::new("s");
    for i in 0..7 {
        s.add_message("user", &format!("m{i}"));
    }
    s.add_message("system", &"x".repeat(90));
    let recap = s.recap();
    assert!(recap.starts_with("Recent: [user] m3 | [user] m4"));
    assert!(recap.ends_with(&format!("[system] {}…", "x".repeat(80))));
}

#[test]
fn session_keeps_at_most_two_hundred_messages() {
    let mut s = Session::new("s");
    for i in 0..201 {
        s.add_message("user", &format!("m{i}"));
    }
    assert_eq!(s.messages.len(), 200);
    assert_eq!(s.messages.front().unwrap().content, "m1");
    assert_eq!(s.messages.back().unwrap().content, "m200");
}

#[test]
fn touching_a_file_twice_records_it_once() {
    let mut s = Session::new("s");
    s.touch_file("a.rs");
    s.touch_file("b.rs");
    s.touch_file("a.rs");
    assert_eq!(s.files_touched, vec!["a.rs", "b.rs"]);
}

#[test]
fn truncate_cuts_and_marks_long_text() {
    assert_eq!(truncate("hello world", 5), "hello…");
    assert_eq!(truncate("hi", 5), "hi");
    assert_eq!(truncate("héllo", 3), "hé…");
}

#[test]
fn cuttable_only_on_char_boundaries() {
    assert!(can_cut("héllo", 3));
    assert!(!can_cut("héllo", 2));
    assert!(can_cut("hi", 10));
}

#[test]
fn session_with_a_split_char_cannot_be_recapped() {
    let mut s = Session::new("s");
    s.add_message("user", &format!("{}é", "x".repeat(79)));
    assert!(!s.can_recap());
    let mut t = Session::new("t");
    t.add_message("user", "fine");
    assert!(t.can_recap());
}

#[test]
fn markdown_export_lists_everything() {
    let mut s = Session::new("s");
    s.set_context("ctx");
    s.touch_file("a.rs");
    s.add_message("user", "hi");
    let md = s.to_markdown();
    assert!(md.starts_with("# Session: s\n\n**Created:** "));
    assert!(md.contains("\n**Context:** ctx\n"));
    assert!(md.contains("\n## Files\n- `a.rs`\n"));
    let ts = s.messages[0].timestamp.clone();
    assert!(md.ends_with(&format!("\n## Messages\n- **[{ts}]** user: hi\n")));
}

#[test]
fn store_names_the_session_file() {
    let store = SessionStore::from_parts("/tmp/sessions".to_string(), Session::new("default"));
    assert_eq!(store.dir(), "/tmp/sessions");
    assert_eq!(store.current().name, "default");
    assert_eq!(store.session_file_name(), "default.json");
}

#[test]
fn session_names_sort_by_code_point() {
    let names: Vec<String> = ["b", "a", "B", "ä", "ab"].iter().map(|s| s.to_string()).collect();
    assert_eq!(sort_names(&names), vec!["B", "a", "ab", "b", "ä"]);
    assert!(sort_names(&Vec::new()).is_empty());
}

#[test]
fn newest_session_is_the_first_latest() {
    assert_eq!(newest_index(&vec![3, 7, 7, 1]), Some(1));
    assert_eq!(newest_index(&vec![-5, -2]), Some(1));
    assert_eq!(newest_index(&Vec::new()), None);
}
