use tool_turn::documents::chunk_text;
use tool_turn::logging::extract_date_from_filename;
use tool_turn::title::generate_chat_title;
use tool_turn::title::next_session_title;
use tool_turn::title::truncate_content;

#[test]
fn test_extract_date_from_filename() {
    assert_eq!(
        extract_date_from_filename("sparrow.2024-01-15.log"),
        Some("2024-01-15".to_string())
    );
    assert_eq!(
        extract_date_from_filename("sparrow.2024-12-31.log"),
        Some("2024-12-31".to_string())
    );
    assert_eq!(extract_date_from_filename("invalid-format.log"), None);
    assert_eq!(extract_date_from_filename("sparrow.log"), None);
    assert_eq!(extract_date_from_filename("other.2024-01-15.log"), None);
}

#[test]
fn test_chunk_text() {
    let text = "This is a test text that should be chunked properly.";
    let chunks = chunk_text(text, 20, 5);
    assert!(!chunks.is_empty());
    assert!(chunks[0].len() <= 20);
}

#[test]
fn test_chunk_text_overlap_windows() {
    let chunks = chunk_text("abcdefghij", 4, 2);
    assert_eq!(chunks, vec![
        "abcd".to_string(),
        "cdef".to_string(),
        "efgh".to_string(),
        "ghij".to_string(),
    ]);
}

#[test]
fn test_chunk_text_drops_blank_chunks() {
    let chunks = chunk_text("ab    cd", 2, 0);
    assert_eq!(chunks, vec!["ab".to_string(), "cd".to_string()]);
}

#[test]
fn test_chunk_text_empty_input() {
    assert!(chunk_text("", 10, 2).is_empty());
}

#[test]
fn test_generate_chat_title_capitalizes_short_text() {
    assert_eq!(generate_chat_title("hello there"), "Hello there");
    assert_eq!(generate_chat_title("  hi  "), "Hi");
}

#[test]
fn test_generate_chat_title_breaks_long_text_at_space() {
    let content = format!("{}. {}", "b".repeat(45), "c".repeat(30));
    let title = generate_chat_title(&content);
    assert_eq!(title, format!("B{}...", "b".repeat(44)));
}

#[test]
fn test_generate_chat_title_hard_break_without_space() {
    let content = "a".repeat(70);
    let title = generate_chat_title(&content);
    assert_eq!(title, format!("A{}...", "a".repeat(59)));
}

#[test]
fn test_generate_chat_title_keeps_early_space_break_out() {
    // The only space sits at position 10, too early to break there.
    let content = format!("{} {}", "d".repeat(10), "e".repeat(60));
    let title = generate_chat_title(&content);
    assert_eq!(title.chars().count(), 63);
    assert!(title.ends_with("..."));
}

#[test]
fn test_next_session_title_names_fresh_session() {
    assert_eq!(next_session_title("New Chat", "user", "what is rust?"), "What is rust?");
    assert_eq!(next_session_title("New Chat", "assistant", "hello"), "New Chat");
    assert_eq!(next_session_title("Old title", "user", "hello"), "Old title");
}

#[test]
fn test_truncate_content_keeps_short_text() {
    assert_eq!(truncate_content("short", 10), "short");
}

#[test]
fn test_truncate_content_cuts_at_word_boundary() {
    assert_eq!(truncate_content("hello world foo", 11), "hello...");
}

#[test]
fn test_truncate_content_hard_cut_without_space() {
    assert_eq!(truncate_content("abcdefghij", 5), "abcde...");
}
