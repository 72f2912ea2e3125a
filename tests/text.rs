use obentou_cli::text::{join_lines, same_text, split_text};

#[test]
fn join_and_split() {
    let lines = vec!["{".to_string(), "  \"a\": 1".to_string(), "}".to_string()];
    let text = join_lines(&lines);
    assert_eq!(text, "{\n  \"a\": 1\n}");
    assert_eq!(split_text(&text), lines);
    assert_eq!(split_text(""), vec![String::new()]);
    assert_eq!(split_text("a\n"), vec!["a".to_string(), String::new()]);
    assert_eq!(join_lines(&[]), "");
}

#[test]
fn text_equality() {
    assert!(same_text("Note", "Note"));
    assert!(!same_text("Note", "Not"));
    assert!(!same_text("Note", "note"));
}
