use monitor_system_ops::document::{Document, DocumentStats};
use monitor_system_ops::numfmt::{format_tenths, format_u64};

#[test]
fn a_new_document_is_empty_and_clean() {
    let d = Document::new("scratch");
    assert_eq!(d.title(), "scratch");
    assert_eq!(d.content, "");
    assert!(d.path().is_none());
    assert!(!d.is_modified());
}

#[test]
fn save_as_records_path_and_titles_from_the_file_name() {
    let mut d = Document::new("scratch");
    d.set_modified(true);
    d.save_as("/home/user/notes/todo.txt");
    assert_eq!(d.title(), "todo.txt");
    assert_eq!(d.path().unwrap(), "/home/user/notes/todo.txt");
    assert!(!d.is_modified());
}

#[test]
fn save_as_handles_backslash_paths_and_bare_names() {
    let mut d = Document::new("scratch");
    d.save_as("C:\\Users\\me\\report.md");
    assert_eq!(d.title(), "report.md");
    d.save_as("plain.txt");
    assert_eq!(d.title(), "plain.txt");
    d.save_as("dir/");
    assert_eq!(d.title(), "Untitled");
}

#[test]
fn undo_restores_the_previous_content_and_redo_brings_it_back() {
    let mut d = Document::new("t");
    d.content = "first".to_string();
    d.push_undo_state();
    d.content = "second".to_string();
    d.undo();
    assert_eq!(d.content, "first");
    assert!(d.is_modified());
    d.redo();
    assert_eq!(d.content, "second");
}

#[test]
fn undo_on_an_empty_history_changes_nothing() {
    let mut d = Document::new("t");
    d.content = "text".to_string();
    d.undo();
    assert_eq!(d.content, "text");
    assert!(!d.is_modified());
    d.redo();
    assert_eq!(d.content, "text");
}

#[test]
fn a_new_edit_clears_the_redo_history() {
    let mut d = Document::new("t");
    d.content = "one".to_string();
    d.push_undo_state();
    d.content = "two".to_string();
    d.undo();
    d.push_undo_state();
    d.content = "three".to_string();
    d.redo();
    assert_eq!(d.content, "three");
}

#[test]
fn find_next_is_case_insensitive_by_default() {
    let mut d = Document::new("t");
    d.content = "Say Hello twice: hello".to_string();
    d.find_text = "HELLO".to_string();
    assert!(d.find_next());
    assert_eq!(d.selection, Some((4, 9)));
    assert_eq!(d.current_find_pos, 9);
    assert!(d.find_next());
    assert_eq!(d.selection, Some((17, 22)));
    assert!(!d.find_next());
    assert_eq!(d.current_find_pos, 0);
}

#[test]
fn find_next_respects_match_case() {
    let mut d = Document::new("t");
    d.content = "Say Hello".to_string();
    d.find_text = "HELLO".to_string();
    d.match_case = true;
    assert!(!d.find_next());
    d.find_text = "Hello".to_string();
    assert!(d.find_next());
    assert_eq!(d.selection, Some((4, 9)));
}

#[test]
fn find_next_with_empty_find_text_does_nothing() {
    let mut d = Document::new("t");
    d.content = "anything".to_string();
    assert!(!d.find_next());
    assert_eq!(d.current_find_pos, 0);
}

#[test]
fn replace_next_replaces_the_matching_selection() {
    let mut d = Document::new("t");
    d.content = "red green red".to_string();
    d.find_text = "red".to_string();
    d.replace_text = "blue".to_string();
    assert!(d.find_next());
    assert!(d.replace_next());
    assert_eq!(d.content, "blue green red");
    assert_eq!(d.selection, Some((0, 4)));
    assert_eq!(d.current_find_pos, 4);
    assert!(d.is_modified());
    d.undo();
    assert_eq!(d.content, "red green red");
}

#[test]
fn replace_next_without_a_selection_searches_instead() {
    let mut d = Document::new("t");
    d.content = "red green".to_string();
    d.find_text = "green".to_string();
    d.replace_text = "blue".to_string();
    assert!(d.replace_next());
    assert_eq!(d.content, "red green");
    assert_eq!(d.selection, Some((4, 9)));
}

#[test]
fn replace_all_replaces_every_occurrence() {
    let mut d = Document::new("t");
    d.content = "aaa bbb aaa".to_string();
    d.find_text = "aaa".to_string();
    d.replace_text = "c".to_string();
    d.replace_all();
    assert_eq!(d.content, "c bbb c");
    assert!(d.is_modified());
    d.undo();
    assert_eq!(d.content, "aaa bbb aaa");
}

#[test]
fn replace_all_folds_case_unless_asked_not_to() {
    let mut d = Document::new("t");
    d.content = "Red RED red".to_string();
    d.find_text = "red".to_string();
    d.replace_text = "blue".to_string();
    d.replace_all();
    assert_eq!(d.content, "blue blue blue");

    let mut e = Document::new("t");
    e.content = "Red RED red".to_string();
    e.find_text = "red".to_string();
    e.replace_text = "blue".to_string();
    e.match_case = true;
    e.replace_all();
    assert_eq!(e.content, "Red RED blue");
}

#[test]
fn replace_all_with_no_match_leaves_the_flag_alone() {
    let mut d = Document::new("t");
    d.content = "nothing here".to_string();
    d.find_text = "xyz".to_string();
    d.replace_all();
    assert_eq!(d.content, "nothing here");
    assert!(!d.is_modified());
}

#[test]
fn paste_inserts_over_the_selection_or_at_the_cursor() {
    let mut d = Document::new("t");
    d.content = "keep [OLD] keep".to_string();
    d.selection = Some((5, 10));
    d.paste();
    assert_eq!(d.content, "keep pasted_text keep");
    let mut e = Document::new("t");
    e.content = "tail".to_string();
    e.paste();
    assert_eq!(e.content, "pasted_texttail");
}

#[test]
fn select_all_spans_the_whole_content() {
    let mut d = Document::new("t");
    d.content = "abcdef".to_string();
    d.select_all();
    assert_eq!(d.selection, Some((0, 6)));
}

#[test]
fn the_cursor_starts_on_line_one_column_zero() {
    let mut d = Document::new("t");
    d.content = "one\ntwo".to_string();
    assert_eq!(d.cursor_line(), 1);
    assert_eq!(d.cursor_column(), 0);
    d.cursor_position = 6;
    assert_eq!(d.cursor_line(), 2);
    assert_eq!(d.cursor_column(), 2);
}

#[test]
fn stats_count_the_sample_text() {
    let mut d = Document::new("t");
    d.content = "Hello world\n\nSecond paragraph here.".to_string();
    let s = d.calculate_stats();
    assert_eq!(
        s,
        DocumentStats {
            pages: 1,
            words: 5,
            characters: 35,
            characters_no_spaces: 30,
            lines: 3,
            paragraphs: 2,
        }
    );
}

#[test]
fn stats_of_an_empty_document_are_zero_except_one_paragraph() {
    let d = Document::new("t");
    let s = d.calculate_stats();
    assert_eq!(
        s,
        DocumentStats {
            pages: 0,
            words: 0,
            characters: 0,
            characters_no_spaces: 0,
            lines: 0,
            paragraphs: 1,
        }
    );
}

#[test]
fn pages_round_up_at_five_hundred_words() {
    let mut d = Document::new("t");
    d.content = vec!["w"; 500].join(" ");
    assert_eq!(d.calculate_stats().pages, 1);
    d.content.push_str(" extra");
    assert_eq!(d.calculate_stats().pages, 2);
}

#[test]
fn decimal_rendering_is_exact() {
    assert_eq!(format_u64(0), "0");
    assert_eq!(format_u64(907), "907");
    assert_eq!(format_u64(u64::MAX), "18446744073709551615");
    assert_eq!(format_tenths(950), "95.0");
    assert_eq!(format_tenths(7), "0.7");
    assert_eq!(format_tenths(1000), "100.0");
}

#[test]
fn copy_returns_the_selected_text_without_changing_anything() {
    let mut d = Document::new("t");
    d.content = "alpha beta".to_string();
    assert_eq!(d.copy(), None);
    d.selection = Some((6, 10));
    assert_eq!(d.copy(), Some("beta".to_string()));
    assert_eq!(d.content, "alpha beta");
}

#[test]
fn cut_removes_the_selection_and_hands_it_back() {
    let mut d = Document::new("t");
    d.content = "alpha beta".to_string();
    d.selection = Some((5, 10));
    assert_eq!(d.cut(), Some(" beta".to_string()));
    assert_eq!(d.content, "alpha");
    assert_eq!(d.selection, None);
    assert!(d.is_modified());
    d.undo();
    assert_eq!(d.content, "alpha beta");
}

#[test]
fn cut_without_a_selection_does_nothing() {
    let mut d = Document::new("t");
    d.content = "alpha".to_string();
    assert_eq!(d.cut(), None);
    assert_eq!(d.content, "alpha");
    assert!(!d.is_modified());
}
