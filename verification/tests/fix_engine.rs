use php_checker::analyzer::fix::{
    apply_text_edits, covering_line_range, line_end, line_start, try_apply_text_edits, TextEdit,
};

fn text(bytes: Vec<u8>) -> String {
    String::from_utf8(bytes).expect("patched text is UTF-8")
}

#[test]
fn no_edits_leave_the_source_untouched() {
    let source = "<?php\nécho 'naïve';\r\n";
    assert_eq!(text(apply_text_edits(source, &[])), source);
    assert_eq!(try_apply_text_edits(source, &[]).map(text), Some(source.to_string()));
}

#[test]
fn edits_are_applied_in_order_of_their_ranges() {
    let source = "0123456789";
    let edits = vec![
        TextEdit::new(7, 9, "B"),
        TextEdit::new(0, 2, "A"),
        TextEdit::new(4, 4, "+"),
    ];
    assert_eq!(text(apply_text_edits(source, &edits)), "A23+456B9");
}

#[test]
fn insertions_at_one_offset_keep_their_order() {
    let edits = vec![
        TextEdit::new(2, 2, "x"),
        TextEdit::new(2, 2, "y"),
        TextEdit::new(2, 3, "Z"),
    ];
    assert_eq!(text(apply_text_edits("abcd", &edits)), "abxyZd");
}

#[test]
fn overlapping_edits_are_refused() {
    let edits = vec![TextEdit::new(0, 3, "a"), TextEdit::new(2, 4, "b")];
    assert_eq!(try_apply_text_edits("abcdef", &edits), None);
    let twice = vec![TextEdit::new(1, 2, "a"), TextEdit::new(1, 2, "b")];
    assert_eq!(try_apply_text_edits("abcdef", &twice), None);
}

#[test]
fn edits_past_the_end_or_reversed_are_refused() {
    assert_eq!(try_apply_text_edits("abc", &[TextEdit::new(2, 4, "")]), None);
    let reversed = TextEdit { start: 2, end: 1, replacement: Vec::new() };
    assert_eq!(try_apply_text_edits("abc", &[reversed]), None);
    assert_eq!(
        try_apply_text_edits("abc", &[TextEdit::new(3, 3, "!")]).map(text),
        Some("abc!".to_string())
    );
}

#[test]
fn covering_line_range_takes_whole_lines() {
    let source = "one\ntwo\nthree";
    assert_eq!(covering_line_range(source, 5, 6), (4, 8));
    assert_eq!(covering_line_range(source, 0, 0), (0, 4));
    assert_eq!(covering_line_range(source, 2, 5), (0, 8));
    assert_eq!(covering_line_range(source, 9, 10), (8, 13));
    assert_eq!(covering_line_range(source, 4, 8), (4, 13));
    assert_eq!(covering_line_range(source, 50, 60), (8, 13));
    assert_eq!(line_start(source, 3), 0);
    assert_eq!(line_start(source, 4), 4);
    assert_eq!(line_end(source, 3), 4);
    assert_eq!(line_end(source, 13), 13);
    assert_eq!(covering_line_range("", 0, 0), (0, 0));
}

#[test]
fn duplicate_keeps_every_field() {
    let edit = TextEdit::new(1, 5, "text");
    let copy = edit.duplicate();
    assert_eq!((copy.start, copy.end, copy.replacement), (1, 5, b"text".to_vec()));
}
