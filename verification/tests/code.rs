use forge_egui::code::{diff_lines, gutter_digits, CodeAnnotation, CodeView, CodeViewState, DiffRow, DiffView};
use forge_egui::tone::Severity;

#[test]
fn diff_insert() {
    let rows = diff_lines("a\nb", "a\nx\nb");
    assert_eq!(
        rows,
        vec![DiffRow::Same("a"), DiffRow::Add("x"), DiffRow::Same("b")]
    );
}

#[test]
fn diff_delete() {
    let rows = diff_lines("a\nb\nc", "a\nc");
    assert_eq!(
        rows,
        vec![DiffRow::Same("a"), DiffRow::Del("b"), DiffRow::Same("c")]
    );
}

#[test]
fn diff_replace() {
    let rows = diff_lines("a\nold\nz", "a\nnew\nz");
    assert_eq!(
        rows,
        vec![
            DiffRow::Same("a"),
            DiffRow::Del("old"),
            DiffRow::Add("new"),
            DiffRow::Same("z"),
        ]
    );
}

#[test]
fn diff_identical_and_empty() {
    assert_eq!(
        diff_lines("a\nb", "a\nb"),
        vec![DiffRow::Same("a"), DiffRow::Same("b")]
    );
    assert_eq!(diff_lines("", ""), Vec::<DiffRow>::new());
    assert_eq!(diff_lines("", "a"), vec![DiffRow::Add("a")]);
    assert_eq!(diff_lines("a", ""), vec![DiffRow::Del("a")]);
}

#[test]
fn diff_keeps_both_sides_in_order() {
    let old = "one\ntwo\nthree\nfour";
    let new = "zero\none\nthree\nfive\nfour";
    let rows = diff_lines(old, new);
    let olds: Vec<&str> = rows
        .iter()
        .filter_map(|r| match r {
            DiffRow::Same(l) | DiffRow::Del(l) => Some(*l),
            DiffRow::Add(_) => None,
        })
        .collect();
    let news: Vec<&str> = rows
        .iter()
        .filter_map(|r| match r {
            DiffRow::Same(l) | DiffRow::Add(l) => Some(*l),
            DiffRow::Del(_) => None,
        })
        .collect();
    assert_eq!(olds, vec!["one", "two", "three", "four"]);
    assert_eq!(news, vec!["zero", "one", "three", "five", "four"]);
    let kept = rows.iter().filter(|r| matches!(r, DiffRow::Same(_))).count();
    assert_eq!(kept, 3);
}

#[test]
fn diff_handles_crlf_and_trailing_newline() {
    assert_eq!(
        diff_lines("a\r\nb\n", "a\nb"),
        vec![DiffRow::Same("a"), DiffRow::Same("b")]
    );
}

#[test]
fn diff_view_rows_are_the_line_diff() {
    let view = DiffView::new("a\nb", "a\nc");
    assert_eq!(
        view.rows(),
        vec![DiffRow::Same("a"), DiffRow::Del("b"), DiffRow::Add("c")]
    );
}

#[test]
fn code_annotation_keeps_its_fields() {
    let a = CodeAnnotation::new(2, Severity::Warning, "unused variable");
    assert_eq!(a.line, 2);
    assert_eq!(a.severity, Severity::Warning);
    assert_eq!(a.message, "unused variable");
}

#[test]
fn code_view_finds_the_first_annotation_of_a_line() {
    let anns = [
        CodeAnnotation::new(2, Severity::Warning, "first"),
        CodeAnnotation::new(3, Severity::Danger, "other"),
        CodeAnnotation::new(2, Severity::Info, "second"),
    ];
    let view = CodeView::new("fn main() {\n    let x = 1;\n}", "rs")
        .line_numbers(false)
        .annotations(&anns);
    assert_eq!(view.annotation_at(2).map(|a| a.message.as_str()), Some("first"));
    assert_eq!(view.annotation_at(3).map(|a| a.message.as_str()), Some("other"));
    assert!(view.annotation_at(1).is_none());
    assert!(CodeView::new("x", "rs").annotation_at(1).is_none());
}

#[test]
fn gutter_holds_the_last_line_number() {
    assert_eq!(gutter_digits(0), 2);
    assert_eq!(gutter_digits(1), 2);
    assert_eq!(gutter_digits(9), 2);
    assert_eq!(gutter_digits(99), 2);
    assert_eq!(gutter_digits(100), 3);
    assert_eq!(gutter_digits(12345), 5);
}

#[test]
fn code_view_state_starts_unwrapped() {
    assert!(!CodeViewState::new().wrap);
}

#[test]
fn diff_rows_paint_marker_and_line() {
    assert_eq!(DiffRow::Same("a").label(), "  a");
    assert_eq!(DiffRow::Del("old").label(), "- old");
    assert_eq!(DiffRow::Add("new").label(), "+ new");
    assert_eq!(DiffRow::Add("").marker(), '+');
}
