use forge_egui::blocks::{code_body_keys, opens_slash, table_step, TableStep, block_menu, BlockPlace, MenuAction, TextKind, byte_of_char, char_of_byte, emoji_prefix, list_ordinal, splice_shortcode, ListEntry};

#[test]
fn byte_offsets_of_chars() {
    let s = "aé😀b";
    assert_eq!(byte_of_char(s, 0), 0);
    assert_eq!(byte_of_char(s, 1), 1);
    assert_eq!(byte_of_char(s, 2), 3);
    assert_eq!(byte_of_char(s, 3), 7);
    assert_eq!(byte_of_char(s, 4), 8);
    assert_eq!(byte_of_char(s, 99), 8);
}

#[test]
fn char_indices_of_bytes() {
    let s = "aé😀b";
    assert_eq!(char_of_byte(s, 0), 0);
    assert_eq!(char_of_byte(s, 1), 1);
    assert_eq!(char_of_byte(s, 2), 1);
    assert_eq!(char_of_byte(s, 3), 2);
    assert_eq!(char_of_byte(s, 6), 2);
    assert_eq!(char_of_byte(s, 7), 3);
    assert_eq!(char_of_byte(s, 100), 4);
}

#[test]
fn offsets_round_trip() {
    let s = "héllo wörld ✓";
    for k in 0..=s.chars().count() + 2 {
        let b = byte_of_char(s, k);
        assert_eq!(char_of_byte(s, b), k.min(s.chars().count()));
    }
}

#[test]
fn shortcode_prefix_before_the_caret() {
    assert_eq!(emoji_prefix("hi :sm", 6), Some((3, "sm".to_string())));
    assert_eq!(emoji_prefix("hi :s", 5), None);
    assert_eq!(emoji_prefix("hi sm", 5), None);
    assert_eq!(emoji_prefix(":+1", 99), Some((0, "+1".to_string())));
    assert_eq!(emoji_prefix("a:bc d", 4), Some((1, "bc".to_string())));
    assert_eq!(emoji_prefix(":Ab", 3), None);
}

#[test]
fn completing_a_shortcode_splices_the_draft() {
    assert_eq!(
        splice_shortcode("hi :sm there", 3, 6, "smile"),
        Some(("hi :smile: there".to_string(), 10))
    );
    assert_eq!(splice_shortcode("é:th", 1, 99, "thumbsup"), Some(("é:thumbsup:".to_string(), 11)));
    assert_eq!(splice_shortcode("abc", 2, 1, "x"), None);
}

#[test]
fn numbered_items_count_their_run() {
    let num = |indent| ListEntry { item: true, numbered: true, indent };
    let bullet = |indent| ListEntry { item: true, numbered: false, indent };
    let para = ListEntry { item: false, numbered: false, indent: 0 };
    let list = [num(0), num(0), bullet(1), num(0), para, num(0), bullet(0), num(0)];
    assert_eq!(list_ordinal(&list, 0), 1);
    assert_eq!(list_ordinal(&list, 1), 2);
    assert_eq!(list_ordinal(&list, 3), 3);
    assert_eq!(list_ordinal(&list, 5), 1);
    assert_eq!(list_ordinal(&list, 7), 1);
    assert_eq!(list_ordinal(&list, 4), 1);
    assert_eq!(list_ordinal(&list, 99), 1);
    assert_eq!(list_ordinal(&list, 2), 1);
}

#[test]
fn bytes_round_trip_to_the_last_boundary() {
    let s = "aé😀b";
    let boundaries = [0usize, 1, 3, 7, 8];
    for b in 0..12usize {
        let want = *boundaries.iter().filter(|&&c| c <= b.min(s.len())).max().unwrap();
        assert_eq!(byte_of_char(s, char_of_byte(s, b)), want);
        assert!(s.is_char_boundary(want));
    }
}

#[test]
fn block_menu_rows_and_actions() {
    let (items, actions) = block_menu(0, 3, true, BlockPlace::Root { is_columns: false });
    assert_eq!(items.len(), actions.len());
    assert_eq!(items.len(), 4 + 9 + 2);
    assert_eq!(items[0].label, "Move up");
    assert!(items[0].disabled);
    assert!(!items[1].disabled);
    assert!(items[3].danger);
    assert_eq!(actions[3], MenuAction::Remove);
    assert_eq!(items[4].label, "Text");
    assert!(items[4].separator_before);
    assert_eq!(actions[5], MenuAction::TurnInto(TextKind::Heading(1)));
    assert_eq!(actions[14], MenuAction::WrapColumns(3));
    let (items, actions) = block_menu(2, 3, false, BlockPlace::Cell { ncols: 4 });
    assert_eq!(items.len(), 6);
    assert!(items[1].disabled, "the last sibling cannot move down");
    assert_eq!(items[4].label, "Add column");
    assert!(items[4].disabled);
    assert_eq!(actions[5], MenuAction::RemoveColumn);
    let (items, _) = block_menu(1, 3, false, BlockPlace::Root { is_columns: true });
    assert_eq!(items.len(), 4);
}

#[test]
fn table_keys_walk_the_cells() {
    // 3 columns, 2 body rows (rows 0..=2 with the header).
    assert_eq!(table_step(0, 2, 3, 2, true, false, false, false), TableStep::Goto(1, 0));
    assert_eq!(table_step(2, 2, 3, 2, true, false, false, false), TableStep::Stay);
    assert_eq!(table_step(1, 0, 3, 2, false, true, false, false), TableStep::Goto(0, 2));
    assert_eq!(table_step(0, 0, 3, 2, false, true, false, false), TableStep::Goto(0, 0));
    assert_eq!(table_step(1, 1, 3, 2, false, false, true, false), TableStep::Goto(2, 1));
    assert_eq!(table_step(2, 1, 3, 2, false, false, true, false), TableStep::AppendRow(1));
    assert_eq!(table_step(2, 1, 3, 2, false, false, false, true), TableStep::Exit);
    assert_eq!(table_step(2, 1, 3, 2, false, false, false, false), TableStep::Stay);
    // Tab wins over the other keys of the same frame.
    assert_eq!(table_step(0, 0, 3, 2, true, true, true, true), TableStep::Goto(0, 1));
}

#[test]
fn code_body_keys_exit_and_move() {
    assert_eq!(code_body_keys(true, false, false), (true, vec![]));
    assert_eq!(code_body_keys(false, true, true), (false, vec![MenuAction::MoveUp, MenuAction::MoveDown]));
    assert_eq!(code_body_keys(false, false, true), (false, vec![MenuAction::MoveDown]));
}

#[test]
fn a_slash_in_an_empty_paragraph_opens_the_palette() {
    assert!(opens_slash(false, true, true, "/"));
    assert!(opens_slash(false, true, true, "/head"));
    assert!(!opens_slash(true, true, true, "/"));
    assert!(!opens_slash(false, false, true, "/"));
    assert!(!opens_slash(false, true, false, "/"));
    assert!(!opens_slash(false, true, true, "x/"));
    assert!(!opens_slash(false, true, true, ""));
}
