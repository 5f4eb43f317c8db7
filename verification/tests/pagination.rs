use forge_egui::structure::{PageAction, Pagination};

#[test]
fn short_ranges_have_no_ellipsis() {
    let w = Pagination::window(2, 7);
    assert_eq!(w.len(), 7);
    assert!(w.iter().all(Option::is_some));
}

#[test]
fn long_ranges_window_around_current() {
    let w = Pagination::window(5, 20);
    assert_eq!(w.first(), Some(&Some(0)));
    assert_eq!(w.last(), Some(&Some(19)));
    assert_eq!(w.iter().filter(|e| e.is_none()).count(), 2);
    assert!(w.contains(&Some(5)));
    assert!(w.contains(&Some(4)));
    assert!(w.contains(&Some(6)));
}

#[test]
fn edges_only_get_one_ellipsis() {
    let w = Pagination::window(0, 20);
    assert_eq!(w.iter().filter(|e| e.is_none()).count(), 1);
    let w = Pagination::window(19, 20);
    assert_eq!(w.iter().filter(|e| e.is_none()).count(), 1);
}

#[test]
fn window_exact_shapes() {
    assert_eq!(
        Pagination::window(5, 20),
        vec![Some(0), None, Some(4), Some(5), Some(6), None, Some(19)]
    );
    assert_eq!(
        Pagination::window(0, 20),
        vec![Some(0), Some(1), None, Some(19)]
    );
    assert!(Pagination::window(0, 0).is_empty());
}

#[test]
fn page_buttons_move_within_range() {
    assert_eq!(Pagination::target(0, 5, PageAction::Prev), 0);
    assert_eq!(Pagination::target(4, 5, PageAction::Next), 4);
    assert_eq!(Pagination::target(2, 5, PageAction::Next), 3);
    assert_eq!(Pagination::target(2, 5, PageAction::Goto(4)), 4);
    let mut page = 2usize;
    let mut p = Pagination::new(&mut page, 5);
    assert!(p.apply(PageAction::Prev));
    assert!(!p.apply(PageAction::Goto(1)));
    drop(p);
    assert_eq!(page, 1);
    let mut first = 0usize;
    assert!(!Pagination::new(&mut first, 5).apply(PageAction::Prev));
    assert_eq!(first, 0);
    let mut last = 4usize;
    let mut p = Pagination::new(&mut last, 5);
    assert!(!p.apply(PageAction::Next));
    assert_eq!(p.page(), 4);
}

#[test]
fn short_windows_take_any_page() {
    assert_eq!(Pagination::window(usize::MAX, 3), vec![Some(0), Some(1), Some(2)]);
}
