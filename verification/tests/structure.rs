use forge_egui::structure::{Crumbs, SettingsRow, SettingsSection, StatusBar, TabItem, Tabs};

#[test]
fn crumbs_current_is_the_last() {
    let items = ["Home", "Projects", "Forge"];
    assert_eq!(Crumbs::new(&items).current(), 2);
    let none: [&str; 0] = [];
    assert_eq!(Crumbs::new(&none).current(), 0);
    let crumbs = Crumbs::new(&items);
    assert_eq!(crumbs.click(0), Some(0));
    assert_eq!(crumbs.click(1), Some(1));
    assert_eq!(crumbs.click(2), None);
    assert_eq!(crumbs.click(9), None);
}

#[test]
fn tab_text_shows_the_count() {
    assert_eq!(TabItem::new("Inbox").count(12).text(), "Inbox  12");
    assert_eq!(TabItem::new("Inbox").count(0).text(), "Inbox  0");
    assert_eq!(TabItem::new("Sent").text(), "Sent");
}

#[test]
fn tab_clicks_skip_disabled_and_active_tabs() {
    let items = [
        TabItem::new("One"),
        TabItem::new("Two").disabled(true),
        TabItem::new("Three"),
    ];
    let mut active = 0usize;
    let mut tabs = Tabs::new(&mut active, &items);
    assert!(!tabs.click(0));
    assert!(!tabs.click(1));
    assert!(!tabs.click(7));
    assert!(tabs.click(2));
    drop(tabs);
    assert_eq!(active, 2);
}

#[test]
fn settings_and_status_bar_builders() {
    let _ = SettingsSection::new("General").sub("Basics");
    let _ = SettingsRow::new("Theme").help("Dark or light");
    let _ = StatusBar::new("ready").right("main");
}
