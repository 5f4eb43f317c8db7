use forge_egui::primitives::{
    avatar_hue, menu_keys, Avatar, AvatarSize, Eyebrow, Glyph, IconButton, MenuInk, MenuItem, Stat, Trend, Variant,
};
use forge_egui::primitives::Card;
use forge_egui::tone::Tone;

#[test]
fn glyphs_are_single_code_points() {
    assert_eq!(Glyph::Check.as_str(), "\u{2713}");
    assert_eq!(Glyph::Gear.as_str(), "\u{2699}");
    for g in [Glyph::Check, Glyph::Cross, Glyph::Warn, Glyph::Info, Glyph::Gear, Glyph::Bolt] {
        assert_eq!(g.as_str().chars().count(), 1);
    }
}

#[test]
fn initials_take_first_and_last_words() {
    assert_eq!(Avatar::initials("ada lovelace"), "AL");
    assert_eq!(Avatar::initials("  grace  brewster murray hopper "), "GH");
    assert_eq!(Avatar::initials("linus"), "L");
    assert_eq!(Avatar::initials("   "), "?");
    assert_eq!(Avatar::initials(""), "?");
    assert_eq!(Avatar::initials("ß x"), "SSX");
}

#[test]
fn avatar_hue_is_the_name_hash() {
    assert_eq!(avatar_hue(""), 61);
    assert_eq!(avatar_hue("Ada Lovelace"), 6);
    assert_eq!(avatar_hue("a"), 340);
    assert_eq!(avatar_hue("Ada Lovelace"), avatar_hue("Ada Lovelace"));
}

#[test]
fn avatar_sizes_and_builders() {
    assert_eq!(AvatarSize::Sm.px(), 24);
    assert_eq!(AvatarSize::Md.px(), 32);
    assert_eq!(AvatarSize::Lg.px(), 40);
    let _ = Avatar::new("Ada").size(AvatarSize::Lg).status(Tone::Success);
}

#[test]
fn disabled_icon_buttons_do_not_submit() {
    let b = IconButton::new(Glyph::Gear, "Settings").variant(Variant::Primary);
    assert!(b.submits(true));
    assert!(!b.submits(false));
    let b = IconButton::new(Glyph::Gear, "Settings").disabled(true).small(true);
    assert!(!b.submits(true));
}

#[test]
fn stat_delta_line_has_trend_arrow() {
    let s = Stat::new("Deploys", "42").delta("+3", Trend::Up, Tone::Success);
    assert_eq!(s.delta_text().as_deref(), Some("\u{2191} +3"));
    assert_eq!(Stat::new("x", "y").delta_text(), None);
    let s = Stat::new("x", "y").delta("0", Trend::Flat, Tone::Neutral);
    assert_eq!(s.delta_text().as_deref(), Some("\u{2192} 0"));
}

#[test]
fn menu_keys_skip_disabled_rows() {
    let items = [
        MenuItem::new("Copy"),
        MenuItem::new("Duplicate").disabled(true),
        MenuItem::new("Delete").danger(true),
    ];
    // Down from Copy skips the disabled row.
    assert_eq!(menu_keys(&items, 0, false, true, false), (2, None));
    // Down at the last enabled row stays; Enter picks it.
    assert_eq!(menu_keys(&items, 2, false, true, true), (2, Some(2)));
    // Up from Delete goes back to Copy; Up at the top stays.
    assert_eq!(menu_keys(&items, 2, true, false, false), (0, None));
    assert_eq!(menu_keys(&items, 0, true, false, true), (0, Some(0)));
    // A highlight off the enabled rows starts from the first.
    assert_eq!(menu_keys(&items, 1, false, false, true), (0, Some(0)));
    // No enabled rows: nothing moves, nothing is picked.
    let none = [MenuItem::new("x").disabled(true)];
    assert_eq!(menu_keys(&none, 0, false, true, true), (0, None));
}

#[test]
fn menu_item_builders_set_flags() {
    let m = MenuItem::new("Delete").icon(Glyph::Cross).danger(true).separator_before(true);
    assert_eq!(m.label, "Delete");
    assert_eq!(m.icon, Some(Glyph::Cross));
    assert!(m.danger && m.separator_before && !m.disabled);
}

#[test]
fn menu_rows_pick_their_ink() {
    let plain = MenuItem::new("Copy");
    let danger = MenuItem::new("Delete").danger(true);
    let off = MenuItem::new("Paste").disabled(true).danger(true);
    assert_eq!(plain.ink(false, false), MenuInk::Normal);
    assert_eq!(plain.ink(true, false), MenuInk::Strong);
    assert_eq!(plain.ink(false, true), MenuInk::Strong);
    assert_eq!(danger.ink(true, true), MenuInk::Danger);
    assert_eq!(off.ink(true, true), MenuInk::Disabled);
    assert!(plain.filled(false, true));
    assert!(!off.filled(true, true));
    // A click on "Duplicate", the second row, picks it.
    assert_eq!(MenuItem::new("Duplicate").click(1), Some(1));
    assert_eq!(off.click(2), None);
}

#[test]
fn eyebrow_caption_is_tracked_upper_case() {
    assert_eq!(Eyebrow::new("ops").caption(), "O\u{200a}P\u{200a}S");
    assert_eq!(Eyebrow::new("").caption(), "");
    assert_eq!(Eyebrow::new("straße").caption(), "S\u{200a}T\u{200a}R\u{200a}A\u{200a}S\u{200a}S\u{200a}E");
}

#[test]
fn card_default_is_new() {
    let _ = Card::default().title("x").padded(false);
}
