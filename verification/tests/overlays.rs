use forge_egui::overlays::{ModalWidth, Side};

#[test]
fn modal_widths_and_defaults() {
    assert_eq!(ModalWidth::default(), ModalWidth::Md);
    assert_eq!(ModalWidth::Md.points(), 480);
    assert_eq!(ModalWidth::Lg.points(), 720);
    assert_eq!(ModalWidth::Xl.points(), 960);
    assert_eq!(Side::default(), Side::Right);
}
