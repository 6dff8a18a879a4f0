use akgine::gui::types::{Align, Color, Direction, PanelPosition};

#[test]
fn rgb_is_opaque() {
    assert_eq!(Color::rgb(1, 2, 3), Color { r: 1, g: 2, b: 3, a: 255 });
}

#[test]
fn rgba_keeps_alpha() {
    assert_eq!(Color::rgba(10, 20, 30, 40), Color { r: 10, g: 20, b: 30, a: 40 });
    assert_ne!(Color::rgba(10, 20, 30, 40), Color::rgb(10, 20, 30));
}

#[test]
fn enums_compare() {
    assert_eq!(Direction::TopDown, Direction::TopDown);
    assert_ne!(Align::Min, Align::Max);
    assert_ne!(PanelPosition::Top, PanelPosition::Central);
}
