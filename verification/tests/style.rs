use osui::ui::{Color, Font, Style};
use osui::widget::{div, text, Children};
use osui::Value;

#[test]
fn value_override_precedence() {
    let mut cell: Value<u32> = Value::Default(0);
    cell.try_set_value(7);
    assert_eq!(cell, Value::Custom(7));
    assert_eq!(cell.get_value(), 7);
    cell.try_set_value(9);
    assert_eq!(cell, Value::Custom(7));
    assert_eq!(cell.get_value(), 7);
}

#[test]
fn named_colors_have_fixed_sequences() {
    assert_eq!(Color::Red.ansi(), "\x1b[31m");
    assert_eq!(Color::Black.ansi(), "\x1b[30m");
    assert_eq!(Color::White.ansi_bg(), "\x1b[47m");
    assert_eq!(Color::Unset.ansi(), "");
    assert_eq!(Color::Unset.ansi_bg(), "");
}

#[test]
fn rgb_colors_print_their_components_in_decimal() {
    assert_eq!(Color::Rgb(255, 0, 16).ansi(), "\x1b[38;2;255;0;16m");
    assert_eq!(Color::Rgb(1, 22, 103).ansi_bg(), "\x1b[48;2;1;22;103m");
}

#[test]
fn fonts_and_composites() {
    assert_eq!(Font::Bold.ansi(), "\x1b[1m");
    assert_eq!(Font::Underline.ansi(), "\x1b[4m");
    assert_eq!(Font::Unset.ansi(), "");
    assert_eq!(
        Font::Mul(vec![Font::Bold, Font::Italic, Font::Strike]).ansi(),
        "\x1b[1m\x1b[3m\x1b[9m"
    );
}

#[test]
fn prioritize_prefers_the_explicit_layer() {
    assert_eq!(*Color::Red.prioritize(&Color::Blue), Color::Blue);
    assert_eq!(*Color::Red.prioritize(&Color::Unset), Color::Red);
    assert_eq!(*Font::Bold.prioritize(&Font::Unset), Font::Bold);
    assert_eq!(*Font::Bold.prioritize(&Font::Italic), Font::Italic);
}

#[test]
fn base_style_resolution() {
    let mut s = Style::default();
    assert_eq!(s.get(false), "");
    assert_eq!(s.write("hi", false), "hi\x1b[0m");
    s.fg = Color::Red;
    s.bg = Color::Blue;
    assert_eq!(s.get(false), "\x1b[31m\x1b[44m");
    assert_eq!(s.write("hi", false), "\x1b[31m\x1b[44mhi\x1b[0m");
}

#[test]
fn hover_layer_substitutes_only_explicit_fields() {
    let mut s = Style::default();
    s.fg = Color::Red;
    s.bg = Color::Blue;
    s.hover_fg = Color::Green;
    assert_eq!(s.get(true), "\x1b[32m\x1b[44m");
    assert_eq!(s.get(false), "\x1b[31m\x1b[44m");
}

#[test]
fn clicked_and_selected_layers() {
    let mut s = Style::default();
    s.fg = Color::Red;
    s.clicked_fg = Color::Black;
    s.clicked_bg = Color::White;
    s.selected_fg = Color::Cyan;
    assert_eq!(s.write_clicked("x"), "\x1b[30m\x1b[47mx\x1b[0m");
    assert_eq!(s.write_selected("x"), "\x1b[36mx\x1b[0m");
}

#[test]
fn merge_fills_only_unset_fields() {
    let mut own = Style::default();
    own.fg = Color::Red;
    let mut class = Style::default();
    class.fg = Color::Blue;
    class.bg = Color::Green;
    class.font = Font::Bold;
    let merged = own.merge(&class);
    assert_eq!(merged.fg, Color::Red);
    assert_eq!(merged.bg, Color::Green);
    assert_eq!(merged.font, Font::Bold);
    assert_eq!(merged.outline, Color::Unset);
}

#[test]
fn set_styling_applies_classes_through_the_tree() {
    let mut child = text();
    child.class = "label".to_string();
    let mut root = div();
    root.class = "frame".to_string();
    root.children = Children::Children(vec![child], 0);
    let mut label_style = Style::default();
    label_style.fg = Color::Cyan;
    let mut frame_style = Style::default();
    frame_style.bg = Color::Black;
    let table = vec![("label".to_string(), label_style), ("frame".to_string(), frame_style)];
    let root = root.set_styling(&table);
    assert_eq!(root.style.bg, Color::Black);
    match &root.children {
        Children::Children(v, _) => assert_eq!(v[0].style.fg, Color::Cyan),
        _ => panic!("children changed shape"),
    }
}

#[test]
fn font_duplicate_is_indistinguishable() {
    let f = Font::Mul(vec![Font::Bold, Font::Mul(vec![Font::Italic])]);
    let d = f.duplicate();
    assert_eq!(d.ansi(), f.ansi());
}

#[test]
fn cursor_and_outline_layers() {
    let mut s = Style::default();
    s.cursor_fg = Color::Magenta;
    s.outline = Color::Yellow;
    s.hover_outline = Color::Green;
    assert_eq!(s.write_cursor("> ", false), "\x1b[35m> \x1b[0m");
    assert_eq!(s.get_outline(false), "\x1b[33m");
    assert_eq!(s.get_outline(true), "\x1b[32m");
    assert_eq!(s.write_outline("#", true), "\x1b[32m#\x1b[0m");
}
