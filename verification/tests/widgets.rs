use osui::runtime::{Event, Key};
use osui::ui::Color;
use osui::widget::{
    button, div, menu, tab, text, render_to_frame, Children, Component, EventResponse,
};

fn labelled(mut w: Component, label: &str) -> Component {
    w.children = Children::Text(label.to_string());
    w
}

#[test]
fn text_renders_its_content_unstyled() {
    let t = labelled(text(), "hello");
    assert_eq!(t.render(0), "hello");
    assert_eq!(t.render(1), "hello");
}

#[test]
fn children_accessors() {
    let mut c = Children::Text("abc".to_string());
    assert!(!c.is_none());
    assert_eq!(c.get_text(), "abc");
    c.set_text("xyz");
    assert_eq!(c.get_text(), "xyz");
    let mut n = Children::Empty;
    assert!(n.is_none());
    assert_eq!(n.get_text(), "");
    n.set_text("ignored");
    assert!(n.is_none());
    n.set_text_force("now text");
    assert_eq!(n.get_text(), "now text");
}

#[test]
fn button_renders_clicked_layer_on_flash_state() {
    let mut b = labelled(button(), "Click");
    b.style.clicked_bg = Color::White;
    b.style.clicked_fg = Color::Black;
    assert_eq!(b.render(0), "Click\x1b[0m");
    assert_eq!(b.render(2), "\x1b[30m\x1b[47mClick\x1b[0m");
    b.clicked = true;
    assert_eq!(b.render(0), "\x1b[30m\x1b[47mClick\x1b[0m");
}

#[test]
fn div_renders_children_into_its_frame() {
    let mut d = div();
    d.width = 4;
    d.height = 2;
    let mut child = labelled(text(), "ab");
    child.x = 1;
    child.y = 0;
    d.children = Children::Children(vec![child], 0);
    assert_eq!(d.render(0), " ab \n    ");
}

#[test]
fn div_clips_rows_past_its_height() {
    let mut d = div();
    d.width = 2;
    d.height = 2;
    let child = labelled(text(), "l1\nl2\nl3");
    d.children = Children::Children(vec![child], 0);
    assert_eq!(d.render(0), "l1\nl2");
}

#[test]
fn render_to_frame_drops_only_out_of_range_rows() {
    let mut frame = vec!["....".to_string(), "....".to_string()];
    let mut w = labelled(text(), "ab\ncd\nef");
    w.x = 1;
    w.y = 1;
    render_to_frame(0, &mut frame, &w);
    assert_eq!(frame, vec!["....".to_string(), ".ab.".to_string()]);
}

#[test]
fn tab_renders_indicator_and_focused_child() {
    let mut t = tab();
    t.width = 4;
    t.height = 2;
    let child = labelled(text(), "ab");
    t.children = Children::Children(vec![child], 0);
    assert_eq!(t.render(0), " \x1b[31m*\x1b[0m\nab  ");
}

#[test]
fn menu_renders_selection_with_cursor() {
    let mut m = menu();
    let items = vec![labelled(text(), "a"), labelled(text(), "b")];
    m.children = Children::Children(items, 0);
    assert_eq!(
        m.render(0),
        "\x1b[35m> \x1b[0m\x1b[30m\x1b[45ma\x1b[0m\n\x1b[0m  b"
    );
}

#[test]
fn menu_cycles_selection_and_fires_on_enter() {
    let mut m = menu();
    m.children = Children::Children(vec![labelled(text(), "a"), labelled(text(), "b")], 0);
    let (m, out) = m.event(&Event::Key(Key::Down));
    assert!(!out.fired);
    assert!(matches!(m.children, Children::Children(_, 1)));
    let (m, _) = m.event(&Event::Key(Key::Down));
    assert!(matches!(m.children, Children::Children(_, 0)));
    let (m, _) = m.event(&Event::Key(Key::Up));
    assert!(matches!(m.children, Children::Children(_, 1)));
    let (m, out) = m.event(&Event::Key(Key::Enter));
    assert!(out.fired);
    assert!(matches!(m.children, Children::Children(_, 1)));
}

#[test]
fn tab_cycles_focus_forward_and_back() {
    let mut t = tab();
    t.children = Children::Children(
        vec![labelled(text(), "a"), labelled(text(), "b"), labelled(text(), "c")],
        0,
    );
    let (t, _) = t.event(&Event::Key(Key::Tab));
    assert!(matches!(t.children, Children::Children(_, 1)));
    let (t, _) = t.event(&Event::Key(Key::Tab));
    assert!(matches!(t.children, Children::Children(_, 2)));
    let (t, _) = t.event(&Event::Key(Key::Tab));
    assert!(matches!(t.children, Children::Children(_, 0)));
    let (t, _) = t.event(&Event::Key(Key::ShiftTab));
    assert!(matches!(t.children, Children::Children(_, 2)));
}

#[test]
fn div_refocuses_on_arrow_keys() {
    let mut d = div();
    let mut a = labelled(button(), "a");
    a.x = 0;
    a.y = 0;
    let mut b = labelled(button(), "b");
    b.x = 0;
    b.y = 1;
    d.children = Children::Children(vec![a, b], 0);
    let (d, out) = d.event(&Event::Key(Key::Down));
    assert!(!out.fired);
    assert!(matches!(out.response, EventResponse::Nothing));
    assert!(matches!(d.children, Children::Children(_, 1)));
    let (d, _) = d.event(&Event::Key(Key::Up));
    assert!(matches!(d.children, Children::Children(_, 0)));
}

#[test]
fn div_forwards_unbound_keys_to_the_focused_child() {
    let mut d = div();
    let mut b = labelled(button(), "b");
    b.toggle = true;
    d.children = Children::Children(vec![b], 0);
    let (d, out) = d.event(&Event::Key(Key::Enter));
    assert!(out.fired);
    match &d.children {
        Children::Children(v, 0) => assert!(v[0].clicked),
        _ => panic!("children changed shape"),
    }
}

#[test]
fn get_element_by_id_searches_depth_first() {
    let mut inner = labelled(button(), "x");
    inner.id = "target".to_string();
    let mut d = div();
    let mut inner_div = div();
    inner_div.children = Children::Children(vec![inner], 0);
    d.children = Children::Children(vec![labelled(text(), "a"), inner_div], 0);
    let found = d.get_element_by_id("target").expect("should find the button");
    assert_eq!(found.id, "target");
    assert!(d.get_element_by_id("missing").is_none());
}

#[test]
fn apply_response_replaces_a_child_by_identifier() {
    let mut old_child = labelled(text(), "old");
    old_child.id = "slot".to_string();
    let mut d = div();
    d.children = Children::Children(vec![old_child], 0);
    let mut fresh = labelled(text(), "new");
    fresh.id = "slot".to_string();
    let d = d.apply_response(EventResponse::ReplaceById("slot".to_string(), Box::new(fresh)));
    match &d.children {
        Children::Children(v, _) => assert_eq!(v[0].children.get_text(), "new"),
        _ => panic!("children changed shape"),
    }
}

#[test]
fn apply_response_replace_self_swaps_the_whole_widget() {
    let d = div();
    let r = d.apply_response(EventResponse::ReplaceSelf(Box::new(labelled(text(), "n"))));
    assert_eq!(r.children.get_text(), "n");
}
