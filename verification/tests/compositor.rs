use osui::ansi::compress_string;
use osui::utils::{create_frame, merge_line, split_lines};

/// Rebuilds a line from its compressed form, as the recorded escapes and
/// visible characters dictate.
fn rebuild(plain: &[char], escapes: &[Vec<char>]) -> String {
    let mut out = String::new();
    for (i, c) in plain.iter().enumerate() {
        out.extend(escapes[i].iter());
        out.push(*c);
    }
    out.extend(escapes[plain.len()].iter());
    out
}

#[test]
fn compress_plain_text() {
    let c = compress_string("abc");
    let plain: String = c.plain.iter().collect();
    assert_eq!(plain, "abc");
    for e in &c.escapes {
        assert!(e.is_empty());
    }
}

#[test]
fn compress_records_escapes_at_visible_positions() {
    let c = compress_string("\x1b[31mAB\x1b[0m");
    let plain: String = c.plain.iter().collect();
    assert_eq!(plain, "AB");
    assert_eq!(c.escapes.len(), 3);
    let e0: String = c.escapes[0].iter().collect();
    let e2: String = c.escapes[2].iter().collect();
    assert_eq!(e0, "\x1b[31m");
    assert!(c.escapes[1].is_empty());
    assert_eq!(e2, "\x1b[0m");
}

#[test]
fn compress_round_trip_reproduces_input() {
    for input in [
        "",
        "plain",
        "\x1b[31mred\x1b[0m",
        "a\x1b[1;4mb\x1b[0m\x1b[32mc",
        "\x1b[38;2;1;22;255mrgb",
        "trailing\x1b[0m",
    ] {
        let c = compress_string(input);
        assert_eq!(rebuild(&c.plain, &c.escapes), input);
    }
}

#[test]
fn compress_leaves_incomplete_escape_visible() {
    let c = compress_string("\x1b[31");
    let plain: String = c.plain.iter().collect();
    assert_eq!(plain, "\x1b[31");
    assert_eq!(rebuild(&c.plain, &c.escapes), "\x1b[31");
}

#[test]
fn merge_overlay_replaces_covered_cells() {
    assert_eq!(merge_line("abcdef", "XY", 2), "abXYef");
}

#[test]
fn merge_transparent_overlay_is_noop() {
    assert_eq!(merge_line("abcdef", "\t\t\t", 1), "abcdef");
    assert_eq!(merge_line("abcdef", "\t\t\t", 0), "abcdef");
}

#[test]
fn merge_outside_frame_is_noop() {
    assert_eq!(merge_line("abc", "XY", 7), "abc");
    assert_eq!(merge_line("abc", "XY", 3), "abc");
}

#[test]
fn merge_transparent_cells_show_frame_through() {
    assert_eq!(merge_line("abcd", "X\tY", 0), "XbYd");
}

#[test]
fn merge_keeps_frame_escapes_outside_overlay() {
    assert_eq!(merge_line("a\x1b[31mb", "X\t", 0), "X\x1b[31mb");
}

#[test]
fn merge_keeps_overlay_trailing_escape() {
    assert_eq!(merge_line("abcd", "XY\x1b[0m", 0), "XY\x1b[0mcd");
}

#[test]
fn merge_overlay_escape_replayed_before_cell() {
    assert_eq!(merge_line("abcd", "\x1b[31mX", 1), "a\x1b[31mXcd");
}

#[test]
fn create_frame_is_blank_rows() {
    assert_eq!(create_frame(3, 2), vec!["   ".to_string(), "   ".to_string()]);
    assert_eq!(create_frame(0, 0), Vec::<String>::new());
}

#[test]
fn split_lines_on_line_breaks() {
    assert_eq!(split_lines("a\nbc\n"), vec!["a", "bc", ""]);
    assert_eq!(split_lines("one"), vec!["one"]);
    assert_eq!(split_lines(""), vec![""]);
}
