use ansi_term::{Colour, Style};
use rsbl::{Buffer, Cell, Color};

#[test]
fn new_buffer_renders_blank_lines() {
    let buffer = Buffer::new(3, 2);
    assert_eq!(buffer.to_string(), "   \n   \n");
    let buffer = Buffer::new(1, 1);
    assert_eq!(buffer.to_string(), " \n");
}

#[test]
fn set_changes_only_its_cell() {
    let mut buffer = Buffer::new(3, 2);
    let mut cell = Cell::new();
    cell.render(String::from("x"));
    buffer.set(2, 1, cell);
    assert_eq!(buffer.to_string(), "   \n  x\n");
}

#[test]
fn colored_cell_is_wrapped_in_codes() {
    let mut cell = Cell::new();
    cell.render(String::from("7"));
    assert_eq!(cell.to_string(), "7");
    cell.bg(Color::Blue);
    cell.fg(Color::RGB(1, 2, 3));
    let expected = Style::new().on(Colour::Blue).fg(Colour::RGB(1, 2, 3)).paint("7").to_string();
    assert_eq!(cell.to_string(), expected);
    assert_ne!(cell.to_string(), "7");
}

#[test]
fn print_places_lines_on_successive_rows() {
    let mut buffer = Buffer::new(4, 3);
    buffer.print(&String::from("ab\ncd"), 1, 0, None, None);
    assert_eq!(buffer.to_string(), " ab \n cd \n    \n");
}

#[test]
fn print_drops_what_falls_outside() {
    let mut buffer = Buffer::new(3, 2);
    buffer.print(&String::from("abcd\nef\ngh"), 1, 0, None, None);
    assert_eq!(buffer.to_string(), " ab\n ef\n");
    let mut buffer = Buffer::new(2, 1);
    buffer.print(&String::from("z"), 5, 5, None, None);
    assert_eq!(buffer.to_string(), "  \n");
}

#[test]
fn print_of_empty_text_changes_nothing() {
    let mut buffer = Buffer::new(2, 2);
    buffer.print(&String::new(), 0, 0, Some(Color::Red), None);
    assert_eq!(buffer.to_string(), "  \n  \n");
}

#[test]
fn print_handles_wide_characters_and_colors() {
    let mut buffer = Buffer::new(3, 1);
    buffer.print(&String::from("\u{2691}é"), 0, 0, None, Some(Color::Green));
    let flag = Style::new().on(Colour::Green).paint("\u{2691}").to_string();
    let e = Style::new().on(Colour::Green).paint("é").to_string();
    assert_eq!(buffer.to_string(), format!("{}{} \n", flag, e));
}

#[test]
fn print_treats_carriage_return_line_feed_as_one_break() {
    let mut buffer = Buffer::new(3, 2);
    buffer.print(&String::from("a\r\nb"), 0, 0, None, None);
    assert_eq!(buffer.to_string(), "a  \nb  \n");
}

#[test]
fn print_keeps_combining_marks_with_their_base() {
    let mut buffer = Buffer::new(3, 1);
    buffer.print(&String::from("e\u{301}x"), 0, 0, None, None);
    assert_eq!(buffer.to_string(), "e\u{301}x \n");
}

#[test]
fn try_render_accepts_a_single_grapheme_only() {
    let mut cell = Cell::new();
    assert!(cell.try_render(String::from("e\u{301}")));
    assert_eq!(cell.to_string(), "e\u{301}");
    assert!(!cell.try_render(String::from("ab")));
    assert!(!cell.try_render(String::new()));
    assert_eq!(cell.to_string(), "e\u{301}");
}
