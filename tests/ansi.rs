use fuzzy_select::ui::ansi::control_sequence::print;
use fuzzy_select::ui::ansi::cursor::{move_down, move_down_n, restore_position, save_position};
use fuzzy_select::ui::ansi::erase_line;
use fuzzy_select::ui::ansi::style::{Color, Style};

#[test]
fn control_sequences() {
    assert_eq!(print(&[], 's'), "\x1b[s");
    assert_eq!(print(&[7], 'E'), "\x1b[7E");
    assert_eq!(print(&[38, 5, 250], 'm'), "\x1b[38;5;250m");
    assert_eq!(print(&[0, 10, 1234567], 'H'), "\x1b[0;10;1234567H");
}

#[test]
fn cursor_sequences() {
    assert_eq!(move_down(), "\x1b[1E");
    assert_eq!(move_down_n(12), "\x1b[12E");
    assert_eq!(save_position(), "\x1b[s");
    assert_eq!(restore_position(), "\x1b[u");
    assert_eq!(erase_line(), "\x1b[1G\x1b[2K");
}

#[test]
fn color_sequences() {
    assert_eq!(Color::Standard(3).set_foreground(), "\x1b[38;5;3m");
    assert_eq!(Color::Bold(3).set_foreground(), "\x1b[38;5;11m");
    assert_eq!(Color::Cube(1, 2, 3).set_foreground(), "\x1b[38;5;67m");
    assert_eq!(Color::Cube(5, 5, 5).set_background(), "\x1b[48;5;231m");
    assert_eq!(Color::Grayscale(5).set_background(), "\x1b[48;5;237m");
    assert_eq!(Color::True(1, 2, 3).set_foreground(), "\x1b[38;2;1;2;3m");
    assert_eq!(Color::Standard(1).print(48), "\x1b[48;5;1m");
}

#[test]
fn style_sequences() {
    assert_eq!(Style::Bold.apply(), "\x1b[1m");
    assert_eq!(Style::Underlined.apply(), "\x1b[4m");
    assert_eq!(Style::Background(Color::Standard(1)).apply(), "\x1b[48;5;1m");
    assert_eq!(Style::Foreground(Color::Grayscale(23)).apply(), "\x1b[38;5;255m");
    let nested = Style::Compound(vec![
        Style::Bold,
        Style::Compound(vec![Style::Underlined, Style::Foreground(Color::Standard(2))]),
    ]);
    assert_eq!(nested.apply(), "\x1b[1m\x1b[4m\x1b[38;5;2m");
    assert_eq!(Style::Compound(vec![]).apply(), "");
    assert_eq!(Style::reset_all(), "\x1b[0m");
}
