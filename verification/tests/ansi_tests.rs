use rubix_render::ansi_escape_code::{cursor_invisible, cursor_visible, disable_alt_buffer,
    enable_alt_buffer, erase_current_line, erase_line_start_to_cursor, erase_screen,
    push_decimal, set_cursor_home, SetCursorPos};
use rubix_render::color::{push_color, Color};

#[test]
fn decimal_digits_render_most_significant_first() {
    let mut out: Vec<u8> = Vec::new();
    push_decimal(&mut out, 0);
    assert_eq!(out, b"0".to_vec());
    out.clear();
    push_decimal(&mut out, 7);
    assert_eq!(out, b"7".to_vec());
    out.clear();
    push_decimal(&mut out, 10);
    assert_eq!(out, b"10".to_vec());
    out.clear();
    push_decimal(&mut out, 65535);
    assert_eq!(out, b"65535".to_vec());
}

#[test]
fn cursor_position_sequence() {
    let mut out: Vec<u8> = Vec::new();
    SetCursorPos(3, 12).write_to(&mut out);
    assert_eq!(out, b"\x1B[3;12H".to_vec());
    out.clear();
    SetCursorPos(1, 1).write_to(&mut out);
    assert_eq!(out, b"\x1B[1;1H".to_vec());
}

#[test]
fn color_escape_sequences() {
    let mut out: Vec<u8> = Vec::new();
    push_color(&mut out, Color::Reset);
    assert_eq!(out, b"\x1B[0m".to_vec());
    out.clear();
    push_color(&mut out, Color::Yellow);
    assert_eq!(out, b"\x1B[33m".to_vec());
    out.clear();
    push_color(&mut out, Color::BoldRed);
    assert_eq!(out, b"\x1B[91m".to_vec());
    out.clear();
    push_color(&mut out, Color::Black);
    assert_eq!(out, b"\x1B[30m".to_vec());
}

#[test]
fn sgr_codes_cover_the_palette() {
    assert_eq!(Color::Reset.sgr(), 0);
    assert_eq!(Color::Black.sgr(), 30);
    assert_eq!(Color::Red.sgr(), 31);
    assert_eq!(Color::Green.sgr(), 32);
    assert_eq!(Color::Yellow.sgr(), 33);
    assert_eq!(Color::Blue.sgr(), 34);
    assert_eq!(Color::Magenta.sgr(), 35);
    assert_eq!(Color::Cyan.sgr(), 36);
    assert_eq!(Color::White.sgr(), 37);
    assert_eq!(Color::BoldBlack.sgr(), 90);
    assert_eq!(Color::BoldWhite.sgr(), 97);
}

#[test]
fn screen_control_sequences() {
    assert_eq!(set_cursor_home(), b"\x1B[H".to_vec());
    assert_eq!(cursor_visible(), b"\x1B[?25h".to_vec());
    assert_eq!(cursor_invisible(), b"\x1B[?25l".to_vec());
    assert_eq!(erase_screen(), b"\x1B[2J".to_vec());
    assert_eq!(erase_current_line(), b"\x1B[2K".to_vec());
    assert_eq!(erase_line_start_to_cursor(), b"\x1B[1K".to_vec());
    assert_eq!(enable_alt_buffer(), b"\x1B[?1049h".to_vec());
    assert_eq!(disable_alt_buffer(), b"\x1B[?1049l".to_vec());
}
