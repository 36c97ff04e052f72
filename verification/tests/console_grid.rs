use storm_core::console;
use storm_core::console::Color;
use storm_core::console::ColorCode;
use storm_core::console::Writer;

fn code(fg: Color, bg: Color) -> ColorCode {
    ColorCode::new(fg, bg)
}

#[test]
fn color_codes_pack_background_high_foreground_low() {
    assert_eq!(code(Color::White, Color::Blue).value(), 0x1f);
    assert_eq!(code(Color::White, Color::DarkGray).value(), 0x8f);
    assert_eq!(code(Color::White, Color::Red).value(), 0x4f);
    assert_eq!(code(Color::Black, Color::Black).value(), 0x00);
    assert_eq!(code(Color::Yellow, Color::Green).value(), 0x2e);
}

#[test]
fn writing_a_byte_advances_the_cursor() {
    let mut w = Writer::new(80, 25, code(Color::White, Color::Blue));
    w.write_byte(b'A');
    assert_eq!(w.char_at(0, 0).ascii_character, b'A');
    assert_eq!(w.char_at(0, 0).color_code, code(Color::White, Color::Blue));
    assert_eq!(w.cursor_row(), 0);
    assert_eq!(w.cursor_column(), 1);
    assert_eq!(w.char_at(0, 1).ascii_character, b' ');
}

#[test]
fn newline_moves_to_the_next_row() {
    let mut w = Writer::new(80, 25, code(Color::White, Color::Blue));
    w.write_byte(b'A');
    w.write_byte(b'\n');
    assert_eq!(w.cursor_row(), 1);
    assert_eq!(w.cursor_column(), 0);
    w.write_byte(b'B');
    assert_eq!(w.char_at(1, 0).ascii_character, b'B');
}

#[test]
fn a_full_row_wraps_to_the_next_line() {
    let mut w = Writer::new(4, 3, code(Color::White, Color::Blue));
    for _ in 0..4 {
        w.write_byte(b'x');
    }
    assert_eq!(w.cursor_row(), 1);
    assert_eq!(w.cursor_column(), 0);
    for c in 0..4 {
        assert_eq!(w.char_at(0, c).ascii_character, b'x');
    }
}

#[test]
fn writing_past_the_bottom_scrolls_the_grid() {
    let mut w = Writer::new(4, 2, code(Color::White, Color::Blue));
    w.write_string(&b"AB\nCD\n".to_vec());
    // Two newlines from the bottom row: "AB" scrolled off, "CD" on top.
    assert_eq!(w.char_at(0, 0).ascii_character, b'C');
    assert_eq!(w.char_at(0, 1).ascii_character, b'D');
    for c in 0..4 {
        assert_eq!(w.char_at(1, c).ascii_character, b' ');
    }
    assert_eq!(w.cursor_row(), 1);
    assert_eq!(w.cursor_column(), 0);
}

#[test]
fn long_output_keeps_only_the_last_lines() {
    let mut w = Writer::new(8, 3, code(Color::White, Color::Blue));
    for i in 0..200u32 {
        let line = format!("L{}\n", i % 10);
        w.write_string(&line.into_bytes());
    }
    // The last full line written was "L9"; it sits one above the cursor row.
    assert_eq!(w.char_at(1, 0).ascii_character, b'L');
    assert_eq!(w.char_at(1, 1).ascii_character, b'9');
    assert_eq!(w.cursor_row(), 2);
}

#[test]
fn clear_blanks_everything_in_the_current_color() {
    let mut w = Writer::new(4, 3, code(Color::White, Color::Blue));
    w.write_string(&b"hello".to_vec());
    w.set_color(code(Color::White, Color::Red));
    w.clear();
    for r in 0..3 {
        for c in 0..4 {
            assert_eq!(w.char_at(r, c).ascii_character, b' ');
            assert_eq!(w.char_at(r, c).color_code, code(Color::White, Color::Red));
        }
    }
}

#[test]
fn init_clears_to_white_on_dark_gray() {
    let mut w = Writer::new(80, 25, code(Color::White, Color::Blue));
    w.write_string(&b"storm G4 booting...".to_vec());
    console::init(&mut w);
    for c in 0..80 {
        let ch = w.char_at(0, c);
        assert_eq!(ch.ascii_character, b' ');
        assert_eq!(ch.color_code.value(), 0x8f);
    }
}
