use snake_game::vga_buffer::{Color, ColorCode, Writer};

const WIDTH: usize = 80;
const HEIGHT: usize = 25;

fn bottom_row_string(w: &Writer) -> Vec<u8> {
    let mut row = Vec::new();
    for col in 0..WIDTH {
        row.push(w.char_at(HEIGHT - 1, col));
    }
    row
}

#[test]
fn color_code_packs_nibbles() {
    let code = ColorCode::new(Color::LightGray, Color::Black);
    assert_eq!(code.0, 0x07);
    let code = ColorCode::new(Color::White, Color::Blue);
    assert_eq!(code.0, 0x1f);
    let code = ColorCode::new(Color::Yellow, Color::Red);
    assert_eq!(code.0, 0x4e);
}

#[test]
fn color_as_u8_palette() {
    assert_eq!(Color::Black.as_u8(), 0);
    assert_eq!(Color::LightGray.as_u8(), 7);
    assert_eq!(Color::White.as_u8(), 15);
}

#[test]
fn new_writer_is_blank() {
    let w = Writer::new();
    assert_eq!(w.column(), 0);
    for row in 0..HEIGHT {
        for col in 0..WIDTH {
            assert_eq!(w.char_at(row, col), b' ');
        }
    }
}

#[test]
fn write_byte_places_at_cursor() {
    let mut w = Writer::new();
    w.write_byte(b'A');
    w.write_byte(b'B');
    assert_eq!(w.char_at(HEIGHT - 1, 0), b'A');
    assert_eq!(w.char_at(HEIGHT - 1, 1), b'B');
    assert_eq!(w.column(), 2);
}

#[test]
fn newline_scrolls_line_up() {
    let mut w = Writer::new();
    w.write_string("hello");
    w.write_byte(b'\n');
    assert_eq!(w.column(), 0);
    assert_eq!(w.char_at(HEIGHT - 2, 0), b'h');
    assert_eq!(w.char_at(HEIGHT - 2, 4), b'o');
    assert_eq!(w.char_at(HEIGHT - 1, 0), b' ');
}

#[test]
fn init_clears_grid() {
    let mut w = Writer::new();
    w.write_string("some text\nmore text");
    w.init();
    for row in 0..HEIGHT {
        for col in 0..WIDTH {
            assert_eq!(w.char_at(row, col), b' ');
        }
    }
}

#[test]
fn init_twice_same_as_once() {
    let mut w1 = Writer::new();
    let mut w2 = Writer::new();
    w1.write_string("scribble\nscribble");
    w2.write_string("scribble\nscribble");
    w1.init();
    w2.init();
    w2.init();
    assert_eq!(w1.column(), w2.column());
    for row in 0..HEIGHT {
        for col in 0..WIDTH {
            assert_eq!(w1.char_at(row, col), w2.char_at(row, col));
        }
    }
}

#[test]
fn bottom_row_holds_short_line() {
    let mut w = Writer::new();
    w.write_string("first line\nsecond");
    let row = bottom_row_string(&w);
    assert_eq!(&row[0..6], b"second");
    for col in 6..WIDTH {
        assert_eq!(row[col], b' ');
    }
    assert_eq!(w.column(), 6);
}

#[test]
fn long_line_wraps_and_bottom_row_holds_last_chunk() {
    let mut w = Writer::new();
    let mut text = String::from("\n");
    for i in 0..100 {
        text.push((b'a' + (i % 26) as u8) as char);
    }
    w.write_string(&text);
    // 100 printable bytes after a newline: the first 80 scrolled up once,
    // the bottom row starts again with the 81st byte.
    let row = bottom_row_string(&w);
    for col in 0..20 {
        let expected = b'a' + (((80 + col) % 26) as u8);
        assert_eq!(row[col], expected);
    }
    for col in 20..WIDTH {
        assert_eq!(row[col], b' ');
    }
    assert_eq!(w.column(), 20);
    // the first chunk, truncated at the grid width, sits one row above
    for col in 0..WIDTH {
        let expected = b'a' + ((col % 26) as u8);
        assert_eq!(w.char_at(HEIGHT - 2, col), expected);
    }
}

#[test]
fn exactly_eighty_chars_fill_bottom_row() {
    let mut w = Writer::new();
    let mut text = String::from("\n");
    for _ in 0..80 {
        text.push('z');
    }
    w.write_string(&text);
    let row = bottom_row_string(&w);
    for col in 0..WIDTH {
        assert_eq!(row[col], b'z');
    }
    assert_eq!(w.column(), 80);
}

#[test]
fn unprintable_bytes_are_replaced() {
    let mut w = Writer::new();
    let text = String::from_utf8(vec![b'a', 0x01, b'b']).unwrap();
    w.write_string(&text);
    assert_eq!(w.char_at(HEIGHT - 1, 0), b'a');
    assert_eq!(w.char_at(HEIGHT - 1, 1), 0xfe);
    assert_eq!(w.char_at(HEIGHT - 1, 2), b'b');
}

#[test]
fn multibyte_text_is_replaced_bytewise() {
    let mut w = Writer::new();
    w.write_string("\u{00e9}!");
    // a two-byte character contributes two replacement glyphs
    assert_eq!(w.char_at(HEIGHT - 1, 0), 0xfe);
    assert_eq!(w.char_at(HEIGHT - 1, 1), 0xfe);
    assert_eq!(w.char_at(HEIGHT - 1, 2), b'!');
}

#[test]
fn boundary_printables_pass_through() {
    let mut w = Writer::new();
    let text = String::from_utf8(vec![0x20, 0x7e]).unwrap();
    w.write_string(&text);
    assert_eq!(w.char_at(HEIGHT - 1, 0), 0x20);
    assert_eq!(w.char_at(HEIGHT - 1, 1), 0x7e);
}

#[test]
fn full_screen_replaces_every_cell() {
    let mut w = Writer::new();
    w.write_string("leftovers");
    let mut image = Vec::new();
    for i in 0..(WIDTH * HEIGHT) {
        image.push(b'0' + ((i % 10) as u8));
    }
    w.write_full_screen(&image);
    for row in 0..HEIGHT {
        for col in 0..WIDTH {
            let i = row * WIDTH + col;
            assert_eq!(w.char_at(row, col), b'0' + ((i % 10) as u8));
        }
    }
}
