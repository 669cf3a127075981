use snake_game::fmt::ByteArrayWriter;

fn backing_buffer() -> Vec<u8> {
    vec![0u8; 1024]
}

#[test]
fn new_writer_is_empty() {
    let w = ByteArrayWriter::new(backing_buffer());
    assert_eq!(w.bytes(), &[] as &[u8]);
}

#[test]
fn write_str_appends_bytes() {
    let mut w = ByteArrayWriter::new(backing_buffer());
    w.write_str("hello");
    w.write_str(", world");
    assert_eq!(w.bytes(), b"hello, world");
}

#[test]
fn as_string_reads_back_text() {
    let mut w = ByteArrayWriter::new(backing_buffer());
    w.write_str("tick ");
    w.write_str("42");
    assert_eq!(w.as_string(), "tick 42");
}

#[test]
fn write_str_fills_to_capacity() {
    let mut w = ByteArrayWriter::new(backing_buffer());
    let chunk = "0123456789abcdef";
    for _ in 0..64 {
        w.write_str(chunk);
    }
    assert_eq!(w.bytes().len(), 1024);
    assert_eq!(&w.bytes()[0..16], chunk.as_bytes());
    assert_eq!(&w.bytes()[1008..1024], chunk.as_bytes());
}
