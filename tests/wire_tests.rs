use eddi::wire::{frame_line, trimmed, LineReader};

#[test]
fn framed_record_reads_back() {
    let payload = br#"{"type":"ping"}"#.to_vec();
    let framed = frame_line(payload.clone());
    assert_eq!(framed.last(), Some(&b'\n'));
    let mut reader = LineReader::new();
    reader.feed(&framed);
    assert_eq!(reader.next_record(), Some(payload));
    assert_eq!(reader.next_record(), None);
}

#[test]
fn blank_lines_are_skipped_and_trailing_space_trimmed() {
    let mut reader = LineReader::new();
    reader.feed(b"\n  \r\n{\"type\":\"pong\"}  \r\npartial");
    assert_eq!(reader.next_record(), Some(b"{\"type\":\"pong\"}".to_vec()));
    assert_eq!(reader.next_record(), None);
    reader.feed(b" line\n");
    assert_eq!(reader.next_record(), Some(b"partial line".to_vec()));
}

#[test]
fn finish_returns_unterminated_rest() {
    let mut reader = LineReader::new();
    reader.feed(b"tail  ");
    assert_eq!(reader.next_record(), None);
    assert_eq!(reader.finish(), Some(b"tail".to_vec()));
    assert_eq!(reader.finish(), None);
    assert_eq!(trimmed(&b"a \t\r\n".to_vec()), b"a".to_vec());
}
