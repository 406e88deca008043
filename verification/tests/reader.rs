use http_server::reader::{RequestBuffer, CHUNK_SIZE};

#[test]
fn chunk_size_is_512() {
    assert_eq!(CHUNK_SIZE, 512);
}

#[test]
fn fresh_buffer_is_empty() {
    assert_eq!(RequestBuffer::new().into_text(), "");
}

#[test]
fn short_read_ends_the_request() {
    let mut buffer = RequestBuffer::new();
    assert!(!buffer.push_chunk(b"GET / HTTP/1.1\r\n\r\n"));
    assert_eq!(buffer.into_text(), "GET / HTTP/1.1\r\n\r\n");
}

#[test]
fn full_read_asks_for_another() {
    let mut buffer = RequestBuffer::new();
    let full = vec![b'a'; 512];
    assert!(buffer.push_chunk(&full));
    assert!(buffer.push_chunk(&full));
    assert!(!buffer.push_chunk(b"tail"));
    let text = buffer.into_text();
    assert_eq!(text.len(), 1028);
    assert!(text.ends_with("aatail"));
}

#[test]
fn read_one_byte_short_of_full_ends_the_request() {
    let mut buffer = RequestBuffer::new();
    assert!(!buffer.push_chunk(&vec![b'a'; 511]));
    assert_eq!(buffer.into_text().len(), 511);
}

#[test]
fn empty_read_ends_the_request_and_adds_nothing() {
    let mut buffer = RequestBuffer::new();
    assert!(buffer.push_chunk(&vec![b'x'; 512]));
    assert!(!buffer.push_chunk(&[]));
    assert_eq!(buffer.into_text(), "x".repeat(512));
}

#[test]
fn empty_read_on_a_fresh_buffer_gives_empty_text() {
    let mut buffer = RequestBuffer::new();
    assert!(!buffer.push_chunk(&[]));
    assert_eq!(buffer.into_text(), "");
}

#[test]
fn chunks_are_decoded_one_by_one() {
    let mut buffer = RequestBuffer::new();
    buffer.push_chunk("caf\u{e9} ".as_bytes());
    buffer.push_chunk(&[b'a', 0xff, b'b']);
    buffer.push_chunk(&[0xc3]);
    buffer.push_chunk(&[0xa9]);
    assert_eq!(buffer.into_text(), "caf\u{e9} a\u{fffd}b\u{fffd}\u{fffd}");
}

#[test]
fn text_goes_behind_what_is_there() {
    let mut buffer = RequestBuffer::new();
    buffer.push_text("GET / ");
    buffer.push_text("");
    buffer.push_text("HTTP/1.1\r\n\r\n");
    assert_eq!(buffer.into_text(), "GET / HTTP/1.1\r\n\r\n");
}
