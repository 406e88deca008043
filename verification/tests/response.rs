use http_server::HttpResponse;

fn wire_text(res: &HttpResponse) -> String {
    String::from_utf8(res.serialize()).unwrap()
}

#[test]
fn fresh_response_has_default_status_and_no_body() {
    let res = HttpResponse::new();
    assert_eq!(res.get_header(), "HTTP/1.1 200 OK\r\nContent-Length: 0\r\n\r\n");
    assert_eq!(wire_text(&res), "HTTP/1.1 200 OK\r\nContent-Length: 0\r\n\r\n");
}

#[test]
fn content_length_is_the_byte_length_of_the_body() {
    let mut res = HttpResponse::new();
    res.set_body("hello");
    assert_eq!(res.get_header(), "HTTP/1.1 200 OK\r\nContent-Length: 5\r\n\r\n");
    assert_eq!(wire_text(&res), "HTTP/1.1 200 OK\r\nContent-Length: 5\r\n\r\nhello");
}

#[test]
fn content_length_follows_the_last_body() {
    let mut res = HttpResponse::new();
    res.set_body("a much longer body than the one that follows");
    res.set_body("short");
    assert_eq!(wire_text(&res), "HTTP/1.1 200 OK\r\nContent-Length: 5\r\n\r\nshort");
    res.set_body("");
    assert_eq!(wire_text(&res), "HTTP/1.1 200 OK\r\nContent-Length: 0\r\n\r\n");
    res.set_body("0123456789ab");
    assert_eq!(wire_text(&res), "HTTP/1.1 200 OK\r\nContent-Length: 12\r\n\r\n0123456789ab");
}

#[test]
fn content_length_counts_bytes_not_characters() {
    let mut res = HttpResponse::new();
    res.set_body("\u{e9}");
    assert_eq!(res.get_header(), "HTTP/1.1 200 OK\r\nContent-Length: 2\r\n\r\n");
    res.set_body("\u{4f60}\u{597d}");
    assert_eq!(res.get_header(), "HTTP/1.1 200 OK\r\nContent-Length: 6\r\n\r\n");
    res.set_body("\u{1f600}a");
    assert_eq!(res.get_header(), "HTTP/1.1 200 OK\r\nContent-Length: 5\r\n\r\n");
}

#[test]
fn content_length_of_a_long_body() {
    let body = "x".repeat(12345);
    let mut res = HttpResponse::new();
    res.set_body(&body);
    assert_eq!(res.get_header(), "HTTP/1.1 200 OK\r\nContent-Length: 12345\r\n\r\n");
    assert_eq!(wire_text(&res).len(), res.get_header().len() + 12345);
}

#[test]
fn content_length_is_computed_after_headers_were_set() {
    let mut res = HttpResponse::new();
    res.set_body("one");
    res.set_header("X-A", "1");
    res.set_body("three");
    assert_eq!(
        wire_text(&res),
        "HTTP/1.1 200 OK\r\nContent-Length: 5\r\nX-A: 1\r\n\r\nthree"
    );
}

#[test]
fn each_header_appears_once() {
    let mut res = HttpResponse::new();
    res.set_header("Content-Type", "text/html");
    res.set_header("X-Powered-By", "tests");
    res.set_header("Content-Type", "text/plain");
    let head = res.get_header();
    assert_eq!(head.matches("Content-Type: ").count(), 1);
    assert_eq!(head.matches("X-Powered-By: tests\r\n").count(), 1);
    assert!(head.contains("Content-Type: text/plain\r\n"));
    assert!(!head.contains("text/html"));
}

#[test]
fn headers_go_out_in_the_order_of_first_setting() {
    let mut res = HttpResponse::new();
    res.set_header("B", "1");
    res.set_header("A", "2");
    res.set_header("B", "3");
    res.set_header("C", "4");
    assert_eq!(
        res.get_header(),
        "HTTP/1.1 200 OK\r\nContent-Length: 0\r\nB: 3\r\nA: 2\r\nC: 4\r\n\r\n"
    );
}

#[test]
fn header_names_differing_in_case_are_different_headers() {
    let mut res = HttpResponse::new();
    res.set_header("X-Id", "1");
    res.set_header("x-id", "2");
    assert_eq!(
        res.get_header(),
        "HTTP/1.1 200 OK\r\nContent-Length: 0\r\nX-Id: 1\r\nx-id: 2\r\n\r\n"
    );
}

#[test]
fn status_line_is_replaced_as_given() {
    let mut res = HttpResponse::new();
    res.set_status("HTTP/1.1 404 Not Found".to_string());
    res.set_body("gone");
    assert_eq!(wire_text(&res), "HTTP/1.1 404 Not Found\r\nContent-Length: 4\r\n\r\ngone");
    res.set_status("anything at all".to_string());
    assert_eq!(res.get_header(), "anything at all\r\nContent-Length: 4\r\n\r\n");
}

#[test]
fn explicit_content_length_header_stands_beside_the_computed_one() {
    let mut res = HttpResponse::new();
    res.set_header("Content-Length", "999");
    res.set_body("abc");
    assert_eq!(
        res.get_header(),
        "HTTP/1.1 200 OK\r\nContent-Length: 3\r\nContent-Length: 999\r\n\r\n"
    );
}

#[test]
fn body_goes_out_verbatim() {
    let mut res = HttpResponse::new();
    res.set_body("line one\r\n\r\nline two\n");
    assert_eq!(
        wire_text(&res),
        "HTTP/1.1 200 OK\r\nContent-Length: 21\r\n\r\nline one\r\n\r\nline two\n"
    );
}

#[test]
fn whole_response_is_head_then_body() {
    let mut res = HttpResponse::new();
    res.set_status("HTTP/1.1 201 Created".to_string());
    res.set_header("Location", "/items/7");
    res.set_body("{\"id\":7}");
    let mut expected = res.get_header();
    expected.push_str("{\"id\":7}");
    assert_eq!(wire_text(&res), expected);
    assert_eq!(
        wire_text(&res),
        "HTTP/1.1 201 Created\r\nContent-Length: 8\r\nLocation: /items/7\r\n\r\n{\"id\":7}"
    );
}

#[test]
fn text_body_goes_out_in_utf8() {
    let mut res = HttpResponse::new();
    res.set_header("Content-Type", "text/plain");
    res.set_body("gr\u{fc}\u{df}e");
    assert_eq!(
        res.serialize(),
        b"HTTP/1.1 200 OK\r\nContent-Length: 7\r\nContent-Type: text/plain\r\n\r\ngr\xc3\xbc\xc3\x9fe".to_vec()
    );
}

#[test]
fn bytes_body_goes_out_as_it_is() {
    let body = [0x89, b'P', b'N', b'G', 0x0d, 0x0a, 0x1a, 0x0a, 0x00, 0xff, 0xfe];
    let mut res = HttpResponse::new();
    res.set_body_bytes(&body);
    let mut expected = b"HTTP/1.1 200 OK\r\nContent-Length: 11\r\n\r\n".to_vec();
    expected.extend_from_slice(&body);
    assert_eq!(res.serialize(), expected);
    assert_eq!(res.get_header(), "HTTP/1.1 200 OK\r\nContent-Length: 11\r\n\r\n");
}

#[test]
fn bytes_that_are_no_text_are_counted_one_by_one() {
    let mut res = HttpResponse::new();
    res.set_body_bytes(&[b'a', 0xff, b'b']);
    assert_eq!(res.get_header(), "HTTP/1.1 200 OK\r\nContent-Length: 3\r\n\r\n");
    assert_eq!(
        res.serialize(),
        b"HTTP/1.1 200 OK\r\nContent-Length: 3\r\n\r\na\xffb".to_vec()
    );
}

#[test]
fn last_body_counts_whether_text_or_bytes() {
    let mut res = HttpResponse::new();
    res.set_body_bytes(&[1, 2, 3, 4, 5, 6]);
    res.set_body("ab");
    assert_eq!(res.serialize(), b"HTTP/1.1 200 OK\r\nContent-Length: 2\r\n\r\nab".to_vec());
    res.set_body_bytes(&[]);
    assert_eq!(res.serialize(), b"HTTP/1.1 200 OK\r\nContent-Length: 0\r\n\r\n".to_vec());
    res.set_body_bytes(&[0xff]);
    assert_eq!(res.serialize(), b"HTTP/1.1 200 OK\r\nContent-Length: 1\r\n\r\n\xff".to_vec());
}

#[test]
fn serialized_response_is_head_then_body() {
    let mut res = HttpResponse::new();
    res.set_status("HTTP/1.1 206 Partial Content".to_string());
    res.set_header("Content-Type", "video/mp4");
    res.set_body_bytes(&[0x00, 0x80, 0xc3, 0x28]);
    let mut expected = res.get_header().into_bytes();
    expected.extend_from_slice(&[0x00, 0x80, 0xc3, 0x28]);
    assert_eq!(res.serialize(), expected);
}
