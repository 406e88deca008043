use http_server::static_files::{get_mime_type, mime_of_extension, serve_static, StaticRouteTable};
use http_server::HttpResponse;

fn served(res: &HttpResponse) -> String {
    String::from_utf8(res.serialize()).unwrap()
}

#[test]
fn every_listed_extension_has_its_type() {
    for (ext, mime) in [
        ("html", "text/html"),
        ("css", "text/css"),
        ("js", "application/javascript"),
        ("json", "application/json"),
        ("png", "image/png"),
        ("jpg", "image/jpeg"),
        ("jpeg", "image/jpeg"),
        ("gif", "image/gif"),
        ("svg", "image/svg+xml"),
        ("mp4", "video/mp4"),
        ("mp3", "audio/mpeg"),
        ("ogg", "audio/ogg"),
        ("wav", "audio/wav"),
        ("pdf", "application/pdf"),
    ] {
        assert_eq!(mime_of_extension(Some(ext)), mime);
        assert_eq!(get_mime_type(&format!("/var/www/file.{}", ext)), mime);
    }
}

#[test]
fn unlisted_or_missing_extension_is_arbitrary_bytes() {
    assert_eq!(mime_of_extension(None), "application/octet-stream");
    assert_eq!(mime_of_extension(Some("")), "application/octet-stream");
    assert_eq!(mime_of_extension(Some("txt")), "application/octet-stream");
    assert_eq!(mime_of_extension(Some("htm")), "application/octet-stream");
    assert_eq!(mime_of_extension(Some("html5")), "application/octet-stream");
    assert_eq!(get_mime_type("/var/www/README"), "application/octet-stream");
    assert_eq!(get_mime_type("/var/www/archive.zip"), "application/octet-stream");
    assert_eq!(get_mime_type(""), "application/octet-stream");
}

#[test]
fn extensions_are_told_apart_by_case() {
    assert_eq!(mime_of_extension(Some("HTML")), "application/octet-stream");
    assert_eq!(mime_of_extension(Some("Css")), "application/octet-stream");
    assert_eq!(get_mime_type("/var/www/INDEX.HTML"), "application/octet-stream");
    assert_eq!(get_mime_type("/var/www/photo.JPG"), "application/octet-stream");
}

#[test]
fn the_extension_is_what_follows_the_last_dot_of_the_file_name() {
    assert_eq!(get_mime_type("a.css"), "text/css");
    assert_eq!(get_mime_type("/var/www/app.min.js"), "application/javascript");
    assert_eq!(get_mime_type("/var/www.html/plain"), "application/octet-stream");
    assert_eq!(get_mime_type("/var/www/.html"), "application/octet-stream");
    assert_eq!(get_mime_type("/var/www/page.html/"), "text/html");
    assert_eq!(get_mime_type("css"), "application/octet-stream");
}

#[test]
fn path_under_prefix_names_a_file() {
    let mut table = StaticRouteTable::new();
    table.add_static_dir("/assets", "/var/www");
    assert_eq!(table.resolve("/assets/a.css"), Some("/var/www/a.css".to_string()));
    assert_eq!(table.resolve("/assets/missing.css"), Some("/var/www/missing.css".to_string()));
    assert_eq!(table.resolve("/assets/img/logo.png"), Some("/var/www/img/logo.png".to_string()));
    assert_eq!(table.resolve("/assets/"), Some("/var/www/".to_string()));
}

#[test]
fn prefix_must_be_followed_by_a_slash() {
    let mut table = StaticRouteTable::new();
    table.add_static_dir("/assets", "/var/www");
    assert_eq!(table.resolve("/assetsFoo"), None);
    assert_eq!(table.resolve("/assets"), None);
    assert_eq!(table.resolve("/assets.css"), None);
    assert_eq!(table.resolve("/asset/a.css"), None);
    assert_eq!(table.resolve("/other/assets/a.css"), None);
    assert_eq!(table.resolve("/"), None);
    assert_eq!(table.resolve(""), None);
}

#[test]
fn empty_table_names_no_file() {
    let table = StaticRouteTable::new();
    assert_eq!(table.resolve("/assets/a.css"), None);
}

#[test]
fn first_matching_prefix_wins() {
    let mut table = StaticRouteTable::new();
    table.add_static_dir("/static", "/srv/one");
    table.add_static_dir("/static/deep", "/srv/two");
    table.add_static_dir("/static", "/srv/three");
    table.add_static_dir("/media", "/srv/media");
    assert_eq!(table.resolve("/static/deep/x.js"), Some("/srv/one/deep/x.js".to_string()));
    assert_eq!(table.resolve("/media/x.mp3"), Some("/srv/media/x.mp3".to_string()));
}

#[test]
fn later_mapping_is_used_where_earlier_ones_do_not_match() {
    let mut table = StaticRouteTable::new();
    table.add_static_dir("/static/deep", "/srv/two");
    table.add_static_dir("/static", "/srv/one");
    assert_eq!(table.resolve("/static/deep/x.js"), Some("/srv/two/x.js".to_string()));
    assert_eq!(table.resolve("/static/x.js"), Some("/srv/one/x.js".to_string()));
}

#[test]
fn empty_prefix_lies_over_every_rooted_path() {
    let mut table = StaticRouteTable::new();
    table.add_static_dir("", "/srv");
    assert_eq!(table.resolve("/x"), Some("/srv/x".to_string()));
    assert_eq!(table.resolve("x"), None);
}

#[test]
fn prefix_is_matched_by_characters() {
    let mut table = StaticRouteTable::new();
    table.add_static_dir("/caf\u{e9}", "/srv/caf\u{e9}");
    assert_eq!(
        table.resolve("/caf\u{e9}/men\u{fc}.html"),
        Some("/srv/caf\u{e9}/men\u{fc}.html".to_string())
    );
    assert_eq!(table.resolve("/cafe/menu.html"), None);
}

#[test]
fn found_file_gives_type_and_body() {
    let mut res = HttpResponse::new();
    serve_static(&mut res, "/var/www/a.css", Some(b"body { margin: 0 }"));
    assert_eq!(
        served(&res),
        "HTTP/1.1 200 OK\r\nContent-Length: 18\r\nContent-Type: text/css\r\n\r\nbody { margin: 0 }"
    );
}

#[test]
fn found_file_body_has_the_bytes_of_the_file() {
    let contents = "\u{4f60}\u{597d}, w\u{f6}rld\n".as_bytes();
    let mut res = HttpResponse::new();
    serve_static(&mut res, "/var/www/hello.html", Some(contents));
    let wire = res.serialize();
    let head = res.get_header();
    assert_eq!(head, "HTTP/1.1 200 OK\r\nContent-Length: 15\r\nContent-Type: text/html\r\n\r\n");
    assert_eq!(&wire[head.len()..], contents);
}

#[test]
fn found_file_with_bytes_that_are_no_text_is_served_as_it_is() {
    let mut res = HttpResponse::new();
    serve_static(&mut res, "/var/www/blob.bin", Some(&[b'a', 0xff, b'b']));
    assert_eq!(
        res.serialize(),
        b"HTTP/1.1 200 OK\r\nContent-Length: 3\r\nContent-Type: application/octet-stream\r\n\r\na\xffb"
            .to_vec()
    );
}

#[test]
fn found_image_is_served_byte_for_byte() {
    let contents: Vec<u8> = (0..=255u8).rev().chain(0..=255u8).collect();
    let mut res = HttpResponse::new();
    serve_static(&mut res, "/var/www/img/logo.png", Some(&contents));
    let head = res.get_header();
    assert_eq!(head, "HTTP/1.1 200 OK\r\nContent-Length: 512\r\nContent-Type: image/png\r\n\r\n");
    let wire = res.serialize();
    assert_eq!(wire.len(), head.len() + 512);
    assert_eq!(&wire[..head.len()], head.as_bytes());
    assert_eq!(&wire[head.len()..], &contents[..]);
}

#[test]
fn empty_file_gives_empty_body() {
    let mut res = HttpResponse::new();
    serve_static(&mut res, "/var/www/empty.json", Some(&[]));
    assert_eq!(
        served(&res),
        "HTTP/1.1 200 OK\r\nContent-Length: 0\r\nContent-Type: application/json\r\n\r\n"
    );
}

#[test]
fn missing_file_says_so_with_default_status() {
    let mut res = HttpResponse::new();
    serve_static(&mut res, "/var/www/missing.css", None);
    assert_eq!(served(&res), "HTTP/1.1 200 OK\r\nContent-Length: 14\r\n\r\nfile not found");
}

#[test]
fn static_answer_keeps_what_middleware_set() {
    let mut res = HttpResponse::new();
    res.set_status("HTTP/1.1 203 Non-Authoritative Information".to_string());
    res.set_header("X-Trace", "7");
    res.set_header("Content-Type", "text/plain");
    serve_static(&mut res, "/var/www/a.png", Some(b"png"));
    assert_eq!(
        served(&res),
        "HTTP/1.1 203 Non-Authoritative Information\r\nContent-Length: 3\r\nX-Trace: 7\r\nContent-Type: image/png\r\n\r\npng"
    );
}
