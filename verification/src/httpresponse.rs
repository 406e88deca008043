//! The response under construction and its form on the wire.

use crate::assoc::{distinct_keys, entries_map, upsert};
use crate::headers::{field_lines, Field, HeaderMap};
use crate::text::{decimal, push_decimal};
use vstd::prelude::*;
use vstd::slice::slice_to_vec;
use vstd::string::*;
use vstd::utf8::*;

verus! {

/// What a response holds: its status line, its header fields in the order in
/// which they go on the wire, and the bytes of its body.
pub struct ResponseView {
    pub status: Seq<char>,
    pub headers: Seq<Field>,
    pub body: Seq<u8>,
}

/// The status line of a response that nobody has changed.
pub open spec fn default_status() -> Seq<char> {
    "HTTP/1.1 200 OK"@
}

impl ResponseView {
    /// The response that `HttpResponse::new` gives.
    pub open spec fn fresh() -> ResponseView {
        ResponseView { status: default_status(), headers: Seq::empty(), body: Seq::empty() }
    }

    /// This response with another body.
    pub open spec fn with_body(self, body: Seq<u8>) -> ResponseView {
        ResponseView { body, ..self }
    }

    /// This response with a text as its body: the bytes of the text in UTF-8.
    pub open spec fn with_text(self, text: Seq<char>) -> ResponseView {
        self.with_body(encode_utf8(text))
    }

    /// This response with the header `name` set to `value`.
    pub open spec fn with_header(self, name: Seq<char>, value: Seq<char>) -> ResponseView {
        ResponseView { headers: upsert(self.headers, name, value), ..self }
    }

    /// This response with another status line.
    pub open spec fn with_status(self, status: Seq<char>) -> ResponseView {
        ResponseView { status, ..self }
    }

    /// The header fields as a mapping from name to value.
    pub open spec fn header_map(self) -> Map<Seq<char>, Seq<char>> {
        entries_map(self.headers)
    }

    /// The `Content-Length` line: the number of bytes of the body, in decimal.
    pub open spec fn content_length_line(self) -> Seq<char> {
        "Content-Length: "@ + decimal(self.body.len()) + "\r\n"@
    }

    /// Everything that goes on the wire before the body: the status line, the
    /// `Content-Length` line, one line for each header field, and an empty line.
    pub open spec fn head(self) -> Seq<char> {
        self.status + "\r\n"@ + self.content_length_line() + field_lines(self.headers) + "\r\n"@
    }

    /// The response as it goes on the wire: the head in UTF-8, then the
    /// bytes of the body as they are.
    pub open spec fn wire(self) -> Seq<u8> {
        encode_utf8(self.head()) + self.body
    }
}

/// However often the body was set, the `Content-Length` line gives the
/// number of bytes of the body that was set last, and the response goes on
/// the wire as one whose body was set once, with these bytes at its end.
pub proof fn lemma_content_length_follows_body(
    before: ResponseView,
    first: Seq<u8>,
    second: Seq<u8>,
)
    ensures
        before.with_body(first).with_body(second) == before.with_body(second),
        before.with_body(first).with_body(second).content_length_line() == "Content-Length: "@
            + decimal(second.len()) + "\r\n"@,
        before.with_body(first).with_body(second).head() == before.status + "\r\n"@
            + "Content-Length: "@ + decimal(second.len()) + "\r\n"@ + field_lines(
            before.headers,
        ) + "\r\n"@,
        before.with_body(first).with_body(second).wire() == encode_utf8(
            before.with_body(second).head(),
        ) + second,
{
    let after = before.with_body(first).with_body(second);
    assert(after.head() =~= before.status + "\r\n"@ + "Content-Length: "@ + decimal(
        second.len(),
    ) + "\r\n"@ + field_lines(before.headers) + "\r\n"@);
}

/// Setting a header or the status line leaves the `Content-Length` line as
/// the body decides it.
pub proof fn lemma_content_length_ignores_headers(
    before: ResponseView,
    name: Seq<char>,
    value: Seq<char>,
    status: Seq<char>,
)
    ensures
        before.with_header(name, value).content_length_line() == before.content_length_line(),
        before.with_status(status).content_length_line() == before.content_length_line(),
{
}

/// A status line, header fields and a body, to be filled in by middleware
/// and by a handler and then written out once.
pub struct HttpResponse {
    status: String,
    headers: HeaderMap,
    body: Vec<u8>,
}

impl View for HttpResponse {
    type V = ResponseView;

    closed spec fn view(&self) -> ResponseView {
        ResponseView { status: self.status@, headers: self.headers.fields(), body: self.body@ }
    }
}

impl HttpResponse {
    /// A response with the default status line, no header field and an empty body.
    pub fn new() -> (res: Self)
        ensures
            res@ == ResponseView::fresh(),
    {
        HttpResponse {
            status: "HTTP/1.1 200 OK".to_owned(),
            headers: HeaderMap::new(),
            body: Vec::new(),
        }
    }

    /// Replaces the body by a text, which goes on the wire in UTF-8.
    pub fn set_body(&mut self, body: &str)
        ensures
            final(self)@ == old(self)@.with_body(encode_utf8(body@)),
    {
        self.body = body.as_bytes_vec();
    }

    /// Replaces the body by bytes, which go on the wire as they are.
    pub fn set_body_bytes(&mut self, body: &[u8])
        ensures
            final(self)@ == old(self)@.with_body(body@),
    {
        self.body = slice_to_vec(body);
    }

    /// Sets the header `key` to `value`; a value that stood with this name is
    /// gone. A field of that name keeps its place among the fields, and a new
    /// name goes to the end.
    pub fn set_header(&mut self, key: &str, value: &str)
        ensures
            final(self)@ == old(self)@.with_header(key@, value@),
            final(self)@.header_map() == old(self)@.header_map().insert(key@, value@),
    {
        self.headers.insert(key.to_owned(), value.to_owned());
    }

    /// Replaces the status line.
    pub fn set_status(&mut self, status: String)
        ensures
            final(self)@ == old(self)@.with_status(status@),
    {
        self.status = status;
    }

    /// The head of the response as it goes on the wire. The `Content-Length`
    /// line is computed from the body as it is now, and no header field has
    /// more than one line.
    pub fn get_header(&self) -> (head: String)
        ensures
            head@ == self@.head(),
            distinct_keys(self@.headers),
    {
        proof {
            use_type_invariant(&self.headers);
        }
        let mut out = String::new();
        out.append(self.status.as_str());
        out.append("\r\n");
        out.append("Content-Length: ");
        push_decimal(&mut out, self.body.len());
        out.append("\r\n");
        self.headers.write_lines(&mut out);
        out.append("\r\n");
        proof {
            assert(out@ =~= self@.head());
        }
        out
    }

    /// The bytes of the whole response as it goes on the wire.
    pub fn serialize(&self) -> (bytes: Vec<u8>)
        ensures
            bytes@ == self@.wire(),
            distinct_keys(self@.headers),
    {
        let head = self.get_header();
        let mut bytes = head.as_str().as_bytes_vec();
        let mut body = slice_to_vec(self.body.as_slice());
        bytes.append(&mut body);
        bytes
    }
}

} // verus!
