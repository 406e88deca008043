//! The request as the peer sent it, and the grammar that reads it.

use crate::headers::HeaderMap;
use crate::text::{
    find, first_match, lemma_first_match_char, lemma_first_match_char_none,
    lemma_first_match_sound, lines_of, occurs_at, split_line, split_word, text_of, to_chars,
    words_of,
};
use vstd::prelude::*;
use vstd::slice::slice_subrange;
use vstd::string::*;

verus! {

/// Why a text is no request.
#[derive(Clone, Copy, Debug, PartialEq, Eq, Structural)]
pub enum MalformedRequest {
    /// No empty line ends the header section.
    MissingSeparator,
    /// The header section is empty, so there is no request line.
    MissingRequestLine,
    /// The request line holds fewer than three words.
    IncompleteRequestLine,
}

impl MalformedRequest {
    /// A sentence for a log.
    pub fn message(&self) -> (text: &'static str)
        ensures
            text@ == match *self {
                MalformedRequest::MissingSeparator => "no empty line ends the header section"@,
                MalformedRequest::MissingRequestLine => "the request line is missing"@,
                MalformedRequest::IncompleteRequestLine =>
                    "the request line lacks a method, a target or a protocol version"@,
            },
    {
        match self {
            MalformedRequest::MissingSeparator => "no empty line ends the header section",
            MalformedRequest::MissingRequestLine => "the request line is missing",
            MalformedRequest::IncompleteRequestLine =>
                "the request line lacks a method, a target or a protocol version",
        }
    }
}

/// What a request holds.
pub struct RequestView {
    /// The first word of the request line.
    pub method: Seq<char>,
    /// The request target up to its first question mark, with a leading slash.
    pub path: Seq<char>,
    /// The request target after its first question mark.
    pub query: Seq<char>,
    /// The third word of the request line.
    pub protocol: Seq<char>,
    /// The header fields; of two with one name the later one counts.
    pub headers: Map<Seq<char>, Seq<char>>,
    /// Everything after the empty line that ends the header section.
    pub body: Seq<char>,
}

/// The part of a request target that names the resource: everything before
/// the first question mark.
pub open spec fn target_path(target: Seq<char>) -> Seq<char> {
    match first_match(target, "?"@) {
        Some(i) => target.take(i),
        None => target,
    }
}

/// The query string of a request target: everything after the first question
/// mark, and nothing where there is none.
pub open spec fn target_query(target: Seq<char>) -> Seq<char> {
    match first_match(target, "?"@) {
        Some(i) => target.skip(i + 1),
        None => Seq::empty(),
    }
}

/// `path` with a slash put in front unless it starts with one.
pub open spec fn rooted(path: Seq<char>) -> Seq<char> {
    if path.len() > 0 && path[0] == '/' {
        path
    } else {
        seq!['/'] + path
    }
}

/// The name and the value of a header line: what stands before and after its
/// first colon-and-space. A line without one is no header field.
pub open spec fn split_field(line: Seq<char>) -> Option<(Seq<char>, Seq<char>)> {
    match first_match(line, ": "@) {
        Some(i) => Some((line.take(i), line.skip(i + 2))),
        None => None,
    }
}

/// The header fields of `lines`, read from first to last: each line that is a
/// field sets its name to its value, and the other lines are passed over.
pub open spec fn header_map(lines: Seq<Seq<char>>) -> Map<Seq<char>, Seq<char>>
    decreases lines.len(),
{
    if lines.len() == 0 {
        Map::empty()
    } else {
        let before = header_map(lines.drop_last());
        match split_field(lines.last()) {
            Some((name, value)) => before.insert(name, value),
            None => before,
        }
    }
}

/// The request that `text` holds, or the reason why it holds none.
///
/// The header section ends before the first empty line (a line break directly
/// after a line break); the body is all that follows it. The first line of the
/// header section is the request line, whose first three words are the method,
/// the target and the protocol version. The other lines are header fields.
pub open spec fn parse_request(text: Seq<char>) -> Result<RequestView, MalformedRequest> {
    match first_match(text, "\r\n\r\n"@) {
        None => Err(MalformedRequest::MissingSeparator),
        Some(end) => {
            let lines = lines_of(text.take(end));
            if lines.len() == 0 {
                Err(MalformedRequest::MissingRequestLine)
            } else {
                let words = words_of(lines[0]);
                if words.len() < 3 {
                    Err(MalformedRequest::IncompleteRequestLine)
                } else {
                    Ok(
                        RequestView {
                            method: words[0],
                            path: rooted(target_path(words[1])),
                            query: target_query(words[1]),
                            protocol: words[2],
                            headers: header_map(lines.skip(1)),
                            body: text.skip(end + 4),
                        },
                    )
                }
            }
        },
    }
}

/// The words of the request line of `text`, and none where `text` has no
/// request line.
pub open spec fn request_words(text: Seq<char>) -> Seq<Seq<char>> {
    match first_match(text, "\r\n\r\n"@) {
        Some(end) => {
            let lines = lines_of(text.take(end));
            if lines.len() == 0 {
                Seq::empty()
            } else {
                words_of(lines[0])
            }
        },
        None => Seq::empty(),
    }
}

/// A text whose request line holds three words is a request. Its method
/// and its protocol version are the first and the third word. The second
/// word is the target: what follows its first question mark is the query
/// string, what stands before it is the path, and a target that begins with
/// a slash keeps its path as it is.
pub proof fn lemma_request_line(text: Seq<char>)
    requires
        request_words(text).len() >= 3,
    ensures
        parse_request(text) matches Ok(req) && {
            let words = request_words(text);
            &&& req.method == words[0]
            &&& req.protocol == words[2]
            &&& req.query == target_query(words[1])
            &&& req.path == rooted(target_path(words[1]))
            &&& words[1].len() > 0 && words[1][0] == '/' ==> req.path == target_path(words[1])
        },
{
    let target = request_words(text)[1];
    if target.len() > 0 && target[0] == '/' {
        lemma_first_match_sound(target, "?"@);
        reveal_strlit("?");
        match first_match(target, "?"@) {
            Some(i) => {
                assert(target.subrange(i, i + 1)[0] == target[i]);
                assert(i > 0);
                assert(target.take(i)[0] == target[0]);
            },
            None => {},
        }
    }
}

/// The target splits at its first question mark, which belongs to neither part.
pub proof fn lemma_target_with_query(target: Seq<char>, i: int)
    requires
        0 <= i < target.len(),
        target[i] == '?',
        forall|j: int| 0 <= j < i ==> target[j] != '?',
    ensures
        target_path(target) == target.take(i),
        target_query(target) == target.skip(i + 1),
{
    reveal_strlit("?");
    assert("?"@ =~= seq!['?']);
    lemma_first_match_char(target, '?', i);
}

/// A target without a question mark is all path, and its query string is empty.
pub proof fn lemma_target_without_query(target: Seq<char>)
    requires
        forall|j: int| 0 <= j < target.len() ==> target[j] != '?',
    ensures
        target_path(target) == target,
        target_query(target) == Seq::<char>::empty(),
{
    reveal_strlit("?");
    assert("?"@ =~= seq!['?']);
    lemma_first_match_char_none(target, '?');
}

/// The path of a request begins with a slash and holds no question mark: the
/// query string is never part of it.
pub proof fn lemma_path_excludes_query(text: Seq<char>)
    ensures
        parse_request(text) matches Ok(req) ==> is_plain_path(req.path),
{
    if let Ok(req) = parse_request(text) {
        let target = request_words(text)[1];
        let path = target_path(target);
        lemma_first_match_sound(target, "?"@);
        reveal_strlit("?");
        assert("?"@ =~= seq!['?']);
        assert forall|j: int| 0 <= j < path.len() implies path[j] != '?' by {
            if path[j] == '?' {
                assert(target[j] == '?');
                assert(target.subrange(j, j + 1) =~= seq!['?']);
                assert(occurs_at(target, "?"@, j));
            }
        }
        assert(req.path == rooted(path));
        assert forall|j: int| 0 <= j < req.path.len() implies req.path[j] != '?' by {
            if !(path.len() > 0 && path[0] == '/') {
                if j > 0 {
                    assert(req.path[j] == path[j - 1]);
                }
            }
        }
    }
}

/// Of the header lines that give one name, the last one decides the value.
pub proof fn lemma_last_field_wins(
    lines: Seq<Seq<char>>,
    i: int,
    name: Seq<char>,
    value: Seq<char>,
)
    requires
        0 <= i < lines.len(),
        split_field(lines[i]) == Some((name, value)),
        forall|j: int|
            i < j < lines.len() ==> (split_field(#[trigger] lines[j]) matches Some(later)
                ==> later.0 != name),
    ensures
        header_map(lines).contains_key(name),
        header_map(lines)[name] == value,
    decreases lines.len(),
{
    if i < lines.len() - 1 {
        let before = lines.drop_last();
        assert(before[i] == lines[i]);
        assert forall|j: int| i < j < before.len() implies (split_field(
            #[trigger] before[j],
        ) matches Some(later) ==> later.0 != name) by {
            assert(before[j] == lines[j]);
        }
        lemma_last_field_wins(before, i, name, value);
        assert(lines.last() == lines[lines.len() - 1]);
    }
}

/// One request, read once from the text of a connection.
pub struct HttpRequest {
    params: String,
    path: String,
    method: String,
    protocol: String,
    headers: HeaderMap,
    body: String,
}

impl View for HttpRequest {
    type V = RequestView;

    closed spec fn view(&self) -> RequestView {
        RequestView {
            method: self.method@,
            path: self.path@,
            query: self.params@,
            protocol: self.protocol@,
            headers: self.headers@,
            body: self.body@,
        }
    }
}

/// Splits a request target at its first question mark, and roots the path.
fn split_target(target: &[char]) -> (r: (String, String))
    ensures
        r.0@ == rooted(target_path(target@)),
        r.1@ == target_query(target@),
{
    let mark: [char; 1] = ['?'];
    proof {
        reveal_strlit("?");
        assert(mark@ =~= "?"@);
        lemma_first_match_sound(target@, "?"@);
    }
    let len: usize = target.len();
    let (path, query) = match find(target, mark.as_slice()) {
        Some(i) => (slice_subrange(target, 0, i), slice_subrange(target, i + 1, len)),
        None => (target, slice_subrange(target, 0, 0)),
    };
    proof {
        assert(path@ =~= target_path(target@));
        assert(query@ =~= target_query(target@));
    }
    let mut rooted_path = String::new();
    if !(path.len() > 0 && path[0] == '/') {
        rooted_path.push('/');
    }
    let tail = text_of(path);
    rooted_path.append(tail.as_str());
    proof {
        assert(rooted_path@ =~= rooted(path@));
    }
    (rooted_path, text_of(query))
}

/// Reads one header line into `headers`, or passes over it.
fn read_field(headers: &mut HeaderMap, line: &[char])
    ensures
        final(headers)@ == match split_field(line@) {
            Some((name, value)) => old(headers)@.insert(name, value),
            None => old(headers)@,
        },
{
    let mark: [char; 2] = [':', ' '];
    proof {
        reveal_strlit(": ");
        assert(mark@ =~= ": "@);
        lemma_first_match_sound(line@, ": "@);
    }
    let len: usize = line.len();
    match find(line, mark.as_slice()) {
        Some(i) => {
            let name = slice_subrange(line, 0, i);
            let value = slice_subrange(line, i + 2, len);
            proof {
                assert(name@ =~= line@.take(i as int));
                assert(value@ =~= line@.skip(i + 2));
            }
            headers.insert(text_of(name), text_of(value));
        },
        None => {},
    }
}

/// `path` begins with a slash and holds no question mark.
pub open spec fn is_plain_path(path: Seq<char>) -> bool {
    &&& path.len() > 0
    &&& path[0] == '/'
    &&& forall|j: int| 0 <= j < path.len() ==> path[j] != '?'
}

impl HttpRequest {
    /// What holds of every request: its path begins with a slash, and the
    /// query string is no part of it.
    #[verifier::type_invariant]
    pub closed spec fn well_formed(&self) -> bool {
        is_plain_path(self.path@)
    }

    /// Reads a request from the whole text of a connection.
    pub fn from(req_str: String) -> (r: Result<Self, MalformedRequest>)
        ensures
            parse_request(req_str@) == match r {
                Ok(req) => Ok::<RequestView, MalformedRequest>(req@),
                Err(e) => Err(e),
            },
    {
        let chars = to_chars(req_str.as_str());
        let text = chars.as_slice();
        let len: usize = text.len();
        let mark: [char; 4] = ['\r', '\n', '\r', '\n'];
        proof {
            reveal_strlit("\r\n\r\n");
            assert(mark@ =~= "\r\n\r\n"@);
            lemma_first_match_sound(text@, "\r\n\r\n"@);
        }
        let end: usize = match find(text, mark.as_slice()) {
            Some(end) => end,
            None => {
                return Err(MalformedRequest::MissingSeparator);
            },
        };
        let head = slice_subrange(text, 0, end);
        let body = slice_subrange(text, end + 4, len);
        proof {
            assert(head@ =~= text@.take(end as int));
            assert(body@ =~= text@.skip(end + 4));
        }
        let (line, after_first) = match split_line(head) {
            Some(found) => found,
            None => {
                return Err(MalformedRequest::MissingRequestLine);
            },
        };
        let ghost lines = lines_of(head@);
        proof {
            assert(lines[0] == line@);
            assert(lines.skip(1) =~= lines_of(after_first@));
        }
        let (method, after_method) = match split_word(line) {
            Some(found) => found,
            None => {
                return Err(MalformedRequest::IncompleteRequestLine);
            },
        };
        let (target, after_target) = match split_word(after_method) {
            Some(found) => found,
            None => {
                return Err(MalformedRequest::IncompleteRequestLine);
            },
        };
        let (protocol, _) = match split_word(after_target) {
            Some(found) => found,
            None => {
                return Err(MalformedRequest::IncompleteRequestLine);
            },
        };
        let (path, params) = split_target(target);
        let mut headers = HeaderMap::new();
        let mut rest = after_first;
        let ghost mut done: Seq<Seq<char>> = Seq::empty();
        proof {
            assert(headers@ =~= header_map(done));
            assert(done + lines_of(rest@) =~= lines.skip(1));
        }
        loop
            invariant
                headers@ == header_map(done),
                done + lines_of(rest@) == lines.skip(1),
            ensures
                headers@ == header_map(lines.skip(1)),
            decreases rest@.len(),
        {
            let (field_line, after) = match split_line(rest) {
                Some(found) => found,
                None => {
                    proof {
                        assert(done =~= lines.skip(1));
                    }
                    break;
                },
            };
            read_field(&mut headers, field_line);
            proof {
                let next = done.push(field_line@);
                assert(next.drop_last() =~= done);
                assert(next + lines_of(after@) =~= done + lines_of(rest@));
                done = next;
            }
            rest = after;
        }
        proof {
            lemma_path_excludes_query(text@);
        }
        Ok(
            HttpRequest {
                params,
                path,
                method: text_of(method),
                protocol: text_of(protocol),
                headers,
                body: text_of(body),
            },
        )
    }

    /// The body.
    pub fn get_body(&self) -> (body: &str)
        ensures
            body@ == self@.body,
    {
        self.body.as_str()
    }

    /// The path: the request target without its query string.
    pub fn get_path(&self) -> (path: &str)
        ensures
            path@ == self@.path,
            is_plain_path(path@),
    {
        proof {
            use_type_invariant(self);
        }
        self.path.as_str()
    }

    /// The method.
    pub fn get_method(&self) -> (method: &str)
        ensures
            method@ == self@.method,
    {
        self.method.as_str()
    }

    /// The value of the header field `key`, if the request has one of that
    /// name. Names are told apart by case.
    pub fn get_header(&self, key: &str) -> (value: Option<&String>)
        ensures
            match value {
                Some(value) => self@.headers.contains_key(key@) && value@ == self@.headers[key@],
                None => !self@.headers.contains_key(key@),
            },
    {
        self.headers.get(key)
    }

    /// The protocol version.
    pub fn get_protocol(&self) -> (protocol: &str)
        ensures
            protocol@ == self@.protocol,
    {
        self.protocol.as_str()
    }

    /// The query string, as it stood in the request target.
    pub fn get_params(&self) -> (params: &str)
        ensures
            params@ == self@.query,
    {
        self.params.as_str()
    }
}

} // verus!
