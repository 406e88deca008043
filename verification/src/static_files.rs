//! Directories that are served as they are: which file a path names, and
//! what is answered once the file has been looked for.

use crate::assoc::{distinct_keys, lemma_upsert};
use crate::httpresponse::{HttpResponse, ResponseView};
use crate::text::{decimal, occurs_at, same_text, starts_with, text_of, to_chars};
use vstd::prelude::*;
use vstd::slice::slice_subrange;
use vstd::string::*;
use vstd::utf8::*;

verus! {

/// A URL prefix with the directory that it stands for.
pub type Mapping = (Seq<char>, Seq<char>);

/// `path` lies under `prefix`: it begins with the prefix, and a slash follows
/// directly. The prefix alone, or the prefix with other characters after it,
/// does not lie under it.
pub open spec fn under_prefix(prefix: Seq<char>, path: Seq<char>) -> bool {
    &&& prefix.len() < path.len()
    &&& occurs_at(path, prefix, 0)
    &&& path[prefix.len() as int] == '/'
}

/// The file that `path` names below `dir`: the directory, a slash, and what
/// follows the prefix and its slash in the path.
pub open spec fn file_below(dir: Seq<char>, prefix: Seq<char>, path: Seq<char>) -> Seq<char> {
    dir + seq!['/'] + path.skip(prefix.len() as int + 1)
}

/// A prefix, a slash and whatever follows make a path that lies under the
/// prefix, and the file that it names is the directory, a slash, and what
/// follows.
pub proof fn lemma_path_under_prefix(prefix: Seq<char>, rest: Seq<char>, dir: Seq<char>)
    ensures
        under_prefix(prefix, prefix + seq!['/'] + rest),
        file_below(dir, prefix, prefix + seq!['/'] + rest) == dir + seq!['/'] + rest,
{
    let path = prefix + seq!['/'] + rest;
    assert(path.subrange(0, prefix.len() as int) =~= prefix);
    assert(path.skip(prefix.len() as int + 1) =~= rest);
}

/// A path that lies under a prefix is the prefix, a slash, and what follows.
pub proof fn lemma_under_prefix_splits(prefix: Seq<char>, path: Seq<char>)
    requires
        under_prefix(prefix, path),
    ensures
        path == prefix + seq!['/'] + path.skip(prefix.len() as int + 1),
{
    assert(path.subrange(0, prefix.len() as int) == prefix);
    assert(path =~= prefix + seq!['/'] + path.skip(prefix.len() as int + 1));
}

/// Mapping `i` is the first of `dirs` under whose prefix `path` lies.
pub open spec fn is_first_mapping(dirs: Seq<Mapping>, path: Seq<char>, i: int) -> bool {
    &&& 0 <= i < dirs.len()
    &&& under_prefix(dirs[i].0, path)
    &&& forall|j: int| 0 <= j < i ==> !under_prefix(#[trigger] dirs[j].0, path)
}

/// The file that `path` names: the first mapping under whose prefix the path
/// lies decides, and where there is none the path names no file.
pub open spec fn static_file(dirs: Seq<Mapping>, path: Seq<char>) -> Option<Seq<char>> {
    if exists|i: int| is_first_mapping(dirs, path, i) {
        let i = choose|i: int| is_first_mapping(dirs, path, i);
        Some(file_below(dirs[i].1, dirs[i].0, path))
    } else {
        None
    }
}

/// The first mapping that matches is the one that `static_file` goes by.
pub proof fn lemma_static_file_is(dirs: Seq<Mapping>, path: Seq<char>, i: int)
    requires
        is_first_mapping(dirs, path, i),
    ensures
        static_file(dirs, path) == Some(file_below(dirs[i].1, dirs[i].0, path)),
{
    let k = choose|k: int| is_first_mapping(dirs, path, k);
    if k < i {
        assert(!under_prefix(dirs[k].0, path));
    } else if i < k {
        assert(!under_prefix(dirs[i].0, path));
    }
}

/// What `Path::extension` of the standard library gives for a path, as the
/// paths of the platform are read.
pub uninterp spec fn path_extension(path: Seq<char>) -> Option<Seq<char>>;

/// Calls `Path::extension` of the standard library on `path`. The contract
/// gives the result the name `path_extension` and says nothing more of it.
#[verifier::external_body]
fn extension_of(path: &str) -> (ext: Option<&str>)
    ensures
        match ext {
            Some(e) => path_extension(path@) == Some(e@),
            None => path_extension(path@) is None,
        },
{
    match std::path::Path::new(path).extension() {
        Some(e) => e.to_str(),
        None => None,
    }
}

/// The content type that belongs to a file name extension. Extensions are
/// told apart by case; one that is not listed, or none, gives the type of
/// arbitrary bytes.
pub open spec fn mime_type(ext: Option<Seq<char>>) -> Seq<char> {
    match ext {
        Some(e) => if e == "html"@ {
            "text/html"@
        } else if e == "css"@ {
            "text/css"@
        } else if e == "js"@ {
            "application/javascript"@
        } else if e == "json"@ {
            "application/json"@
        } else if e == "png"@ {
            "image/png"@
        } else if e == "jpg"@ || e == "jpeg"@ {
            "image/jpeg"@
        } else if e == "gif"@ {
            "image/gif"@
        } else if e == "svg"@ {
            "image/svg+xml"@
        } else if e == "mp4"@ {
            "video/mp4"@
        } else if e == "mp3"@ {
            "audio/mpeg"@
        } else if e == "ogg"@ {
            "audio/ogg"@
        } else if e == "wav"@ {
            "audio/wav"@
        } else if e == "pdf"@ {
            "application/pdf"@
        } else {
            "application/octet-stream"@
        },
        None => "application/octet-stream"@,
    }
}

/// Looks an extension up in the table of content types.
pub fn mime_of_extension(ext: Option<&str>) -> (mime: &'static str)
    ensures
        mime@ == mime_type(
            match ext {
                Some(e) => Some(e@),
                None => None,
            },
        ),
{
    match ext {
        Some(e) => {
            if same_text(e, "html") {
                "text/html"
            } else if same_text(e, "css") {
                "text/css"
            } else if same_text(e, "js") {
                "application/javascript"
            } else if same_text(e, "json") {
                "application/json"
            } else if same_text(e, "png") {
                "image/png"
            } else if same_text(e, "jpg") || same_text(e, "jpeg") {
                "image/jpeg"
            } else if same_text(e, "gif") {
                "image/gif"
            } else if same_text(e, "svg") {
                "image/svg+xml"
            } else if same_text(e, "mp4") {
                "video/mp4"
            } else if same_text(e, "mp3") {
                "audio/mpeg"
            } else if same_text(e, "ogg") {
                "audio/ogg"
            } else if same_text(e, "wav") {
                "audio/wav"
            } else if same_text(e, "pdf") {
                "application/pdf"
            } else {
                "application/octet-stream"
            }
        },
        None => "application/octet-stream",
    }
}

/// The content type of a file, by the extension of its name.
pub fn get_mime_type(file_path: &str) -> (mime: &'static str)
    ensures
        mime@ == mime_type(path_extension(file_path@)),
{
    mime_of_extension(extension_of(file_path))
}

/// The response once the file that a path names has been looked for: with
/// its contents, the content type of the file and the bytes of the file as
/// the body; without, a body that says so, and nothing else changed.
pub open spec fn static_response(
    before: ResponseView,
    file: Seq<char>,
    contents: Option<Seq<u8>>,
) -> ResponseView {
    match contents {
        Some(bytes) => before.with_header(
            "Content-Type"@,
            mime_type(path_extension(file)),
        ).with_body(bytes),
        None => before.with_text("file not found"@),
    }
}

/// A file that was found is answered with the content type of its name and
/// a body that is the bytes of the file, whatever they are, and the line
/// `Content-Length` counts these bytes. A file that was not found is
/// answered with a body that says so. The status line stays as it was either
/// way.
pub proof fn lemma_static_answer(before: ResponseView, file: Seq<char>, bytes: Seq<u8>)
    requires
        distinct_keys(before.headers),
    ensures
        ({
            let found = static_response(before, file, Some(bytes));
            &&& found.status == before.status
            &&& found.header_map() == before.header_map().insert(
                "Content-Type"@,
                mime_type(path_extension(file)),
            )
            &&& found.body == bytes
            &&& found.content_length_line() == "Content-Length: "@ + decimal(bytes.len())
                + "\r\n"@
            &&& found.wire() == encode_utf8(found.head()) + bytes
        }),
        static_response(before, file, None) == before.with_body(
            encode_utf8("file not found"@),
        ),
{
    lemma_upsert(before.headers, "Content-Type"@, mime_type(path_extension(file)));
}

/// Fills in the response for a static file that has been looked for.
/// `contents` holds the bytes of the file, or nothing where it could not be read.
pub fn serve_static(res: &mut HttpResponse, file_path: &str, contents: Option<&[u8]>)
    ensures
        final(res)@ == static_response(
            old(res)@,
            file_path@,
            match contents {
                Some(bytes) => Some(bytes@),
                None => None,
            },
        ),
{
    match contents {
        Some(bytes) => {
            res.set_header("Content-Type", get_mime_type(file_path));
            res.set_body_bytes(bytes);
        },
        None => {
            res.set_body("file not found");
        },
    }
}

struct StaticDir {
    prefix: Vec<char>,
    dir: String,
}

/// The directories that are served, in the order in which they were added.
pub struct StaticRouteTable {
    dirs: Vec<StaticDir>,
}

impl View for StaticRouteTable {
    type V = Seq<Mapping>;

    closed spec fn view(&self) -> Seq<Mapping> {
        Seq::new(self.dirs@.len(), |i: int| (self.dirs@[i].prefix@, self.dirs@[i].dir@))
    }
}

impl StaticRouteTable {
    /// A table without directories.
    pub fn new() -> (table: Self)
        ensures
            table@ == Seq::<Mapping>::empty(),
    {
        let table = StaticRouteTable { dirs: Vec::new() };
        assert(table@ =~= Seq::<Mapping>::empty());
        table
    }

    /// Serves the files of `dir` under the prefix `path`. Mappings added
    /// earlier go first.
    pub fn add_static_dir(&mut self, path: &str, dir: &str)
        ensures
            final(self)@ == old(self)@.push((path@, dir@)),
    {
        self.dirs.push(StaticDir { prefix: to_chars(path), dir: dir.to_owned() });
        assert(self@ =~= old(self)@.push((path@, dir@)));
    }

    /// The file that `path` names, if it lies under a prefix.
    pub fn resolve(&self, path: &str) -> (file: Option<String>)
        ensures
            static_file(self@, path@) == match file {
                Some(f) => Some(f@),
                None => None,
            },
    {
        let chars = to_chars(path);
        let p = chars.as_slice();
        let mut i: usize = 0;
        while i < self.dirs.len()
            invariant
                0 <= i <= self.dirs@.len(),
                self@.len() == self.dirs@.len(),
                p@ == path@,
                forall|j: int| 0 <= j < i ==> !under_prefix(#[trigger] self@[j].0, path@),
            decreases self.dirs@.len() - i,
        {
            let prefix = self.dirs[i].prefix.as_slice();
            let n: usize = prefix.len();
            assert(prefix@ == self@[i as int].0);
            if n < p.len() && starts_with(p, prefix) && p[n] == '/' {
                let rest = slice_subrange(p, n + 1, p.len());
                let mut file = self.dirs[i].dir.clone();
                file.push('/');
                let tail = text_of(rest);
                file.append(tail.as_str());
                proof {
                    assert(rest@ =~= path@.skip(n + 1));
                    assert(file@ =~= file_below(self@[i as int].1, self@[i as int].0, path@));
                    assert(is_first_mapping(self@, path@, i as int));
                    lemma_static_file_is(self@, path@, i as int);
                }
                return Some(file);
            }
            i = i + 1;
        }
        None
    }
}

} // verus!
