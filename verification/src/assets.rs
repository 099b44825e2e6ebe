//! The asset side of the server: which bundled file a request path asks
//! for, and what is sent back.
//!
//! The bundle is an `include_dir::Dir`. Looking a path up in it is left to
//! that crate; everything around the lookup is decided here.

use include_dir::{Dir, DirEntry};
use vstd::prelude::*;
use vstd::string::{StrSliceExecFns, StringSliceAdditionalSpecFns};

verus! {

/// `include_dir::Dir`, a directory tree embedded in the binary. Nothing of
/// its inside is visible here.
#[verifier::external_type_specification]
#[verifier::external_body]
pub struct ExDir<'a>(Dir<'a>);

/// What a bundle holds, by path: `None` under the path of a directory, the
/// contents under the path of a file. A path is in the domain exactly if
/// `Dir::get_entry` finds an entry for it.
pub uninterp spec fn bundled(dir: Dir) -> Map<Seq<char>, Option<Seq<u8>>>;

/// What a lookup in the bundle found.
pub enum Entry<'a> {
    /// Nothing is bundled under the path.
    Missing,
    /// The path is that of a directory.
    Directory,
    /// The path is that of a file with these contents.
    File(&'a [u8]),
}

impl<'a> View for Entry<'a> {
    type V = Option<Option<Seq<u8>>>;

    open spec fn view(&self) -> Option<Option<Seq<u8>>> {
        match self {
            Entry::Missing => None,
            Entry::Directory => Some(None),
            Entry::File(contents) => Some(Some(contents@)),
        }
    }
}

/// What stands under `path` in a bundle with the contents `files`.
pub open spec fn looked_up(files: Map<Seq<char>, Option<Seq<u8>>>, path: Seq<char>) -> Option<
    Option<Seq<u8>>,
> {
    if files.contains_key(path) {
        Some(files[path])
    } else {
        None
    }
}

/// Calls `include_dir::Dir::get_entry` and, for a file, `File::contents`.
/// Trusted: the result is what `bundled` holds under `path`. The search
/// walks the embedded tree, which is finite, and compares paths; it neither
/// panics nor touches the file system.
#[verifier::external_body]
fn find<'a>(dir: &Dir<'a>, path: &str) -> (entry: Entry<'a>)
    ensures
        entry@ == looked_up(bundled(*dir), path@),
{
    match dir.get_entry(path) {
        None => Entry::Missing,
        Some(DirEntry::Dir(_)) => Entry::Directory,
        Some(DirEntry::File(file)) => Entry::File(file.contents()),
    }
}

/// The content types that the bundle's files are served as.
#[derive(Clone, Copy, Debug, PartialEq, Eq, Structural)]
pub enum ContentType {
    Html,
    JavaScript,
    Css,
    Font,
}

/// The name of a content type as it goes into the header.
pub open spec fn mime_of(content_type: ContentType) -> Seq<char> {
    match content_type {
        ContentType::Html => "text/html"@,
        ContentType::JavaScript => "text/javascript"@,
        ContentType::Css => "text/css"@,
        ContentType::Font => "font/ttf"@,
    }
}

impl ContentType {
    /// The name of the content type as it goes into the header.
    pub fn mime(self) -> (name: &'static str)
        ensures
            name@ == mime_of(self),
    {
        match self {
            ContentType::Html => "text/html",
            ContentType::JavaScript => "text/javascript",
            ContentType::Css => "text/css",
            ContentType::Font => "font/ttf",
        }
    }
}

/// What stands behind the last dot of `path`; all of `path` if it has none.
pub open spec fn extension(path: Seq<char>) -> Seq<char>
    decreases path.len(),
{
    if path.len() == 0 || path.last() == '.' {
        Seq::empty()
    } else {
        extension(path.drop_last()).push(path.last())
    }
}

/// The content type that a file is served as, by the extension of its
/// path; `None` for an extension that is not in the table.
pub open spec fn content_type_of(path: Seq<char>) -> Option<ContentType> {
    let ending = extension(path);
    if ending == "html"@ {
        Some(ContentType::Html)
    } else if ending == "js"@ {
        Some(ContentType::JavaScript)
    } else if ending == "css"@ {
        Some(ContentType::Css)
    } else if ending == "ttf"@ {
        Some(ContentType::Font)
    } else {
        None
    }
}

/// The path in the bundle that a request path asks for: the request path
/// without its leading slash, and the index document for the root. A
/// request path that does not begin with a slash asks for nothing.
pub open spec fn asset_path_of(request: Seq<char>) -> Option<Seq<char>> {
    if request.len() == 0 || request[0] != '/' {
        None
    } else if request.len() == 1 {
        Some("index.html"@)
    } else {
        Some(request.subrange(1, request.len() as int))
    }
}

/// A response: status code, content type and body.
pub struct Reply<'a> {
    pub status: u16,
    pub content_type: &'static str,
    pub body: &'a [u8],
}

/// The mathematical value of a `Reply`.
pub struct ReplyView {
    pub status: u16,
    pub content_type: Seq<char>,
    pub body: Seq<u8>,
}

impl<'a> View for Reply<'a> {
    type V = ReplyView;

    open spec fn view(&self) -> ReplyView {
        ReplyView { status: self.status, content_type: self.content_type@, body: self.body@ }
    }
}

/// The response to a request for something that is not a bundled file.
pub open spec fn not_found() -> ReplyView {
    ReplyView {
        status: 404,
        content_type: "text/text"@,
        body: "404 Not Found".spec_bytes(),
    }
}

/// The response to a request for a bundled file whose extension is not in
/// the content type table.
pub open spec fn unlabelled() -> ReplyView {
    ReplyView {
        status: 500,
        content_type: "text/text"@,
        body: "500 Unknown Content Type".spec_bytes(),
    }
}

/// The response to a request for `path`, once the lookup found `entry`.
pub open spec fn reply_of(path: Seq<char>, entry: Option<Option<Seq<u8>>>) -> ReplyView {
    match entry {
        Some(Some(contents)) => match content_type_of(path) {
            Some(content_type) => ReplyView {
                status: 200,
                content_type: mime_of(content_type),
                body: contents,
            },
            None => unlabelled(),
        },
        _ => not_found(),
    }
}

/// The response to the request path `request` from a bundle with the
/// contents `files`.
pub open spec fn response_to(
    files: Map<Seq<char>, Option<Seq<u8>>>,
    request: Seq<char>,
) -> ReplyView {
    match asset_path_of(request) {
        Some(path) => reply_of(path, looked_up(files, path)),
        None => not_found(),
    }
}

/// Whether `chars` spells `word`.
fn spells(chars: &Vec<char>, word: &str) -> (same: bool)
    ensures
        same == (chars@ == word@),
{
    let mut matched: usize = 0;
    for c in it: word.chars()
        invariant
            it.seq() == word@,
            matched == it.index(),
            matched <= chars@.len(),
            chars@.take(matched as int) == word@.take(matched as int),
    {
        if matched >= chars.len() || chars[matched] != c {
            return false;
        }
        assert(chars@.take(matched + 1) =~= chars@.take(matched as int).push(c));
        assert(word@.take(matched + 1) =~= word@.take(matched as int).push(c));
        matched = matched + 1;
    }
    assert(word@.take(word@.len() as int) =~= word@);
    assert(chars@.take(chars@.len() as int) =~= chars@);
    matched == chars.len()
}

/// The content type that the file at `path` is served as, or `None` if the
/// table has no entry for its extension.
pub fn content_type(path: &str) -> (found: Option<ContentType>)
    ensures
        found == content_type_of(path@),
{
    let mut ending: Vec<char> = Vec::new();
    for c in it: path.chars()
        invariant
            it.seq() == path@,
            ending@ == extension(path@.take(it.index() as int)),
    {
        assert(path@.take(it.index() + 1).drop_last() =~= path@.take(it.index() as int));
        if c == '.' {
            ending.clear();
        } else {
            ending.push(c);
        }
    }
    assert(path@.take(path@.len() as int) =~= path@);
    if spells(&ending, "html") {
        Some(ContentType::Html)
    } else if spells(&ending, "js") {
        Some(ContentType::JavaScript)
    } else if spells(&ending, "css") {
        Some(ContentType::Css)
    } else if spells(&ending, "ttf") {
        Some(ContentType::Font)
    } else {
        None
    }
}

/// The path in the bundle that the request path `request` asks for.
pub fn asset_path<'r>(request: &'r str) -> (path: Option<&'r str>)
    ensures
        match path {
            Some(path) => asset_path_of(request@) == Some(path@),
            None => asset_path_of(request@) is None,
        },
{
    let length = request.unicode_len();
    if length == 0 || request.get_char(0) != '/' {
        None
    } else if length == 1 {
        Some("index.html")
    } else {
        Some(request.substring_char(1, length))
    }
}

/// The response to a request for `path`, once the lookup found `entry`:
/// a bundled file is sent with the content type of its extension; a file
/// whose extension the table does not know is answered with an error, and
/// anything else as not found.
pub fn reply_for<'a>(path: &str, entry: Entry<'a>) -> (reply: Reply<'a>)
    ensures
        reply@ == reply_of(path@, entry@),
{
    match entry {
        Entry::File(contents) => match content_type(path) {
            Some(content_type) => Reply {
                status: 200,
                content_type: content_type.mime(),
                body: contents,
            },
            None => Reply {
                status: 500,
                content_type: "text/text",
                body: "500 Unknown Content Type".as_bytes(),
            },
        },
        _ => Reply { status: 404, content_type: "text/text", body: "404 Not Found".as_bytes() },
    }
}

/// The response to the request path `request`, served from `dir`.
pub fn serve<'a>(dir: &Dir<'a>, request: &str) -> (reply: Reply<'a>)
    ensures
        reply@ == response_to(bundled(*dir), request@),
{
    match asset_path(request) {
        Some(path) => reply_for(path, find(dir, path)),
        None => Reply { status: 404, content_type: "text/text", body: "404 Not Found".as_bytes() },
    }
}

} // verus!
