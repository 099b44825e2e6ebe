use cpu_telemetry::assets::{asset_path, content_type, reply_for, serve, ContentType, Entry};
use include_dir::{Dir, DirEntry, File};

const INDEX: &[u8] = b"<!doctype html><title>cpu</title>";
const SCRIPT: &[u8] = b"console.log('cpu');";
const STYLE: &[u8] = b"body { margin: 0 }";
const FONT: &[u8] = &[0, 1, 0, 0, 0, 12, 128, 255];
const ICON: &[u8] = &[137, 80, 78, 71];

const ASSETS: &[DirEntry<'static>] = &[
    DirEntry::File(File::new("assets/app.js", SCRIPT)),
    DirEntry::File(File::new("assets/app.css", STYLE)),
    DirEntry::File(File::new("assets/mono.ttf", FONT)),
    DirEntry::File(File::new("assets/icon.png", ICON)),
    DirEntry::File(File::new("assets/vendor.min.js", SCRIPT)),
];

const ROOT: &[DirEntry<'static>] = &[
    DirEntry::File(File::new("index.html", INDEX)),
    DirEntry::File(File::new("LICENSE", b"MIT")),
    DirEntry::Dir(Dir::new("assets", ASSETS)),
];

const BUNDLE: Dir<'static> = Dir::new("", ROOT);

#[test]
fn root_asks_for_the_index_document() {
    assert_eq!(asset_path("/"), Some("index.html"));
}

#[test]
fn asset_path_is_the_request_path_without_its_slash() {
    assert_eq!(asset_path("/index.html"), Some("index.html"));
    assert_eq!(asset_path("/assets/app.js"), Some("assets/app.js"));
    assert_eq!(asset_path("//"), Some("/"));
    assert_eq!(asset_path("/\u{e9}t\u{e9}.html"), Some("\u{e9}t\u{e9}.html"));
}

#[test]
fn request_path_without_a_leading_slash_asks_for_nothing() {
    assert_eq!(asset_path(""), None);
    assert_eq!(asset_path("index.html"), None);
    assert_eq!(asset_path("\u{e9}/"), None);
}

#[test]
fn content_type_goes_by_the_extension() {
    assert_eq!(content_type("index.html"), Some(ContentType::Html));
    assert_eq!(content_type("assets/app.js"), Some(ContentType::JavaScript));
    assert_eq!(content_type("assets/app.css"), Some(ContentType::Css));
    assert_eq!(content_type("assets/mono.ttf"), Some(ContentType::Font));
}

#[test]
fn content_type_goes_by_the_last_dot_only() {
    assert_eq!(content_type("assets/vendor.min.js"), Some(ContentType::JavaScript));
    assert_eq!(content_type("page.html.bak"), None);
    assert_eq!(content_type("v1.2/readme"), None);
    assert_eq!(content_type(".css"), Some(ContentType::Css));
}

#[test]
fn path_without_a_dot_is_its_own_extension() {
    assert_eq!(content_type("html"), Some(ContentType::Html));
    assert_eq!(content_type("ttf"), Some(ContentType::Font));
    assert_eq!(content_type("LICENSE"), None);
    assert_eq!(content_type(""), None);
}

#[test]
fn unknown_extensions_have_no_content_type() {
    assert_eq!(content_type("icon.png"), None);
    assert_eq!(content_type("index.htm"), None);
    assert_eq!(content_type("index.html5"), None);
    assert_eq!(content_type("index.HTML"), None);
    assert_eq!(content_type("trailing."), None);
    assert_eq!(content_type("app.j\u{e9}"), None);
}

#[test]
fn content_type_names() {
    assert_eq!(ContentType::Html.mime(), "text/html");
    assert_eq!(ContentType::JavaScript.mime(), "text/javascript");
    assert_eq!(ContentType::Css.mime(), "text/css");
    assert_eq!(ContentType::Font.mime(), "font/ttf");
}

#[test]
fn reply_for_a_file_carries_its_contents() {
    let reply = reply_for("assets/app.css", Entry::File(STYLE));
    assert_eq!(reply.status, 200);
    assert_eq!(reply.content_type, "text/css");
    assert_eq!(reply.body, STYLE);
}

#[test]
fn reply_for_a_missing_entry_is_not_found() {
    let reply = reply_for("index.html", Entry::Missing);
    assert_eq!(reply.status, 404);
    assert_eq!(reply.content_type, "text/text");
    assert_eq!(reply.body, b"404 Not Found");
}

#[test]
fn reply_for_a_directory_is_not_found() {
    let reply = reply_for("assets", Entry::Directory);
    assert_eq!(reply.status, 404);
    assert_eq!(reply.content_type, "text/text");
    assert_eq!(reply.body, b"404 Not Found");
}

#[test]
fn reply_for_a_file_of_unknown_type_is_an_error() {
    let reply = reply_for("assets/icon.png", Entry::File(ICON));
    assert_eq!(reply.status, 500);
    assert_eq!(reply.content_type, "text/text");
    assert_eq!(reply.body, b"500 Unknown Content Type");
}

#[test]
fn serve_sends_the_index_for_the_root() {
    let reply = serve(&BUNDLE, "/");
    assert_eq!(reply.status, 200);
    assert_eq!(reply.content_type, "text/html");
    assert_eq!(reply.body, INDEX);
}

#[test]
fn serve_sends_a_bundled_file() {
    let reply = serve(&BUNDLE, "/assets/app.js");
    assert_eq!(reply.status, 200);
    assert_eq!(reply.content_type, "text/javascript");
    assert_eq!(reply.body, SCRIPT);

    let reply = serve(&BUNDLE, "/assets/mono.ttf");
    assert_eq!(reply.status, 200);
    assert_eq!(reply.content_type, "font/ttf");
    assert_eq!(reply.body, FONT);

    let reply = serve(&BUNDLE, "/index.html");
    assert_eq!(reply.status, 200);
    assert_eq!(reply.body, INDEX);
}

#[test]
fn serve_answers_not_found_for_what_is_not_bundled() {
    for request in ["/missing.html", "/assets/missing.js", "/app.js", "/index.html/x"] {
        let reply = serve(&BUNDLE, request);
        assert_eq!(reply.status, 404);
        assert_eq!(reply.content_type, "text/text");
        assert_eq!(reply.body, b"404 Not Found");
    }
}

#[test]
fn serve_answers_not_found_for_a_directory() {
    let reply = serve(&BUNDLE, "/assets");
    assert_eq!(reply.status, 404);
    assert_eq!(reply.content_type, "text/text");
    assert_eq!(reply.body, b"404 Not Found");
}

#[test]
fn serve_answers_not_found_without_a_leading_slash() {
    for request in ["", "index.html", "assets/app.js"] {
        let reply = serve(&BUNDLE, request);
        assert_eq!(reply.status, 404);
        assert_eq!(reply.body, b"404 Not Found");
    }
}

#[test]
fn serve_answers_with_an_error_for_an_unknown_extension() {
    for request in ["/assets/icon.png", "/LICENSE"] {
        let reply = serve(&BUNDLE, request);
        assert_eq!(reply.status, 500);
        assert_eq!(reply.content_type, "text/text");
        assert_eq!(reply.body, b"500 Unknown Content Type");
    }
}

#[test]
fn serve_from_an_empty_bundle_finds_nothing() {
    let empty = Dir::new("", &[]);
    assert_eq!(serve(&empty, "/").status, 404);
    assert_eq!(serve(&empty, "/index.html").status, 404);
}

#[test]
fn serve_finds_a_file_under_any_spelling_of_its_path() {
    let reply = serve(&BUNDLE, "/assets//app.css");
    assert_eq!(reply.status, 200);
    assert_eq!(reply.content_type, "text/css");
    assert_eq!(reply.body, STYLE);
    assert_eq!(serve(&BUNDLE, "/assets/").status, 404);
}
