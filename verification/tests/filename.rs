use source_reader::SourceReader;
use std::path::Path;

#[test]
fn local_path_gives_base_name() {
    let r = SourceReader::from_str("/a/b/file.txt");
    assert_eq!(r.filename(), Some(String::from("file.txt")));
}

#[test]
fn relative_local_path_gives_base_name() {
    let r = SourceReader::from_str("dir/inner/notes.md");
    assert_eq!(r.filename(), Some(String::from("notes.md")));
}

#[test]
fn bare_local_name_is_its_own_base_name() {
    let r = SourceReader::from_str("file.txt");
    assert_eq!(r.filename(), Some(String::from("file.txt")));
}

#[test]
fn local_trailing_separator_is_ignored() {
    let r = SourceReader::from_str("/a/b/");
    assert_eq!(r.filename(), Some(String::from("b")));
}

#[test]
fn local_trailing_dot_segment_is_ignored() {
    let r = SourceReader::from_str("a/.");
    assert_eq!(r.filename(), Some(String::from("a")));
}

#[test]
fn local_root_has_no_base_name() {
    let r = SourceReader::from_str("/");
    assert_eq!(r.filename(), None);
}

#[test]
fn local_dot_has_no_base_name() {
    let r = SourceReader::from_str(".");
    assert_eq!(r.filename(), None);
}

#[test]
fn local_parent_marker_has_no_base_name() {
    let r = SourceReader::from_str("..");
    assert_eq!(r.filename(), None);
    let r = SourceReader::from_str("a/..");
    assert_eq!(r.filename(), None);
}

#[test]
fn empty_local_path_has_no_base_name() {
    let r = SourceReader::local(String::new());
    assert_eq!(r.filename(), None);
}

#[test]
fn remote_url_gives_text_after_last_slash() {
    let r = SourceReader::from_str("https://example.com/dir/file.txt");
    assert_eq!(r.filename(), Some(String::from("file.txt")));
}

#[test]
fn remote_url_ending_in_slash_gives_empty_name() {
    let r = SourceReader::from_str("https://example.com/");
    assert_eq!(r.filename(), Some(String::new()));
}

#[test]
fn remote_query_string_is_kept_verbatim() {
    let r = SourceReader::from_str("https://example.com/dir/file.txt?x=1");
    assert_eq!(r.filename(), Some(String::from("file.txt?x=1")));
}

#[test]
fn remote_without_slash_gives_whole_text() {
    let r = SourceReader::Remote(String::from("nowhere"));
    assert_eq!(r.filename(), Some(String::from("nowhere")));
}

#[test]
fn stdin_has_no_filename() {
    let r = SourceReader::from_str("-");
    assert_eq!(r.filename(), None);
}

#[test]
fn dotfile_keeps_its_full_name() {
    let r = SourceReader::from_str("a/.hidden");
    assert_eq!(r.filename(), Some(String::from(".hidden")));
}

#[test]
fn non_ascii_local_name_survives() {
    let r = SourceReader::from_str("docs/naïve résumé.txt");
    assert_eq!(r.filename(), Some(String::from("naïve résumé.txt")));
}

#[test]
fn non_ascii_remote_name_survives() {
    let r = SourceReader::from_str("https://example.com/файл.txt");
    assert_eq!(r.filename(), Some(String::from("файл.txt")));
}

#[test]
fn base_name_agrees_with_native_path_reading() {
    let cases = [
        "/a/b/file.txt",
        "a/b/",
        "a/.",
        "a/.//",
        "./a",
        ".",
        "..",
        "/",
        "//",
        "//a",
        "",
        "a/..",
        "a/../",
        "/..",
        "...",
        "..b",
        "a.b.",
        "a/.hidden",
        "a//b",
        "x",
        "naïve/файл",
    ];
    for case in cases {
        let got = SourceReader::local(String::from(case)).filename();
        let want = Path::new(case)
            .file_name()
            .map(|n| String::from(n.to_str().unwrap()));
        assert_eq!(got, want, "path text: {:?}", case);
    }
}
