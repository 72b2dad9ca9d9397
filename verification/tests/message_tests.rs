use patchkit::parse::ParseError;
use patchkit::unified::{Error, FileEntry, MalformedHunkHeader, MalformedLine, PatchConflict};
use patchkit::ApplyError;

#[test]
fn apply_errors_in_words() {
    assert_eq!(
        ApplyError::Conflict("line 3".to_string()).message(),
        "Conflict: line 3"
    );
    assert_eq!(ApplyError::Unapplyable.message(), "Patch unapplyable");
}

#[test]
fn parse_errors_of_patches_in_words() {
    assert_eq!(
        Error::BinaryFiles(b"a.png".to_vec(), b"b.png".to_vec()).message(),
        "Binary files a.png and b.png differ"
    );
    assert_eq!(
        Error::PatchSyntax("No input", vec![]).message(),
        "Patch syntax error: No input in []"
    );
    assert_eq!(
        Error::PatchSyntax("missing newline", b"ab\n".to_vec()).message(),
        "Patch syntax error: missing newline in [97, 98, 10]"
    );
    assert_eq!(
        Error::PatchSyntax("Invalid hunk line", vec![0, 255]).message(),
        "Patch syntax error: Invalid hunk line in [0, 255]"
    );
    assert_eq!(
        Error::MalformedPatchHeader("No orig name", b"garbage\n".to_vec()).message(),
        "Malformed patch header: No orig name in garbage\n"
    );
    assert_eq!(
        Error::MalformedHunkHeader("bad".to_string(), b"@@ x\n".to_vec()).message(),
        "Malformed hunk header: bad in @@ x\n"
    );
    assert_eq!(
        Error::MalformedPatchHeader("No mod line", vec![b'a', 0xff, b'b']).message(),
        "Malformed patch header: No mod line in a\u{fffd}b"
    );
}

#[test]
fn malformed_lines_and_headers_in_words() {
    assert_eq!(
        MalformedLine(b"x\n".to_vec()).message(),
        "Malformed line: [120, 10]"
    );
    assert_eq!(MalformedLine(vec![]).message(), "Malformed line: []");
    assert_eq!(
        MalformedHunkHeader("Does not match format.", b"@@ bad\n".to_vec()).message(),
        "Malformed hunk header: Does not match format.: @@ bad\n"
    );
}

#[test]
fn conflicts_in_words() {
    let conflict = PatchConflict {
        line_no: 12,
        orig_line: b"a\"b\n".to_vec(),
        patch_line: vec![b'c', 0xff],
    };
    assert_eq!(
        conflict.message(),
        "Patch conflict at orig line 12: orig: \"a\\\"b\\n\", patch: \"c\u{fffd}\""
    );
}

#[test]
fn errors_of_a_syntax_tree_in_words() {
    assert_eq!(ParseError(vec![]).message(), "");
    assert_eq!(ParseError(vec!["one".to_string()]).message(), "one");
    assert_eq!(
        ParseError(vec!["one".to_string(), "two".to_string(), "".to_string()]).message(),
        "one\ntwo\n"
    );
}

#[test]
fn entries_of_a_stream_as_they_are_shown() {
    assert_eq!(
        FileEntry::Junk(vec![b"a\n".to_vec(), b"b".to_vec()]).describe(),
        "Junk[\"a\\n\", \"b\"]"
    );
    assert_eq!(
        FileEntry::Meta(b"=== x\n".to_vec()).describe(),
        "Meta(\"=== x\\n\")"
    );
    assert_eq!(FileEntry::Patch(vec![]).describe(), "Patch[]");
    assert_eq!(
        FileEntry::Patch(vec![b"--- a\n".to_vec()]).describe(),
        "Patch[\"--- a\\n\"]"
    );
}
