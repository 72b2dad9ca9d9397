use patchkit::unified::{
    difference_index, get_patch_names, iter_exact_patched_from_hunks, iter_file_patch, iter_hunks,
    iter_lines_handle_nl, parse_patch, parse_patches, parse_range, splitlines,
    try_lines_handle_nl, BinaryPatch, Error, FileEntry, Hunk, HunkLine, MalformedHunkHeader,
    MalformedLine, PlainOrBinaryPatch, UnifiedPatch,
};
use patchkit::{ApplyError, ContentPatch, SingleFilePatch};

fn to_lines(lines: &[&str]) -> Vec<Vec<u8>> {
    lines.iter().map(|l| l.as_bytes().to_vec()).collect()
}

fn splitlines_simple() {
    let data = b"line 1\nline 2\nline 3\n";
    let lines: Vec<&[u8]> = splitlines(data);
    assert_eq!(
        lines,
        vec![
            "line 1\n".as_bytes(),
            "line 2\n".as_bytes(),
            "line 3\n".as_bytes()
        ]
    );
}

fn get_patch_names_simple() {
    let lines = [
        &b"--- baz	2009-10-14 19:49:59 +0000\n"[..],
        &b"+++ quxx	2009-10-14 19:51:00 +0000\n"[..],
    ];
    let (old, new) = get_patch_names(&lines).unwrap();
    assert_eq!(
        old,
        (b"baz".to_vec(), Some(b"2009-10-14 19:49:59 +0000".to_vec()))
    );
    assert_eq!(
        new,
        (
            b"quxx".to_vec(),
            Some(b"2009-10-14 19:51:00 +0000".to_vec())
        )
    );
}

const SIMPLE: [&str; 7] = [
    "--- orig-3	2005-09-23 16:23:20.000000000 -0500\n",
    "+++ mod-3	2005-09-23 16:23:38.000000000 -0500\n",
    "@@ -1,3 +1,4 @@\n",
    "+First line change\n",
    " # Copyright (C) 2004, 2005 Aaron Bentley\n",
    " # <aaron.bentley@utoronto.ca>\n",
    " #\n",
];

fn iter_file_patch_simple() {
    let lines = SIMPLE;
    let entries = iter_file_patch(&to_lines(&lines))
        .into_iter()
        .collect::<Result<Vec<_>, _>>()
        .unwrap();
    assert_eq!(entries, vec![FileEntry::Patch(to_lines(&lines))]);
}

fn parse_patches_simple() {
    let lines = SIMPLE;
    let patches = parse_patches(&to_lines(&lines));
    assert_eq!(patches.len(), 1);
}

#[test]
fn unified_test_simple() {
    splitlines_simple();
    get_patch_names_simple();
    iter_file_patch_simple();
    parse_patches_simple();
}

#[test]
fn test_no_trailing() {
    let data = b"line 1\nline 2\nline 3";
    let lines: Vec<&[u8]> = splitlines(data);
    assert_eq!(
        lines,
        vec![&b"line 1\n"[..], &b"line 2\n"[..], &b"line 3"[..]]
    );
}

#[test]
fn test_empty_line() {
    let data = b"line 1\n\nline 3\n";
    let lines: Vec<&[u8]> = splitlines(data);
    assert_eq!(lines, vec![&b"line 1\n"[..], &b"\n"[..], &b"line 3\n"[..]]);
}

#[test]
fn test_iter_lines_handle_nl() {
    let lines = vec![
        &b"line 1\n"[..],
        &b"line 2\n"[..],
        &b"line 3\n"[..],
        &b"line 4\n"[..],
        &b"\\ No newline at end of file\n"[..],
    ];
    let mut iter = iter_lines_handle_nl(&lines).into_iter();
    assert_eq!(iter.next(), Some("line 1\n".as_bytes()));
    assert_eq!(iter.next(), Some("line 2\n".as_bytes()));
    assert_eq!(iter.next(), Some("line 3\n".as_bytes()));
    assert_eq!(iter.next(), Some("line 4".as_bytes()));
    assert_eq!(iter.next(), None);
}

#[test]
fn test_binary() {
    let lines = [&b"Binary files qoo and bar differ\n"[..]];
    let e = get_patch_names(&lines).unwrap_err();
    assert_eq!(e, Error::BinaryFiles(b"qoo".to_vec(), b"bar".to_vec()));
}

#[test]
fn test_iter_hunks() {
    let lines = splitlines(
        br#"@@ -391,6 +391,8 @@
                 else:
                     assert isinstance(hunk_line, RemoveLine)
                 line_no += 1
+    for line in orig_lines:
+        yield line
                     
 import unittest
 import os.path

"#,
    );

    let hunks = iter_hunks(&lines).unwrap();

    let mut expected_hunk = Hunk::new(391, 6, 391, 8, None);
    expected_hunk.lines.extend([
        HunkLine::ContextLine(b"                else:\n".to_vec()),
        HunkLine::ContextLine(
            b"                    assert isinstance(hunk_line, RemoveLine)\n".to_vec(),
        ),
        HunkLine::ContextLine(b"                line_no += 1\n".to_vec()),
        HunkLine::InsertLine(b"    for line in orig_lines:\n".to_vec()),
        HunkLine::InsertLine(b"        yield line\n".to_vec()),
        HunkLine::ContextLine(b"                    \n".to_vec()),
        HunkLine::ContextLine(b"import unittest\n".to_vec()),
        HunkLine::ContextLine(b"import os.path\n".to_vec()),
    ]);

    assert_eq!(&expected_hunk, hunks.first().unwrap());
}

#[test]
fn test_just_context() {
    let orig_lines = vec![
        b"line 1\n".to_vec(),
        b"line 2\n".to_vec(),
        b"line 3\n".to_vec(),
        b"line 4\n".to_vec(),
    ];
    let mut hunk = Hunk::new(1, 1, 1, 1, None);
    hunk.lines.push(HunkLine::ContextLine(b"line 1\n".to_vec()));
    let hunks = vec![hunk];
    let result = iter_exact_patched_from_hunks(&orig_lines, &hunks).unwrap();
    assert_eq!(
        &result,
        &[
            b"line 1\n".to_vec(),
            b"line 2\n".to_vec(),
            b"line 3\n".to_vec(),
            b"line 4\n".to_vec(),
        ]
    );
}

#[test]
fn unified_test_insert() {
    let orig_lines = vec![
        b"line 1\n".to_vec(),
        b"line 2\n".to_vec(),
        b"line 3\n".to_vec(),
        b"line 4\n".to_vec(),
    ];
    let mut hunk = Hunk::new(1, 0, 1, 1, None);
    hunk.lines.push(HunkLine::InsertLine(b"line 0\n".to_vec()));
    hunk.lines.push(HunkLine::ContextLine(b"line 1\n".to_vec()));
    let hunks = vec![hunk];
    let result = iter_exact_patched_from_hunks(&orig_lines, &hunks).unwrap();
    assert_eq!(
        &result,
        &[
            b"line 0\n".to_vec(),
            b"line 1\n".to_vec(),
            b"line 2\n".to_vec(),
            b"line 3\n".to_vec(),
            b"line 4\n".to_vec(),
        ]
    );
}

#[test]
fn test_noise() {
    let lines = [
        "=== modified file 'test.txt'\n",
        "--- orig-3	2005-09-23 16:23:20.000000000 -0500\n",
        "+++ mod-3	2005-09-23 16:23:38.000000000 -0500\n",
        "@@ -1,3 +1,4 @@\n",
        "+First line change\n",
        " # Copyright (C) 2004, 2005 Aaron Bentley\n",
        " # <aaron.bentley@utoronto.ca>\n",
        " #\n",
    ];
    let entries = iter_file_patch(&to_lines(&lines))
        .into_iter()
        .collect::<Result<Vec<_>, _>>()
        .unwrap();
    assert_eq!(
        entries,
        vec![
            FileEntry::Meta(lines[0].as_bytes().to_vec()),
            FileEntry::Patch(to_lines(&lines[1..]))
        ]
    );
}

#[test]
fn test_allow_dirty() {
    let lines = [
        "Foo bar\n",
        "Bar blah\n",
        "--- orig-3	2005-09-23 16:23:20.000000000 -0500\n",
        "+++ mod-3	2005-09-23 16:23:38.000000000 -0500\n",
        "@@ -1,3 +1,4 @@\n",
        "+First line change\n",
        " # Copyright (C) 2004, 2005 Aaron Bentley\n",
        " # <aaron.bentley@utoronto.ca>\n",
        " #\n",
    ];
    let entries = iter_file_patch(&to_lines(&lines))
        .into_iter()
        .collect::<Result<Vec<_>, _>>()
        .unwrap();
    assert_eq!(
        entries,
        vec![
            FileEntry::Junk(to_lines(&lines[..2])),
            FileEntry::Patch(to_lines(&lines[2..]))
        ]
    );
}

fn check_as_bytes_empty_hunks() {
    let patch = UnifiedPatch {
        orig_name: b"foo".to_vec(),
        orig_ts: None,
        mod_name: b"bar".to_vec(),
        mod_ts: None,
        hunks: vec![],
    };
    assert_eq!(patch.as_bytes(), b"--- foo\n+++ bar\n");
}

fn check_as_bytes() {
    let patch = UnifiedPatch {
        orig_name: b"foo".to_vec(),
        orig_ts: None,
        mod_name: b"bar".to_vec(),
        mod_ts: None,
        hunks: vec![Hunk {
            orig_pos: 1,
            orig_range: 1,
            mod_pos: 2,
            mod_range: 1,
            tail: None,
            lines: vec![HunkLine::ContextLine(b"foo\n".to_vec())],
        }],
    };
    assert_eq!(patch.as_bytes(), b"--- foo\n+++ bar\n@@ -1 +2 @@\n foo\n");
}

fn check_parse_line() {
    assert_eq!(
        HunkLine::parse_line(&b" foo\n"[..]).unwrap(),
        HunkLine::ContextLine(b"foo\n".to_vec())
    );
    assert_eq!(
        HunkLine::parse_line(&b"-foo\n"[..]).unwrap(),
        HunkLine::RemoveLine(b"foo\n".to_vec())
    );
    assert_eq!(
        HunkLine::parse_line(&b"+foo\n"[..]).unwrap(),
        HunkLine::InsertLine(b"foo\n".to_vec())
    );
    assert_eq!(
        HunkLine::parse_line(&b"\n"[..]).unwrap(),
        HunkLine::ContextLine(b"\n".to_vec())
    );
    assert_eq!(
        HunkLine::parse_line(&b"aaaaa\n"[..]).unwrap_err(),
        MalformedLine(b"aaaaa\n".to_vec())
    );
}

fn check_line_as_bytes() {
    assert_eq!(
        HunkLine::ContextLine(b"foo\n".to_vec()).as_bytes(),
        b" foo\n"
    );
    assert_eq!(
        HunkLine::InsertLine(b"foo\n".to_vec()).as_bytes(),
        b"+foo\n"
    );
    assert_eq!(
        HunkLine::RemoveLine(b"foo\n".to_vec()).as_bytes(),
        b"-foo\n"
    );
}

fn check_line_as_bytes_no_nl() {
    assert_eq!(
        HunkLine::ContextLine(b"foo".to_vec()).as_bytes(),
        b" foo\n\\ No newline at end of file\n"
    );
}

fn check_parse_range() {
    assert_eq!((2, 1), parse_range(b"2").unwrap());
    assert_eq!((2, 1), parse_range(b"2,1").unwrap());
    parse_range(b"foo").unwrap_err();
}

#[test]
fn unified_test_as_bytes_empty_hunks() {
    check_as_bytes_empty_hunks();
}

#[test]
fn unified_test_as_bytes() {
    check_as_bytes();
}

#[test]
fn unified_test_parse_line() {
    check_parse_line();
}

#[test]
fn unified_as_bytes() {
    check_line_as_bytes();
}

#[test]
fn unified_as_bytes_no_nl() {
    check_line_as_bytes_no_nl();
}

#[test]
fn unified_parse_range_test() {
    check_parse_range();
}

#[test]
fn patch_test_as_bytes_empty_hunks() {
    check_as_bytes_empty_hunks();
}

#[test]
fn patch_test_as_bytes() {
    check_as_bytes();
}

#[test]
fn patch_test_parse_line() {
    check_parse_line();
}

#[test]
fn patch_as_bytes() {
    check_line_as_bytes();
}

#[test]
fn patch_as_bytes_no_nl() {
    check_line_as_bytes_no_nl();
}

#[test]
fn patch_parse_range_test() {
    check_parse_range();
}

fn check_from_header_test() {
    let hunk = Hunk::from_header(&b"@@ -1 +2 @@\n"[..]).unwrap();
    assert_eq!(hunk, Hunk::new(1, 1, 2, 1, None));
}

#[test]
fn unified_from_header_test() {
    check_from_header_test();
}

#[test]
fn patch_from_header_test() {
    check_from_header_test();
}

fn check_from_header_tail() {
    let hunk = Hunk::from_header(&b"@@ -1 +2 @@ function()\n"[..]).unwrap();
    assert_eq!(hunk, Hunk::new(1, 1, 2, 1, Some(b"function()".to_vec())));
}

#[test]
fn unified_from_header_tail() {
    check_from_header_tail();
}

#[test]
fn patch_from_header_tail() {
    check_from_header_tail();
}

fn check_test_valid_hunk_header() {
    let header = b"@@ -34,11 +50,6 @@\n";
    let hunk = Hunk::from_header(&header[..]).unwrap();
    assert_eq!(hunk.orig_pos, 34);
    assert_eq!(hunk.orig_range, 11);
    assert_eq!(hunk.mod_pos, 50);
    assert_eq!(hunk.mod_range, 6);
    assert_eq!(hunk.as_bytes(), &header[..]);
}

#[test]
fn unified_test_valid_hunk_header() {
    check_test_valid_hunk_header();
}

#[test]
fn patch_test_valid_hunk_header() {
    check_test_valid_hunk_header();
}

fn check_test_valid_hunk_header2() {
    let header = b"@@ -1 +0,0 @@\n";
    let hunk = Hunk::from_header(&header[..]).unwrap();
    assert_eq!(hunk.orig_pos, 1);
    assert_eq!(hunk.orig_range, 1);
    assert_eq!(hunk.mod_pos, 0);
    assert_eq!(hunk.mod_range, 0);
    assert_eq!(hunk.as_bytes(), header);
}

#[test]
fn unified_test_valid_hunk_header2() {
    check_test_valid_hunk_header2();
}

#[test]
fn patch_test_valid_hunk_header2() {
    check_test_valid_hunk_header2();
}

fn check_test_pdiff() {
    let header = b"@@ -407,7 +292,7 @@ bzr 0.18rc1  2007-07-10\n";
    let hunk = Hunk::from_header(header).unwrap();
    assert_eq!(&b"bzr 0.18rc1  2007-07-10"[..], hunk.tail.as_ref().unwrap());
    assert_eq!(&header[..], hunk.as_bytes());
}

#[test]
fn unified_test_pdiff() {
    check_test_pdiff();
}

#[test]
fn patch_test_pdiff() {
    check_test_pdiff();
}

fn assert_malformed_header(header: &[u8]) {
    let err = Hunk::from_header(header).unwrap_err();
    assert!(matches!(err, MalformedHunkHeader(..)));
}

fn check_test_invalid_header() {
    assert_malformed_header(&b" -34,11 +50,6 \n"[..]);
    assert_malformed_header(&b"@@ +50,6 -34,11 @@\n"[..]);
    assert_malformed_header(&b"@@ -34,11 +50,6 @@"[..]);
    assert_malformed_header(&b"@@ -34.5,11 +50,6 @@\n"[..]);
    assert_malformed_header(&b"@@-34,11 +50,6@@\n"[..]);
    assert_malformed_header(&b"@@ 34,11 50,6 @@\n"[..]);
    assert_malformed_header(&b"@@ -34,11 @@\n"[..]);
    assert_malformed_header(&b"@@ -34,11 +50,6.5 @@\n"[..]);
    assert_malformed_header(&b"@@ -34,11 +50,-6 @@\n"[..]);
}

#[test]
fn unified_test_invalid_header() {
    check_test_invalid_header();
}

#[test]
fn patch_test_invalid_header() {
    check_test_invalid_header();
}

const SINGLE_CHANGE: &[u8] = b"--- a/file1\n+++ b/file1\n@@ -1,1 +1,1 @@\n-a\n+b\n";

const SINGLE_CHANGE_WRITTEN: &[u8] = b"--- a/file1\n+++ b/file1\n@@ -1 +1 @@\n-a\n+b\n";

#[test]
fn single_hunk_with_a_single_change() {
    let lines = splitlines(SINGLE_CHANGE);
    let patch = UnifiedPatch::parse_patch(&lines).unwrap();
    assert_eq!(
        patch,
        UnifiedPatch {
            orig_name: b"a/file1".to_vec(),
            mod_name: b"b/file1".to_vec(),
            orig_ts: None,
            mod_ts: None,
            hunks: vec![Hunk {
                mod_pos: 1,
                mod_range: 1,
                orig_pos: 1,
                orig_range: 1,
                lines: vec![
                    HunkLine::RemoveLine(b"a\n".to_vec()),
                    HunkLine::InsertLine(b"b\n".to_vec()),
                ],
                tail: None
            },],
        }
    );
    assert_eq!(patch.oldname(), b"a/file1");
    assert_eq!(patch.newname(), b"b/file1");
    let applied = patch.apply_exact(&b"a\n"[..]).unwrap();
    assert_eq!(applied, b"b\n");
    assert_eq!(patch.as_bytes(), SINGLE_CHANGE_WRITTEN);
}

#[test]
fn line_without_newline_at_the_end() {
    let diff = b"--- a\n+++ b\n@@ -1 +1 @@\n-old\n+new\n\\ No newline at end of file\n";
    let lines = splitlines(diff);
    let patch = UnifiedPatch::parse_patch(&lines).unwrap();
    assert_eq!(
        patch.hunks[0].lines[1],
        HunkLine::InsertLine(b"new".to_vec())
    );
    assert_eq!(patch.hunks[0].as_bytes(), &diff[12..]);
    assert_eq!(patch.apply_exact(b"old\n").unwrap(), b"new");
}

#[test]
fn conflict_is_reported_with_its_line() {
    let orig = vec![b"keep\n".to_vec(), b"y\n".to_vec()];
    let mut hunk = Hunk::new(2, 1, 2, 0, None);
    hunk.lines.push(HunkLine::RemoveLine(b"x\n".to_vec()));
    let conflict = iter_exact_patched_from_hunks(&orig, &[hunk.clone()]).unwrap_err();
    assert_eq!(conflict.line_no, 2);
    assert_eq!(conflict.orig_line, b"y\n");
    assert_eq!(conflict.patch_line, b"x\n");
    assert_eq!(
        conflict.message(),
        "Patch conflict at orig line 2: orig: \"y\\n\", patch: \"x\\n\""
    );

    let mut patch = UnifiedPatch::new(b"a".to_vec(), None, b"b".to_vec(), None);
    patch.hunks.push(hunk);
    match patch.apply_exact(b"keep\ny\n") {
        Err(ApplyError::Conflict(text)) => assert_eq!(text, conflict.message()),
        other => panic!("expected a conflict, got {:?}", other),
    }
}

#[test]
fn conflict_when_file_ends_early() {
    let orig = vec![b"a\n".to_vec()];
    let mut hunk = Hunk::new(5, 0, 5, 1, None);
    hunk.lines.push(HunkLine::InsertLine(b"z\n".to_vec()));
    let conflict = iter_exact_patched_from_hunks(&orig, &[hunk]).unwrap_err();
    assert_eq!(conflict.line_no, 3);
    assert!(conflict.orig_line.is_empty());
    assert!(conflict.patch_line.is_empty());

    let mut hunk = Hunk::new(1, 2, 1, 2, None);
    hunk.lines.push(HunkLine::ContextLine(b"a\n".to_vec()));
    hunk.lines.push(HunkLine::ContextLine(b"b\n".to_vec()));
    let conflict = iter_exact_patched_from_hunks(&orig, &[hunk]).unwrap_err();
    assert_eq!(conflict.line_no, 2);
    assert!(conflict.orig_line.is_empty());
    assert_eq!(conflict.patch_line, b"b\n");
}

#[test]
fn apply_changes_line_count_by_the_ranges() {
    let diff = b"--- a\n+++ b\n@@ -1,2 +1,3 @@\n a\n+x\n b\n@@ -4,2 +5,1 @@\n-d\n e\n";
    let patch = UnifiedPatch::parse_patch(&splitlines(diff)).unwrap();
    let orig: Vec<Vec<u8>> = to_lines(&["a\n", "b\n", "c\n", "d\n", "e\n", "f\n"]);
    let out = iter_exact_patched_from_hunks(&orig, &patch.hunks).unwrap();
    assert_eq!(out, to_lines(&["a\n", "x\n", "b\n", "c\n", "e\n", "f\n"]));
    let growth: isize = patch
        .hunks
        .iter()
        .map(|h| h.mod_range as isize - h.orig_range as isize)
        .sum();
    assert_eq!(out.len() as isize, orig.len() as isize + growth);
}

#[test]
fn binary_patch_is_unapplyable() {
    let lines = [&b"Binary files a.png and b.png differ\n"[..]];
    let patch = parse_patch(&lines).unwrap();
    match &patch {
        PlainOrBinaryPatch::Binary(b) => {
            assert_eq!(b.0, b"a.png");
            assert_eq!(b.1, b"b.png");
        }
        PlainOrBinaryPatch::Plain(_) => panic!("expected a binary patch"),
    }
    assert_eq!(patch.oldname(), b"a.png");
    assert_eq!(patch.newname(), b"b.png");
    assert!(matches!(
        patch.apply_exact(b"anything"),
        Err(ApplyError::Unapplyable)
    ));
    assert_eq!(
        UnifiedPatch::parse_patch(&lines).unwrap_err(),
        Error::BinaryFiles(b"a.png".to_vec(), b"b.png".to_vec())
    );
}

#[test]
fn binary_names_are_greedy() {
    let lines = [&b"Binary files a and b and c differ differ\n"[..]];
    assert_eq!(
        get_patch_names(&lines).unwrap_err(),
        Error::BinaryFiles(b"a and b".to_vec(), b"c differ".to_vec())
    );
}

#[test]
fn header_errors() {
    let none: [&[u8]; 0] = [];
    assert_eq!(
        get_patch_names(&none).unwrap_err(),
        Error::PatchSyntax("No input", vec![])
    );
    assert_eq!(
        get_patch_names(&[&b"+++ x\n"[..]]).unwrap_err(),
        Error::MalformedPatchHeader("No orig name", b"+++ x\n".to_vec())
    );
    assert_eq!(
        get_patch_names(&[&b"--- x"[..]]).unwrap_err(),
        Error::PatchSyntax("missing newline", b"--- x".to_vec())
    );
    assert_eq!(
        get_patch_names(&[&b"--- x\n"[..]]).unwrap_err(),
        Error::PatchSyntax("No input", vec![])
    );
    assert_eq!(
        get_patch_names(&[&b"--- x\n"[..], &b"--- y\n"[..]]).unwrap_err(),
        Error::MalformedPatchHeader("No mod line", b"--- y\n".to_vec())
    );
    assert_eq!(
        get_patch_names(&[&b"--- x\n"[..], &b"+++ y"[..]]).unwrap_err(),
        Error::PatchSyntax("missing newline", b"y".to_vec())
    );
}

#[test]
fn hunk_errors() {
    let lines = [&b"@@ -1 +1 @@\n"[..], &b"?bad\n"[..]];
    assert_eq!(
        iter_hunks(&lines).unwrap_err(),
        Error::PatchSyntax("Invalid hunk line", b"?bad\n".to_vec())
    );
    let lines = [&b"@@ nonsense\n"[..]];
    assert_eq!(
        iter_hunks(&lines).unwrap_err(),
        Error::MalformedHunkHeader("Does not match format.".to_string(), b"@@ nonsense\n".to_vec())
    );
    let lines = [&b"@@ 1 +1 @@\n"[..]];
    assert_eq!(
        Hunk::from_header(lines[0]).unwrap_err(),
        MalformedHunkHeader("Positions don't start with + or -.", lines[0].to_vec())
    );
    assert_eq!(
        Hunk::from_header(b"@@ -x +1 @@\n").unwrap_err().0,
        "Original range is not a number."
    );
    assert_eq!(
        Hunk::from_header(b"@@ -1 +x @@\n").unwrap_err().0,
        "Modified range is not a number."
    );
    // a hunk that the end of the text cuts short is left out
    let lines = [&b"@@ -1,2 +1,2 @@\n"[..], &b" a\n"[..]];
    assert_eq!(iter_hunks(&lines).unwrap(), vec![]);
}

#[test]
fn stream_reports_a_malformed_header_and_goes_on() {
    let lines = to_lines(&["--- a\n", "+++ b\n", "@@ bad\n", "@@ -1 +1 @@\n", "-x\n", "+y\n"]);
    let entries = iter_file_patch(&lines);
    assert_eq!(entries.len(), 2);
    assert_eq!(
        entries[0],
        Err(Error::MalformedHunkHeader(
            "Malformed hunk header: Does not match format.: @@ bad\n".to_string(),
            b"@@ bad\n".to_vec()
        ))
    );
    assert_eq!(
        entries[1],
        Ok(FileEntry::Patch(to_lines(&["--- a\n", "+++ b\n", "@@ -1 +1 @@\n", "-x\n", "+y\n"])))
    );
}

#[test]
fn stream_skips_comments_and_splits_files() {
    let lines = to_lines(&[
        "# a comment\n",
        "*** stars\n",
        "--- a\n",
        "+++ b\n",
        "@@ -1 +1 @@\n",
        "-x\n",
        "+y\n",
        "--- c\n",
        "+++ d\n",
        "trailing\n",
    ]);
    let entries: Vec<FileEntry> = iter_file_patch(&lines)
        .into_iter()
        .collect::<Result<Vec<_>, _>>()
        .unwrap();
    assert_eq!(
        entries,
        vec![
            FileEntry::Patch(to_lines(&["--- a\n", "+++ b\n", "@@ -1 +1 @@\n", "-x\n", "+y\n"])),
            FileEntry::Patch(to_lines(&["--- c\n", "+++ d\n"])),
            FileEntry::Junk(to_lines(&["trailing\n"])),
        ]
    );
    let patches = UnifiedPatch::parse_patches(&lines).unwrap();
    assert_eq!(patches.len(), 2);
}

#[test]
fn shift_to_mod() {
    let mut hunk = Hunk::new(10, 3, 10, 3, None);
    hunk.lines.push(HunkLine::ContextLine(b"a\n".to_vec()));
    hunk.lines.push(HunkLine::RemoveLine(b"b\n".to_vec()));
    hunk.lines.push(HunkLine::InsertLine(b"B\n".to_vec()));
    hunk.lines.push(HunkLine::InsertLine(b"B2\n".to_vec()));
    hunk.lines.push(HunkLine::ContextLine(b"c\n".to_vec()));
    hunk.mod_range = 4;
    // before the hunk
    assert_eq!(hunk.shift_to_mod(0), Some(0));
    assert_eq!(hunk.shift_to_mod(8), Some(0));
    // behind the hunk
    assert_eq!(hunk.shift_to_mod(12), Some(1));
    assert_eq!(hunk.shift_to_mod(100), Some(1));
    // inside: the context line, the removed line, the last context line
    assert_eq!(hunk.shift_to_mod(9), Some(0));
    assert_eq!(hunk.shift_to_mod(10), None);
    assert_eq!(hunk.shift_to_mod(11), Some(1));
}

#[test]
fn header_round_trip() {
    for hunk in [
        Hunk::new(1, 1, 1, 1, None),
        Hunk::new(0, 0, 1, 12, None),
        Hunk::new(34, 11, 50, 6, Some(b"fn main() @@ here".to_vec())),
        Hunk::new(7, 1, 7, 0, Some(Vec::new())),
    ] {
        assert_eq!(Hunk::from_header(&hunk.get_header()).unwrap(), hunk);
    }
}

#[test]
fn folding_markers_needs_a_line_before() {
    let marker = &b"\\ No newline at end of file\n"[..];
    assert_eq!(try_lines_handle_nl(&[marker]), None);
    assert_eq!(try_lines_handle_nl(&[&b"a"[..], marker]), None);
    assert_eq!(
        try_lines_handle_nl(&[&b"a\n"[..], marker, &b"b\n"[..]]),
        Some(vec![&b"a"[..], &b"b\n"[..]])
    );
    assert_eq!(
        UnifiedPatch::parse_patch(&[marker]).unwrap_err(),
        Error::PatchSyntax("No newline indicator without previous line", marker.to_vec())
    );
}

#[test]
fn difference_index_finds_the_first_difference() {
    assert_eq!(difference_index(b"abc", b"abd"), Some(2));
    assert_eq!(difference_index(b"abc", b"abcd"), None);
    assert_eq!(difference_index(b"", b"x"), None);
    assert_eq!(difference_index(b"x", b"y"), Some(0));
}

#[test]
fn an_error_before_a_marker_that_cannot_be_folded_comes_first() {
    let marker = &b"\\ No newline at end of file\n"[..];
    let fault = Error::PatchSyntax("No newline indicator without previous line", marker.to_vec());
    // the header is read before the markers are reached
    assert_eq!(
        UnifiedPatch::parse_patch(&[&b"garbage\n"[..], &b"x\n"[..], marker, marker]).unwrap_err(),
        Error::MalformedPatchHeader("No orig name", b"garbage\n".to_vec())
    );
    // the second header line is still held back when the markers are reached
    assert_eq!(
        UnifiedPatch::parse_patch(&[&b"--- a\n"[..], &b"garbage\n"[..], marker, marker])
            .unwrap_err(),
        fault
    );
    // a line of a hunk that is no hunk line, read before the markers
    assert_eq!(
        UnifiedPatch::parse_patch(&[
            &b"--- a\n"[..],
            &b"+++ b\n"[..],
            &b"@@ -1 +1 @@\n"[..],
            &b"?bad\n"[..],
            &b"z\n"[..],
            marker,
            marker,
        ])
        .unwrap_err(),
        Error::PatchSyntax("Invalid hunk line", b"?bad\n".to_vec())
    );
    // a patch that is sound up to the markers
    assert_eq!(
        UnifiedPatch::parse_patch(&[
            &b"--- a\n"[..],
            &b"+++ b\n"[..],
            &b"@@ -1 +1 @@\n"[..],
            &b"-x\n"[..],
            &b"+y\n"[..],
            marker,
            marker,
        ])
        .unwrap_err(),
        fault
    );
    // a binary patch is reported from its first line
    assert_eq!(
        parse_patch(&[&b"Binary files a and b differ\n"[..], &b"x\n"[..], marker, marker]).unwrap(),
        PlainOrBinaryPatch::Binary(BinaryPatch(b"a".to_vec(), b"b".to_vec()))
    );
}

#[test]
fn stream_gives_its_entries_in_the_order_of_the_input() {
    let entries = iter_file_patch(&to_lines(&["junk\n", "=== meta\n"]));
    assert_eq!(
        entries,
        vec![
            Ok(FileEntry::Junk(vec![b"junk\n".to_vec()])),
            Ok(FileEntry::Meta(b"=== meta\n".to_vec())),
        ]
    );
    let entries = iter_file_patch(&to_lines(&[
        "--- a\n",
        "+++ b\n",
        "@@ -1 +1 @@\n",
        "-x\n",
        "=== next\n",
        "+y\n",
        "=== last\n",
    ]));
    assert_eq!(
        entries,
        vec![
            Ok(FileEntry::Patch(to_lines(&["--- a\n", "+++ b\n", "@@ -1 +1 @@\n", "-x\n"]))),
            Ok(FileEntry::Meta(b"=== next\n".to_vec())),
            Ok(FileEntry::Junk(to_lines(&["+y\n"]))),
            Ok(FileEntry::Meta(b"=== last\n".to_vec())),
        ]
    );
}

#[test]
fn hunks_hold_as_many_lines_as_their_header_counts() {
    // a context line where no line of the modified file is left to read
    let lines = [&b"@@ -1,1 +1,0 @@\n"[..], &b" x\n"[..]];
    assert_eq!(
        iter_hunks(&lines).unwrap_err(),
        Error::PatchSyntax("Invalid hunk line", b" x\n".to_vec())
    );
    let lines = [&b"@@ -1,1 +1,0 @@\n"[..], &b"-x\n"[..], &b"@@ -3 +2,2 @@\n"[..], &b" y\n"[..], &b"+z\n"[..]];
    let hunks = iter_hunks(&lines).unwrap();
    assert_eq!(hunks.len(), 2);
    for hunk in &hunks {
        let orig = hunk
            .lines
            .iter()
            .filter(|l| !matches!(l, HunkLine::InsertLine(_)))
            .count();
        let modi = hunk
            .lines
            .iter()
            .filter(|l| !matches!(l, HunkLine::RemoveLine(_)))
            .count();
        assert_eq!(orig, hunk.orig_range);
        assert_eq!(modi, hunk.mod_range);
    }
}

#[test]
fn patches_of_a_stream_hold_binary_patches() {
    let patches = UnifiedPatch::parse_patches(&to_lines(&["Binary files a and b differ\n"]));
    assert_eq!(
        patches.unwrap(),
        vec![PlainOrBinaryPatch::Binary(BinaryPatch(b"a".to_vec(), b"b".to_vec()))]
    );
    let patches = UnifiedPatch::parse_patches(&to_lines(&[
        "--- a\n",
        "+++ b\n",
        "@@ -1 +1 @@\n",
        "-x\n",
        "+y\n",
        "Binary files c and d differ\n",
    ]))
    .unwrap();
    assert_eq!(patches.len(), 2);
    assert_eq!(
        patches[1],
        PlainOrBinaryPatch::Binary(BinaryPatch(b"c".to_vec(), b"d".to_vec()))
    );
}
