use patchkit::ed::{parse_hunk_header, parse_hunk_line, splitlines, EdHunk, EdPatch};
use patchkit::{ApplyError, ContentPatch};

#[test]
fn test_parse_hunk_header() {
    assert_eq!(parse_hunk_header(b"5a10\n"), Some(('a', 5, 10)));
    assert_eq!(parse_hunk_header(b"5d10\n"), Some(('d', 5, 10)));
    assert_eq!(parse_hunk_header(b"5c10\n"), Some(('c', 5, 10)));
    assert_eq!(parse_hunk_header(b"5a\n"), None);
    assert_eq!(parse_hunk_header(b"a10\n"), None);
    assert_eq!(parse_hunk_header(b"5\n"), None);
    assert_eq!(parse_hunk_header(b"a\n"), None);
    assert_eq!(parse_hunk_header(b"\n"), None);
}

#[test]
fn test_apply_add() {
    let patch = EdPatch {
        hunks: vec![EdHunk::Add(1, 1, b"hello\n".to_vec())],
    };
    let data = &[&b"world\n"[..]][..];
    assert_eq!(patch.apply(data).unwrap(), b"world\nhello\n".to_vec());
    let patch = EdPatch {
        hunks: vec![EdHunk::Add(0, 0, b"hello\n".to_vec())],
    };
    assert_eq!(patch.apply(data).unwrap(), b"hello\nworld\n".to_vec());
}

#[test]
fn test_apply_remove() {
    let patch = EdPatch {
        hunks: vec![EdHunk::Remove(2, 2, b"world\n".to_vec())],
    };
    let data = &[&b"hello\n"[..], &b"world\n"[..]];
    assert_eq!(patch.apply(data).unwrap(), b"hello\n".to_vec());
}

#[test]
fn test_apply_change() {
    let patch = EdPatch {
        hunks: vec![EdHunk::Change(
            2,
            2,
            b"world\n".to_vec(),
            b"hello\n".to_vec(),
        )],
    };
    let data = &[&b"hello\n"[..], &b"world\n"[..]];
    assert_eq!(patch.apply(data).unwrap(), b"hello\nhello\n".to_vec());
}

#[test]
fn test_parse_patch() {
    let patch = b"5a10
> hello
5d10
< hello
5c10
< hello
---
> hello
";
    let patch = EdPatch::parse_patch(patch).unwrap();
    assert_eq!(
        patch,
        EdPatch {
            hunks: vec![
                EdHunk::Add(5, 10, b"hello\n".to_vec()),
                EdHunk::Remove(5, 10, b"hello\n".to_vec()),
                EdHunk::Change(5, 10, b"hello\n".to_vec(), b"hello\n".to_vec()),
            ]
        }
    );
}

#[test]
fn empty_patch_leaves_the_lines_as_they_are() {
    let patch = EdPatch { hunks: vec![] };
    let data = &[&b"one\n"[..], &b"two\n"[..], &b"three"[..]];
    assert_eq!(patch.apply(data).unwrap(), b"one\ntwo\nthree".to_vec());
    let none: [&[u8]; 0] = [];
    assert_eq!(patch.apply(&none).unwrap(), b"".to_vec());
    assert_eq!(patch.apply_exact(b"one\ntwo\n").unwrap(), b"one\ntwo\n");
    assert_eq!(EdPatch::parse_patch(b"").unwrap(), patch);
}

#[test]
fn apply_reports_what_it_finds() {
    let patch = EdPatch {
        hunks: vec![EdHunk::Remove(3, 3, b"x\n".to_vec())],
    };
    let data = &[&b"a\n"[..], &b"b\n"[..]];
    assert_eq!(patch.apply(data).unwrap_err(), "line 3 does not exist");
    let patch = EdPatch {
        hunks: vec![EdHunk::Change(2, 2, b"x\n".to_vec(), b"y\n".to_vec())],
    };
    assert_eq!(
        patch.apply(data).unwrap_err(),
        "line 2 does not match expected: \"b\\n\" != \"x\\n\""
    );
    match patch.apply_exact(b"a\nb\n") {
        Err(ApplyError::Conflict(text)) => {
            assert_eq!(text, "line 2 does not match expected: \"b\\n\" != \"x\\n\"")
        }
        other => panic!("expected a conflict, got {:?}", other),
    }
    let patch = EdPatch {
        hunks: vec![EdHunk::Remove(0, 0, b"a\n".to_vec())],
    };
    assert_eq!(patch.apply(data).unwrap_err(), "line 0 does not exist");
}

#[test]
fn hunks_apply_one_after_another() {
    let patch = EdPatch {
        hunks: vec![
            EdHunk::Remove(1, 1, b"a\n".to_vec()),
            EdHunk::Change(1, 1, b"b\n".to_vec(), b"B\n".to_vec()),
            EdHunk::Add(0, 0, b"first\n".to_vec()),
            EdHunk::Add(3, 3, b"last\n".to_vec()),
            EdHunk::Add(1, 1, b"second\n".to_vec()),
        ],
    };
    let data = &[&b"a\n"[..], &b"b\n"[..], &b"c\n"[..]];
    assert_eq!(
        patch.apply(data).unwrap(),
        b"first\nsecond\nB\nc\nlast\n".to_vec()
    );
}

#[test]
fn parse_patch_reports_the_line_it_cannot_read() {
    assert_eq!(EdPatch::parse_patch(b"nonsense\n").unwrap_err(), b"nonsense\n");
    assert_eq!(EdPatch::parse_patch(b"5a10\n").unwrap_err(), b"5a10\n");
    assert_eq!(EdPatch::parse_patch(b"5a10\n< x\n").unwrap_err(), b"< x\n");
    assert_eq!(EdPatch::parse_patch(b"5d10\n> x\n").unwrap_err(), b"> x\n");
    assert_eq!(EdPatch::parse_patch(b"5c10\n< x\n").unwrap_err(), b"< x\n");
    assert_eq!(EdPatch::parse_patch(b"5c10\n< x\n+++\n> y\n").unwrap_err(), b"+++\n");
    assert_eq!(EdPatch::parse_patch(b"5c10\n< x\n---\n").unwrap_err(), b"< x\n");
    assert_eq!(EdPatch::parse_patch(b"5c10\n< x\n---\nz\n").unwrap_err(), b"z\n");
    assert_eq!(EdPatch::parse_patch(b"x5a10\n> y\n").unwrap_err(), b"x5a10\n");
}

#[test]
fn hunk_line_and_lines() {
    assert_eq!(parse_hunk_line(b"> ", b"> text\n"), Some(&b"text\n"[..]));
    assert_eq!(parse_hunk_line(b"> ", b"< text\n"), None);
    assert_eq!(parse_hunk_line(b"> ", b">"), None);
    assert_eq!(splitlines(b"a\n\nb"), vec![&b"a\n"[..], &b"\n"[..], &b"b"[..]]);
    assert!(splitlines(b"").is_empty());
}

#[test]
fn try_apply_tests_before_it_applies() {
    let data = &[&b"a\n"[..], &b"b\n"[..]];
    let patch = EdPatch {
        hunks: vec![EdHunk::Add(2, 2, b"c\n".to_vec())],
    };
    assert!(patch.is_applicable(data));
    assert_eq!(patch.try_apply(data), Some(Ok(b"a\nb\nc\n".to_vec())));
    // an addition behind a line that the file does not have
    let patch = EdPatch {
        hunks: vec![EdHunk::Add(3, 3, b"c\n".to_vec())],
    };
    assert!(!patch.is_applicable(data));
    assert_eq!(patch.try_apply(data), None);
    // a hunk that names more than one line
    let patch = EdPatch {
        hunks: vec![EdHunk::Remove(1, 2, b"a\n".to_vec())],
    };
    assert_eq!(patch.try_apply(data), None);
    // a line that is not what the hunk expects is reported, not refused
    let patch = EdPatch {
        hunks: vec![
            EdHunk::Remove(1, 1, b"x\n".to_vec()),
            EdHunk::Remove(1, 2, b"a\n".to_vec()),
        ],
    };
    assert_eq!(
        patch.try_apply(data),
        Some(Err(
            "line 1 does not match expected: \"a\\n\" != \"x\\n\"".to_string()
        ))
    );
    assert_eq!(EdPatch { hunks: vec![] }.try_apply(data), Some(Ok(b"a\nb\n".to_vec())));
}
