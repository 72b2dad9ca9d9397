use patchkit::unified::{Hunk, HunkLine, UnifiedPatch};
use patchkit::quilt::{
    entry_from, find_common_patch_suffix, parse_line, MissingPatchName, QuiltPatch, Series,
    SeriesEntry,
};

#[test]
fn test_find_common_patch_suffix() {
    let names = vec![
        "0001-foo.patch",
        "0002-bar.patch",
        "0003-baz.patch",
        "0004-qux.patch",
    ];
    assert_eq!(find_common_patch_suffix(&names), Some(".patch"));
}

#[test]
fn test_find_common_patch_suffix_no_common_suffix() {
    let names = vec![
        "0001-foo.patch",
        "0002-bar.patch",
        "0003-baz.patch",
        "0004-qux",
    ];
    assert_eq!(find_common_patch_suffix(&names), Some(".patch"));
}

#[test]
fn test_find_common_patch_suffix_no_patches() {
    let names = vec![
        "README",
        "0001-foo.patch",
        "0002-bar.patch",
        "0003-baz.patch",
    ];
    assert_eq!(find_common_patch_suffix(&names), Some(".patch"));
}

#[test]
fn common_suffix_of_nothing() {
    assert_eq!(find_common_patch_suffix(&[]), None);
    assert_eq!(find_common_patch_suffix(&["series", "00list", "README.md"]), None);
    assert_eq!(find_common_patch_suffix(&["plain"]), Some(""));
    assert_eq!(find_common_patch_suffix(&["a.tar.gz", "b.tar.gz", "c.gz"]), Some(".tar.gz"));
}

fn three_patches() -> Series {
    let mut series = Series::new();
    series.append("0001-foo.patch", None);
    series.append("0002-bar.patch", Some(&["--reverse".to_string()]));
    series.append(
        "0003-baz.patch",
        Some(&["--reverse".to_string(), "--fuzz=3".to_string()]),
    );
    series
}

#[test]
fn test_series_write() {
    let series = three_patches();

    let mut writer = vec![];
    series.write(&mut writer).unwrap();
    let series = String::from_utf8(writer).unwrap();
    assert_eq!(
        series,
        "0001-foo.patch\n0002-bar.patch --reverse\n0003-baz.patch --reverse --fuzz=3\n"
    );
}

#[test]
fn test_series_remove() {
    let mut series = three_patches();

    series.remove("0002-bar.patch");

    let mut writer = vec![];
    series.write(&mut writer).unwrap();
    let series = String::from_utf8(writer).unwrap();
    assert_eq!(
        series,
        "0001-foo.patch\n0003-baz.patch --reverse --fuzz=3\n"
    );
}

#[test]
fn test_series_contains() {
    let series = three_patches();

    assert!(series.contains("0002-bar.patch"));
    assert!(!series.contains("0004-qux.patch"));
}

#[test]
fn test_series_patches() {
    let series = three_patches();

    let patches: Vec<_> = series.patches();
    assert_eq!(
        patches,
        &["0001-foo.patch", "0002-bar.patch", "0003-baz.patch"]
    );
}

#[test]
fn test_series_is_empty() {
    let series = Series::new();
    assert!(series.is_empty());

    let mut series = Series::new();
    series.append("0001-foo.patch", None);
    assert!(!series.is_empty());
}

#[test]
fn series_counts_patches_only() {
    let mut series = three_patches();
    series.entries.insert(1, SeriesEntry::Comment("a word".to_string()));
    assert_eq!(series.len(), 3);
    assert_eq!(series.iter().len(), 4);
    assert!(!series.contains("a word"));
    let mut writer = b"head\n".to_vec();
    series.write(&mut writer).unwrap();
    assert_eq!(
        writer,
        b"head\n0001-foo.patch\n# a word\n0002-bar.patch --reverse\n0003-baz.patch --reverse --fuzz=3\n"
    );
    series.remove("0001-foo.patch");
    assert_eq!(series.patches(), &["0002-bar.patch", "0003-baz.patch"]);
    assert_eq!(Series::default().len(), 0);
}

#[test]
fn quilt_patch_is_read_by_its_lines() {
    let patch = QuiltPatch {
        name: "fix.patch".to_string(),
        options: vec!["-p1".to_string()],
        patch: b"some words\nmore words".to_vec(),
    };
    assert_eq!(patch.name(), "fix.patch");
    assert_eq!(patch.options(), &["-p1".to_string()]);
    assert_eq!(patch.as_bytes(), b"some words\nmore words");
    // what is no patch gives no patch
    assert_eq!(patch.parse().unwrap(), vec![]);
    let patch = QuiltPatch {
        name: "x".to_string(),
        options: vec![],
        patch: b"--- a/file1\n+++ b/file1\n@@ -1,1 +1,1 @@\n-a\n+b\n".to_vec(),
    };
    assert_eq!(
        patch.parse().unwrap(),
        vec![UnifiedPatch {
            orig_name: b"a/file1".to_vec(),
            orig_ts: None,
            mod_name: b"b/file1".to_vec(),
            mod_ts: None,
            hunks: vec![Hunk {
                orig_pos: 1,
                orig_range: 1,
                mod_pos: 1,
                mod_range: 1,
                tail: None,
                lines: vec![
                    HunkLine::RemoveLine(b"a\n".to_vec()),
                    HunkLine::InsertLine(b"b\n".to_vec()),
                ],
            }],
        }]
    );
    // a header that lacks its line feed is not accepted
    let patch = QuiltPatch {
        name: "fix.patch".to_string(),
        options: vec![],
        patch: b"--- a".to_vec(),
    };
    assert_eq!(
        patch.parse().unwrap_err(),
        patchkit::unified::Error::PatchSyntax("missing newline", b"--- a".to_vec())
    );
}

fn lines_of(text: &str) -> Vec<String> {
    text.lines().map(|l| l.to_string()).collect()
}

#[test]
fn test_series_read() {
    let series = Series::read(&lines_of(
        r#"0001-foo.patch
# This is a comment
0002-bar.patch --reverse
0003-baz.patch --reverse --fuzz=3
"#,
    ));
    assert_eq!(series.len(), 3);
    assert_eq!(
        series.iter()[0],
        SeriesEntry::Patch {
            name: "0001-foo.patch".to_string(),
            options: vec![]
        }
    );
    assert_eq!(
        series.iter()[1],
        SeriesEntry::Comment("# This is a comment".to_string())
    );
    assert_eq!(
        series.iter()[2],
        SeriesEntry::Patch {
            name: "0002-bar.patch".to_string(),
            options: vec!["--reverse".to_string()]
        }
    );
    assert_eq!(
        series.iter()[3],
        SeriesEntry::Patch {
            name: "0003-baz.patch".to_string(),
            options: vec!["--reverse".to_string(), "--fuzz=3".to_string()]
        }
    );
}

#[test]
fn series_read_trims_lines_and_splits_words() {
    let series = Series::read(&lines_of("  a.patch \t -p1   -R  \n\t# note \n"));
    assert_eq!(
        series.iter(),
        &[
            SeriesEntry::Patch {
                name: "a.patch".to_string(),
                options: vec!["-p1".to_string(), "-R".to_string()]
            },
            SeriesEntry::Comment("# note".to_string()),
        ]
    );
}

#[test]
fn series_read_passes_over_blank_lines() {
    let series = Series::read(&lines_of("a.patch\n\n   \n# c\n\t\nb.patch -p1\n"));
    assert_eq!(
        series.iter(),
        &[
            SeriesEntry::Patch {
                name: "a.patch".to_string(),
                options: vec![]
            },
            SeriesEntry::Comment("# c".to_string()),
            SeriesEntry::Patch {
                name: "b.patch".to_string(),
                options: vec!["-p1".to_string()]
            },
        ]
    );
    assert!(Series::read(&lines_of("   \n")).iter().is_empty());
    assert!(Series::read(&lines_of("")).is_empty());
    // a line on its own that holds nothing names no patch
    assert_eq!(parse_line("   "), Err(MissingPatchName));
}

#[test]
fn entry_of_a_line_is_made_from_its_words() {
    assert_eq!(
        entry_from("x.patch -p0", &["x.patch", "-p0"]),
        Ok(SeriesEntry::Patch {
            name: "x.patch".to_string(),
            options: vec!["-p0".to_string()]
        })
    );
    assert_eq!(
        entry_from("#x.patch -p0", &["#x.patch", "-p0"]),
        Ok(SeriesEntry::Comment("#x.patch -p0".to_string()))
    );
    assert_eq!(entry_from("", &[]), Err(MissingPatchName));
    assert_eq!(
        parse_line(" \t y.patch\t--fuzz=3 "),
        Ok(SeriesEntry::Patch {
            name: "y.patch".to_string(),
            options: vec!["--fuzz=3".to_string()]
        })
    );
}

fn stripped(path: &str, prefix: usize) -> std::path::PathBuf {
    let names: Vec<String> = std::path::Path::new(path)
        .components()
        .map(|c| c.as_os_str().to_string_lossy().into_owned())
        .collect();
    let slices: Vec<&str> = names.iter().map(|s| s.as_str()).collect();
    patchkit::strip_components(&slices, prefix).iter().collect()
}

#[test]
fn test_strip_prefix() {
    assert_eq!(std::path::PathBuf::from("b"), stripped("a/b", 1));
    assert_eq!(std::path::PathBuf::from("a/b"), stripped("a/b", 0));
    assert_eq!(std::path::PathBuf::from(""), stripped("a/b", 2));
}

#[test]
fn strip_components_leaves_what_is_behind() {
    assert_eq!(patchkit::strip_components(&["a", "b", "c"], 1), &["b", "c"]);
    assert_eq!(patchkit::strip_components(&["a", "b", "c"], 3), &[] as &[&str]);
    assert_eq!(patchkit::strip_components(&["a"], 7), &[] as &[&str]);
    assert_eq!(patchkit::strip_components(&[], 0), &[] as &[&str]);
}

#[test]
fn white_space_is_what_unicode_calls_so() {
    assert_eq!(
        parse_line("\u{a0}a.patch\u{3000}-p1\u{2003}\u{85}"),
        Ok(SeriesEntry::Patch {
            name: "a.patch".to_string(),
            options: vec!["-p1".to_string()]
        })
    );
    // a zero width space is no white space
    assert_eq!(
        parse_line("a\u{200b}b -R"),
        Ok(SeriesEntry::Patch {
            name: "a\u{200b}b".to_string(),
            options: vec!["-R".to_string()]
        })
    );
    assert_eq!(parse_line("\u{2028}\u{2029}\u{202f}\u{205f}\u{1680}"), Err(MissingPatchName));
    assert_eq!(
        parse_line("\u{b}\u{c}# c \r"),
        Ok(SeriesEntry::Comment("# c".to_string()))
    );
}
