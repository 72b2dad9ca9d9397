use patchkit::edit::quilt::{self, SeriesFile};

#[test]
fn parse_test_parse_simple_patch() {
    let parse = quilt::parse("patch1.patch\n");
    assert!(parse.errors().is_empty());

    let series_file = parse.quilt_tree();
    let entries: Vec<_> = series_file.patch_entries();
    assert_eq!(entries.len(), 1);
    assert_eq!(entries[0].name(), Some("patch1.patch".to_string()));
}

#[test]
fn test_parse_patch_with_options() {
    let parse = quilt::parse("patch1.patch -p1 --reverse\n");
    assert!(parse.errors().is_empty());

    let series_file = parse.quilt_tree();
    let entries: Vec<_> = series_file.patch_entries();
    assert_eq!(entries.len(), 1);
    assert_eq!(entries[0].name(), Some("patch1.patch".to_string()));
    assert_eq!(entries[0].option_strings(), vec!["-p1", "--reverse"]);
}

#[test]
fn test_parse_comment() {
    let parse = quilt::parse("# This is a comment\n");
    assert!(parse.errors().is_empty());

    let series_file = parse.quilt_tree();
    let comments: Vec<_> = series_file.comment_lines();
    assert_eq!(comments.len(), 1);
    assert_eq!(comments[0].text(), "This is a comment");
}

#[test]
fn test_parse_mixed() {
    let parse = quilt::parse("patch1.patch\n# A comment\npatch2.patch -p1\n");
    assert!(parse.errors().is_empty());

    let series_file = parse.quilt_tree();
    let patches: Vec<_> = series_file.patch_entries();
    assert_eq!(patches.len(), 2);
    assert_eq!(patches[0].name(), Some("patch1.patch".to_string()));
    assert_eq!(patches[1].name(), Some("patch2.patch".to_string()));

    let comments: Vec<_> = series_file.comment_lines();
    assert_eq!(comments.len(), 1);
    assert_eq!(comments[0].text(), "A comment");
}

#[test]
fn parse_test_thread_safety() {
    let parse = quilt::parse("patch1.patch\n");
    let green = parse.green();

    // Should be able to clone the green node (Arc internally)
    let _green_clone = green.clone();

    // Note: Parse<SeriesFile> is not currently Send+Sync due to rowan implementation
    // but the green node itself can be cloned and shared
}
