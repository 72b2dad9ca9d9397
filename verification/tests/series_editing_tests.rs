use patchkit::edit::quilt::lex::SyntaxKind;
use patchkit::edit::quilt::{self};
use patchkit::edit::builder::TreeBuilder;
use patchkit::parse::{AstNode, TextRange};

fn rendered(series: &quilt::SeriesFile) -> String {
    series.syntax().text()
}

#[test]
fn rename_keeps_place_and_options() {
    let parsed = quilt::parse("a.patch\nb.patch -p1 --fuzz=2\nc.patch\n");
    let mut series = parsed.quilt_tree_mut();
    assert!(series.rename("b.patch", "renamed.patch"));
    assert_eq!(rendered(&series), "a.patch\nrenamed.patch -p1 --fuzz=2\nc.patch\n");
    assert_eq!(series.position("renamed.patch"), Some(1));
    assert!(!series.contains("b.patch"));
}

#[test]
fn rename_of_missing_patch_changes_nothing() {
    let parsed = quilt::parse("a.patch\n# note\n");
    let mut series = parsed.quilt_tree_mut();
    assert!(!series.rename("missing.patch", "x.patch"));
    assert_eq!(rendered(&series), "a.patch\n# note\n");
}

#[test]
fn move_to_front_and_back() {
    let parsed = quilt::parse("a.patch\nb.patch -p2\nc.patch\n");
    let mut series = parsed.quilt_tree_mut();
    assert!(series.move_to("b.patch", 0));
    assert_eq!(rendered(&series), "b.patch -p2\na.patch\nc.patch\n");
    assert!(series.move_to("b.patch", 5));
    assert_eq!(rendered(&series), "a.patch\nc.patch\nb.patch -p2\n");
    assert!(!series.move_to("missing.patch", 0));
    assert_eq!(rendered(&series), "a.patch\nc.patch\nb.patch -p2\n");
}

#[test]
fn insert_comment_counts_all_entries() {
    let parsed = quilt::parse("a.patch\n# first\nb.patch\n");
    let mut series = parsed.quilt_tree_mut();
    series.insert_comment(2, "before b");
    assert_eq!(rendered(&series), "a.patch\n# first\n# before b\nb.patch\n");
    series.insert_comment(0, "top");
    assert_eq!(rendered(&series), "# top\na.patch\n# first\n# before b\nb.patch\n");
    series.insert_comment(99, "end");
    assert_eq!(
        rendered(&series),
        "# top\na.patch\n# first\n# before b\nb.patch\n# end\n"
    );
}

#[test]
fn set_options_replaces_the_options() {
    let parsed = quilt::parse("a.patch -p1\nb.patch\n");
    let mut series = parsed.quilt_tree_mut();
    assert!(series.set_options("a.patch", &["-p2", "-R"]));
    assert!(series.set_options("b.patch", &["-p0"]));
    assert!(!series.set_options("c.patch", &["-p0"]));
    assert_eq!(rendered(&series), "a.patch -p2 -R\nb.patch -p0\n");
}

#[test]
fn reorder_needs_known_names() {
    let parsed = quilt::parse("a.patch\n# note\nb.patch -p1\nc.patch\n");
    let mut series = parsed.quilt_tree_mut();
    let wanted = vec![
        "c.patch".to_string(),
        "a.patch".to_string(),
        "b.patch".to_string(),
    ];
    assert!(series.reorder(&wanted));
    assert_eq!(
        rendered(&series),
        "c.patch\n# note\na.patch\nb.patch -p1\n"
    );
    let names: Vec<_> = series
        .patch_entries()
        .into_iter()
        .map(|p| p.name().unwrap())
        .collect();
    assert_eq!(names, vec!["c.patch", "a.patch", "b.patch"]);
    let unknown = vec!["a.patch".to_string(), "missing.patch".to_string()];
    assert!(!series.reorder(&unknown));
    assert_eq!(
        rendered(&series),
        "c.patch\n# note\na.patch\nb.patch -p1\n"
    );
    let names: Vec<_> = series
        .patch_entries()
        .into_iter()
        .map(|p| p.name().unwrap())
        .collect();
    assert_eq!(names, vec!["c.patch", "a.patch", "b.patch"]);
}

#[test]
fn comment_entries_give_their_text() {
    let parsed = quilt::parse("# Security fixes\nfix.patch\n#\n");
    let series = parsed.quilt_tree();
    let entries = series.entries();
    assert_eq!(entries.len(), 3);
    let first = entries[0].as_comment_line().unwrap();
    assert_eq!(first.text(), "Security fixes");
    assert_eq!(first.full_text(), "# Security fixes\n");
    assert!(entries[0].as_patch_entry().is_none());
    assert!(entries[1].as_comment_line().is_none());
    assert_eq!(
        entries[1].as_patch_entry().unwrap().name(),
        Some("fix.patch".to_string())
    );
    let last = entries[2].as_comment_line().unwrap();
    assert_eq!(last.text(), "");
    assert_eq!(last.full_text(), "#\n");
}

#[test]
fn root_node_of_a_parse_covers_the_text() {
    let text = "a.patch -p1\n\n# note\n";
    let parsed = quilt::parse(text);
    let root = parsed.quilt_root_mut();
    assert_eq!(root.text(), text);
    assert_eq!(root.kind_raw(), SyntaxKind::ROOT.to_raw());
}

#[test]
fn tree_of_a_series_has_the_shape_of_its_lines() {
    let parsed = quilt::parse("\na.patch -p1\n# c\n");
    let root = parsed.quilt_root_mut();
    let top = root.children_with_tokens();
    let kinds: Vec<u16> = top.iter().map(|e| e.kind_raw()).collect();
    assert_eq!(
        kinds,
        vec![
            SyntaxKind::NEWLINE.to_raw(),
            SyntaxKind::SERIES_ENTRY.to_raw(),
            SyntaxKind::SERIES_ENTRY.to_raw(),
        ]
    );
    let entry = top[1].clone().into_node().unwrap();
    let patch = entry
        .child_of_kind(SyntaxKind::PATCH_ENTRY.to_raw())
        .unwrap();
    let parts: Vec<u16> = patch
        .children_with_tokens()
        .iter()
        .map(|e| e.kind_raw())
        .collect();
    assert_eq!(
        parts,
        vec![
            SyntaxKind::PATCH_NAME.to_raw(),
            SyntaxKind::OPTIONS.to_raw(),
            SyntaxKind::NEWLINE.to_raw(),
        ]
    );
    let options = patch
        .child_of_kind(SyntaxKind::OPTIONS.to_raw())
        .unwrap();
    let inside: Vec<u16> = options
        .children_with_tokens()
        .iter()
        .map(|e| e.kind_raw())
        .collect();
    assert_eq!(
        inside,
        vec![
            SyntaxKind::SPACE.to_raw(),
            SyntaxKind::OPTION_ITEM.to_raw(),
        ]
    );
    assert!(entry
        .child_of_kind(SyntaxKind::COMMENT_LINE.to_raw())
        .is_none());
}

#[test]
fn a_line_that_is_no_entry_is_an_error_and_stays() {
    let text = "-p1 stray\na.patch\n";
    let parsed = quilt::parse(text);
    assert_eq!(parsed.errors().len(), 1);
    assert_eq!(parsed.errors()[0], "Expected patch name or comment");
    assert!(!parsed.ok());
    assert_eq!(parsed.quilt_root_mut().text(), text);
    let clean = quilt::parse("a.patch\n# c\n\n");
    assert!(clean.ok());
    assert_eq!(clean.errors().len(), 0);
}

#[test]
fn edits_of_an_empty_series_replay_through_the_builder() {
    let parsed = quilt::parse("");
    let mut series = parsed.quilt_tree_mut();
    series.push("a.patch", &[]);
    series.push("b.patch", &["-p1"]);
    series.insert(1, "c.patch", &["-R", "--fuzz=2"]);
    series.prepend("d.patch", &[]);
    assert!(series.rename("a.patch", "e.patch"));
    assert!(series.set_options("b.patch", &["-p2"]));
    assert!(series.move_to("c.patch", 0));
    assert!(series.remove("d.patch"));
    let built = quilt::SeriesBuilder::new()
        .add_patch("c.patch", &["-R", "--fuzz=2"])
        .add_patch("e.patch", &[])
        .add_patch("b.patch", &["-p2"])
        .build();
    assert_eq!(rendered(&series), rendered(&built));
    assert_eq!(
        rendered(&series),
        "c.patch -R --fuzz=2\ne.patch\nb.patch -p2\n"
    );
    series.clear();
    assert_eq!(rendered(&series), "");
    assert_eq!(rendered(&quilt::SeriesBuilder::new().build()), "");
}

#[test]
fn edits_leave_what_they_do_not_touch() {
    let parsed = quilt::parse("# Header\np1\n\n# Mid\n  p2 -p1\n# Foot\n");
    let mut series = parsed.quilt_tree_mut();
    assert!(series.remove("p1"));
    assert_eq!(rendered(&series), "# Header\n\n# Mid\n  p2 -p1\n# Foot\n");
    series.insert(0, "p0", &[]);
    assert_eq!(rendered(&series), "# Header\n\n# Mid\np0\n  p2 -p1\n# Foot\n");
    assert!(series.rename("p2", "p3"));
    assert_eq!(rendered(&series), "# Header\n\n# Mid\np0\np3 -p1\n# Foot\n");
}

#[test]
fn patch_ranges_count_bytes_from_the_start() {
    let text = "# c\n  a.patch -p1\nb.patch\n";
    let parsed = quilt::parse(text);
    let series = parsed.quilt_tree();
    assert_eq!(
        quilt::get_patch_line_range(&series, 0),
        Some(TextRange { start: 6, end: 18 })
    );
    assert_eq!(
        quilt::get_patch_line_range(&series, 1),
        Some(TextRange { start: 18, end: 26 })
    );
    assert_eq!(quilt::get_patch_line_range(&series, 2), None);
    assert_eq!(&text[6..18], "a.patch -p1\n");
    assert_eq!(&text[18..26], "b.patch\n");
}

#[test]
fn error_tokens_are_reported_with_their_ranges() {
    let mut builder = TreeBuilder::new();
    builder.start_node(SyntaxKind::ROOT.to_raw());
    builder.token(SyntaxKind::ERROR.to_raw(), "?");
    builder.start_node(SyntaxKind::SERIES_ENTRY.to_raw());
    builder.token(SyntaxKind::TEXT.to_raw(), "ab");
    builder.token(SyntaxKind::ERROR.to_raw(), "cde");
    builder.finish_node();
    builder.token(SyntaxKind::NEWLINE.to_raw(), "\n");
    builder.token(SyntaxKind::ERROR.to_raw(), "");
    builder.finish_node();
    let series = quilt::SeriesFile::new_root(builder.finish());
    let errors = series.errors();
    let found: Vec<_> = errors
        .iter()
        .map(|e| (e.message.as_str(), e.position.start, e.position.end))
        .collect();
    assert_eq!(
        found,
        vec![
            ("Invalid token", 0, 1),
            ("Invalid token", 3, 6),
            ("Invalid token", 7, 7),
        ]
    );
    let clean = quilt::parse("a.patch\n# c\n").quilt_tree();
    assert!(clean.errors().is_empty());
}

#[test]
fn reorder_keeps_comments_and_blank_lines_in_place() {
    let parsed = quilt::parse("# H\na\nb\n");
    let mut series = parsed.quilt_tree_mut();
    assert!(series.reorder(&["b".to_string(), "a".to_string()]));
    assert_eq!(rendered(&series), "# H\nb\na\n");
    let parsed = quilt::parse("# top\n\na -p1\n  # mid\nb\n\nc -R\n# end\n");
    let mut series = parsed.quilt_tree_mut();
    assert!(series.reorder(&["c".to_string(), "a".to_string(), "b".to_string()]));
    assert_eq!(
        rendered(&series),
        "# top\n\nc -R\n  # mid\na -p1\n\nb\n# end\n"
    );
    assert!(!series.reorder(&["zz".to_string()]));
    assert_eq!(
        rendered(&series),
        "# top\n\nc -R\n  # mid\na -p1\n\nb\n# end\n"
    );
}

#[test]
fn update_with_replaces_the_answered_patches() {
    let parsed = quilt::parse("# top\na -p1\n\n  b\nc --fuzz=2\n");
    let mut series = parsed.quilt_tree_mut();
    series.update_with(&[
        Some(vec!["-p2".to_string(), "-R".to_string()]),
        None,
        Some(vec![]),
    ]);
    assert_eq!(rendered(&series), "# top\na -p2 -R\n\n  b\nc\n");
    series.update_with(&[None, Some(vec!["-p0".to_string()])]);
    assert_eq!(rendered(&series), "# top\na -p2 -R\n\nb -p0\nc\n");
    series.update_with(&[]);
    assert_eq!(rendered(&series), "# top\na -p2 -R\n\nb -p0\nc\n");
}
