use patchkit::edit::quilt::{self, find_patch_by_name, SeriesBuilder};
use patchkit::parse::AstNode;

#[test]
fn test_builder() {
    let series = SeriesBuilder::new()
        .add_patch("0001-first.patch", &[])
        .add_comment("Second patch with options")
        .add_patch(
            "0002-second.patch",
            &["-p1", "--reverse"],
        )
        .build();

    let patches: Vec<_> = series.patch_entries();
    assert_eq!(patches.len(), 2);
    assert_eq!(patches[0].name(), Some("0001-first.patch".to_string()));
    assert_eq!(patches[1].name(), Some("0002-second.patch".to_string()));
    assert_eq!(patches[1].option_strings(), vec!["-p1", "--reverse"]);
}

#[test]
fn test_roundtrip() {
    let text = "0001-first.patch\n# Comment\n0002-second.patch -p1\n";
    let parsed = quilt::parse(text);
    let series = parsed.quilt_tree();
    assert_eq!(series.syntax().text(), text);
}

#[test]
fn test_find_patch() {
    let text = "0001-first.patch\n0002-second.patch\n";
    let parsed = quilt::parse(text);
    let series = parsed.quilt_tree();

    assert!(find_patch_by_name(&series, "0001-first.patch").is_some());
    assert!(find_patch_by_name(&series, "0002-second.patch").is_some());
    assert!(find_patch_by_name(&series, "nonexistent.patch").is_none());
}
