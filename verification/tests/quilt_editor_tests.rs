use patchkit::edit::quilt::{self};

#[test]
fn editor_test_insert() {
    let text = "patch1.patch\npatch2.patch\n";
    let parsed = quilt::parse(text);
    let mut series = parsed.quilt_tree_mut();

    series.insert(1, "new.patch", &["-p1"]);

    let patches: Vec<_> = series.patch_entries();
    assert_eq!(patches.len(), 3);
    assert_eq!(patches[0].name(), Some("patch1.patch".to_string()));
    assert_eq!(patches[1].name(), Some("new.patch".to_string()));
    assert_eq!(patches[2].name(), Some("patch2.patch".to_string()));
}

#[test]
fn test_remove_patch() {
    let text = "patch1.patch\npatch2.patch\npatch3.patch\n";
    let parsed = quilt::parse(text);
    let mut series = parsed.quilt_tree_mut();

    assert!(series.remove("patch2.patch"));

    let patches: Vec<_> = series.patch_entries();
    assert_eq!(patches.len(), 2);
    assert_eq!(patches[0].name(), Some("patch1.patch".to_string()));
    assert_eq!(patches[1].name(), Some("patch3.patch".to_string()));
}

#[test]
fn test_collection_api() {
    let text = "patch1.patch\npatch2.patch\n";
    let parsed = quilt::parse(text);
    let mut series = parsed.quilt_tree_mut();

    // Test collection methods
    assert_eq!(series.len(), 2);
    assert!(!series.is_empty());
    assert!(series.contains("patch1.patch"));
    assert_eq!(series.position("patch2.patch"), Some(1));

    // Test adding patches
    series.push("patch3.patch", &["-p1", "--reverse"]);
    series.prepend("patch0.patch", &[]);
    series.add_comment("Test comment");

    let patches: Vec<_> = series.patch_entries();
    assert_eq!(patches.len(), 4);
    assert_eq!(patches[0].name(), Some("patch0.patch".to_string()));
    assert_eq!(patches[3].name(), Some("patch3.patch".to_string()));

    // Test clearing
    series.clear();
    assert!(series.is_empty());

    // Comments should remain
    let comments: Vec<_> = series.comment_lines();
    assert_eq!(comments.len(), 1);
}
