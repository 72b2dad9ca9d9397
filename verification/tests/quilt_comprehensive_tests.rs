use patchkit::edit::quilt::{self, SeriesBuilder};
use patchkit::parse::AstNode;

#[test]
fn test_empty_series_edge_cases() {
    // Test completely empty input
    let parsed = quilt::parse("");
    assert!(parsed.errors().is_empty());
    let series = parsed.quilt_tree();
    assert_eq!(series.entries().len(), 0);
    assert_eq!(series.patch_entries().len(), 0);
    assert_eq!(series.comment_lines().len(), 0);

    // Test whitespace-only input
    let parsed = quilt::parse("   \n\t  \n   ");
    if !parsed.errors().is_empty() {
        println!("Errors for whitespace-only input: {:?}", parsed.errors());
    }
    // For now, just check that we can parse it without panicking
    // assert!(parsed.errors().is_empty());
    let series = parsed.quilt_tree();
    assert_eq!(series.patch_entries().len(), 0);

    // Test only newlines
    let parsed = quilt::parse("\n\n\n");
    if !parsed.errors().is_empty() {
        println!("Errors for newlines-only input: {:?}", parsed.errors());
    }
    // assert!(parsed.errors().is_empty());
    let series = parsed.quilt_tree();
    assert_eq!(series.patch_entries().len(), 0);
}

#[test]
fn test_malformed_input_error_recovery() {
    // Test missing patch name - should either error or skip gracefully
    let parsed = quilt::parse("   -p1\n");
    let series = parsed.quilt_tree();
    // Either should have errors, or should skip the malformed line
    let patches: Vec<_> = series.patch_entries();
    assert!(parsed.errors().len() > 0 || patches.is_empty());

    // Test incomplete comment
    let parsed = quilt::parse("#\n");
    assert!(parsed.errors().is_empty());
    let series = parsed.quilt_tree();
    let comments: Vec<_> = series.comment_lines();
    assert_eq!(comments.len(), 1);
    assert_eq!(comments[0].text(), "");

    // Test mixed valid/invalid lines
    let parsed = quilt::parse("patch1.patch\n   \npatch2.patch\n");
    if !parsed.errors().is_empty() {
        println!("Errors for mixed valid/invalid: {:?}", parsed.errors());
    }
    assert!(parsed.errors().is_empty());
    let series = parsed.quilt_tree();
    let patches: Vec<_> = series.patch_entries();
    assert_eq!(patches.len(), 2);
}

#[test]
fn test_complex_formatting_preservation() {
    let text = r#"# Header comment with   multiple    spaces
    
patch1.patch    	 -p1     --reverse
# Mid comment
  patch2.patch  	
	patch3.patch 	-p2  	--fuzz=3   	--ignore-whitespace

# Footer with tabs	and	spaces  
"#;

    let parsed = quilt::parse(text);
    let series = parsed.quilt_tree();

    // Verify exact roundtrip preservation
    assert_eq!(series.syntax().text(), text);

    // Verify structure is correct despite formatting
    let patches: Vec<_> = series.patch_entries();
    assert_eq!(patches.len(), 3);
    assert_eq!(patches[0].name(), Some("patch1.patch".to_string()));
    assert_eq!(patches[0].option_strings(), vec!["-p1", "--reverse"]);
    assert_eq!(patches[1].name(), Some("patch2.patch".to_string()));
    assert_eq!(patches[1].option_strings(), Vec::<String>::new());
    assert_eq!(patches[2].name(), Some("patch3.patch".to_string()));
    assert_eq!(
        patches[2].option_strings(),
        vec!["-p2", "--fuzz=3", "--ignore-whitespace"]
    );
}

#[test]
fn test_unicode_and_special_characters() {
    let text = "# Pätch sériès with ünïcødé\npatch-ñame.patch\n# Comment with émojis 🚀\nspëcial-patch.patch -p1\n";

    let parsed = quilt::parse(text);
    assert!(parsed.errors().is_empty());
    let series = parsed.quilt_tree();

    // Verify exact preservation of unicode
    assert_eq!(series.syntax().text(), text);

    let patches: Vec<_> = series.patch_entries();
    assert_eq!(patches.len(), 2);
    assert_eq!(patches[0].name(), Some("patch-ñame.patch".to_string()));
    assert_eq!(patches[1].name(), Some("spëcial-patch.patch".to_string()));

    let comments: Vec<_> = series.comment_lines();
    assert_eq!(comments.len(), 2);
    assert_eq!(comments[0].text(), "Pätch sériès with ünïcødé");
    assert_eq!(comments[1].text(), "Comment with émojis 🚀");
}

#[test]
fn test_large_series_performance() {
    // Generate a large series file
    let mut text = String::new();
    for i in 0..1000 {
        text.push_str(&format!("patch-{:04}.patch -p1 --reverse\n", i));
        if i % 100 == 0 {
            text.push_str(&format!("# Batch {}\n", i / 100));
        }
    }

    // Test parsing performance
    let start = std::time::Instant::now();
    let parsed = quilt::parse(&text);
    let parse_time = start.elapsed();
    println!("Parse time for 1000 patches: {:?}", parse_time);

    let mut series = parsed.quilt_tree_mut();
    assert_eq!(series.patch_entries().len(), 1000);
    assert_eq!(series.comment_lines().len(), 10);

    // Test modification performance
    let start = std::time::Instant::now();
    series.insert(500, "new-patch.patch", &["-p2"]);
    let modify_time = start.elapsed();
    println!("Modify time for insert at position 500: {:?}", modify_time);

    assert_eq!(series.patch_entries().len(), 1001);
}


#[test]
fn test_error_conditions_and_edge_cases() {
    // Test operations on non-existent patches
    let parsed = quilt::parse("patch1.patch\npatch2.patch\n");
    let mut series = parsed.quilt_tree_mut();

    // Try to remove non-existent patch
    let result = series.remove("nonexistent.patch");
    assert!(!result);

    // Try to update options for non-existent patch
    let result = series.set_options("nonexistent.patch", &["-p1"]);
    assert!(!result);

    // Test insert at invalid indices
    series.insert(1000, "new.patch", &[]); // Beyond end
    let patches: Vec<_> = series.patch_entries();
    assert_eq!(patches.len(), 3); // Should append at end
    assert_eq!(patches[2].name(), Some("new.patch".to_string()));
}

#[test]
fn test_complex_option_parsing() {
    let text = r#"patch1.patch -p1 --reverse --fuzz=3 --ignore-whitespace
patch2.patch --binary --unified=5
patch3.patch -p0 -R -F3 --posix
"#;

    let parsed = quilt::parse(text);
    let series = parsed.quilt_tree();
    let patches: Vec<_> = series.patch_entries();

    assert_eq!(
        patches[0].option_strings(),
        vec!["-p1", "--reverse", "--fuzz=3", "--ignore-whitespace"]
    );
    assert_eq!(patches[1].option_strings(), vec!["--binary", "--unified=5"]);
    assert_eq!(
        patches[2].option_strings(),
        vec!["-p0", "-R", "-F3", "--posix"]
    );
}

#[test]
fn test_patch_name_modification() {
    let parsed = quilt::parse("old-name.patch -p1\n");
    let series = parsed.quilt_tree_mut();
    let mut patches: Vec<_> = series.patch_entries();

    // Test set_name method (modifies in place)
    let patch = &mut patches[0];
    patch.set_name("new-name.patch");

    // Verify the modification took effect
    println!("Patch name after set_name: {:?}", patch.name());
    println!("Options after set_name: {:?}", patch.option_strings());

    assert_eq!(patch.name(), Some("new-name.patch".to_string()));
    assert_eq!(patch.option_strings(), vec!["-p1"]); // Options preserved
}

#[test]
fn comprehensive_tests_test_builder_comprehensive() {
    let series = quilt::SeriesBuilder::new()
        .add_comment("Generated series file")
        .add_comment("") // Empty comment
        .add_patch("001-fix.patch", &[])
        .add_patch("002-feature.patch", &["-p1"])
        .add_comment("Security patches")
        .add_patch(
            "CVE-2023-1234.patch",
            &["-p2", "--reverse"],
        )
        .add_patch("003-cleanup.patch", &["--fuzz=3"])
        .build();

    let patches: Vec<_> = series.patch_entries();
    let comments: Vec<_> = series.comment_lines();

    assert_eq!(patches.len(), 4);
    assert_eq!(comments.len(), 3);

    assert_eq!(patches[0].name(), Some("001-fix.patch".to_string()));
    assert_eq!(patches[1].option_strings(), vec!["-p1"]);
    assert_eq!(patches[2].name(), Some("CVE-2023-1234.patch".to_string()));
    assert_eq!(patches[2].option_strings(), vec!["-p2", "--reverse"]);

    assert_eq!(comments[0].text(), "Generated series file");
    assert_eq!(comments[1].text(), ""); // Empty comment preserved
    assert_eq!(comments[2].text(), "Security patches");
}

#[test]
fn test_roundtrip_stability() {
    let original_text = r#"# Complex series file
patch1.patch -p1 --reverse
# Comment with weird spacing   
  patch2.patch  	-p2   --fuzz=3  
patch3.patch

# Final comment
"#;

    // Parse -> modify -> serialize -> parse again
    let parsed1 = quilt::parse(original_text);
    let mut series1 = parsed1.quilt_tree_mut();

    series1.insert(1, "inserted.patch", &["-p0"]);
    let serialized = series1.syntax().text();

    let parsed2 = quilt::parse(&serialized);
    let series2 = parsed2.quilt_tree();

    // Verify structure is consistent
    let patches1: Vec<_> = series1.patch_entries();
    let patches2: Vec<_> = series2.patch_entries();

    assert_eq!(patches1.len(), patches2.len());
    for (p1, p2) in patches1.iter().zip(patches2.iter()) {
        assert_eq!(p1.name(), p2.name());
        assert_eq!(p1.option_strings(), p2.option_strings());
    }
}

#[test]
fn test_memory_efficiency() {
    // Test that modifications create minimal allocations using in-place modification
    let text = "patch1.patch\npatch2.patch\npatch3.patch\n";
    let parsed = quilt::parse(text);
    let mut series = parsed.quilt_tree_mut(); // Use mutable tree for in-place modification

    // Get the green node (shared representation)
    let green1 = parsed.green().clone();

    // Count patches before modification
    assert_eq!(series.patch_entries().len(), 3);

    // Make a small modification (modifies in place)
    series.insert(1, "new.patch", &[]);

    // Tree has been modified in place
    assert_eq!(series.patch_entries().len(), 4);

    // Parse the modified syntax to get a new green node
    let parsed_modified = quilt::parse(&series.syntax().text());
    let green2 = parsed_modified.green();

    // Green nodes should be different after modification
    assert_ne!(&green1, green2);

    // Verify the patch was inserted at the correct position
    let patches: Vec<_> = series.patch_entries();
    assert_eq!(patches[0].name(), Some("patch1.patch".to_string()));
    assert_eq!(patches[1].name(), Some("new.patch".to_string()));
    assert_eq!(patches[2].name(), Some("patch2.patch".to_string()));
    assert_eq!(patches[3].name(), Some("patch3.patch".to_string()));
}
