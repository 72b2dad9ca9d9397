use patchkit::edit::lex::SyntaxKind;
use patchkit::edit::{self};
use patchkit::parse::AstNode;

fn kinds_of(node: &patchkit::edit::syntax::SyntaxNode) -> Vec<SyntaxKind> {
    node.children_with_tokens()
        .iter()
        .map(|e| SyntaxKind::from_raw(e.kind_raw()).unwrap())
        .collect()
}

#[test]
fn tree_of_a_unified_diff() {
    let text = "--- a/x\n+++ b/x\n@@ -1,2 +1,2 @@\n a\n-b\n+c\n";
    let parsed = edit::parse(text);
    let root = parsed.syntax_node();
    assert_eq!(root.text(), text);
    assert_eq!(kinds_of(&root), vec![SyntaxKind::PATCH_FILE]);
    let file = root
        .child_of_kind(SyntaxKind::PATCH_FILE.to_raw())
        .unwrap();
    assert_eq!(
        kinds_of(&file),
        vec![SyntaxKind::OLD_FILE, SyntaxKind::NEW_FILE, SyntaxKind::HUNK]
    );
    let old_file = file.child_of_kind(SyntaxKind::OLD_FILE.to_raw()).unwrap();
    assert_eq!(
        kinds_of(&old_file),
        vec![
            SyntaxKind::MINUS,
            SyntaxKind::MINUS,
            SyntaxKind::MINUS,
            SyntaxKind::WHITESPACE,
            SyntaxKind::PATH,
            SyntaxKind::NEWLINE,
        ]
    );
    assert_eq!(old_file.text(), "--- a/x\n");
    let hunk = file.child_of_kind(SyntaxKind::HUNK.to_raw()).unwrap();
    assert_eq!(
        kinds_of(&hunk),
        vec![
            SyntaxKind::HUNK_HEADER,
            SyntaxKind::CONTEXT_LINE,
            SyntaxKind::DELETE_LINE,
            SyntaxKind::ADD_LINE,
        ]
    );
    let header = hunk.child_of_kind(SyntaxKind::HUNK_HEADER.to_raw()).unwrap();
    assert_eq!(
        kinds_of(&header),
        vec![
            SyntaxKind::AT,
            SyntaxKind::AT,
            SyntaxKind::WHITESPACE,
            SyntaxKind::HUNK_RANGE,
            SyntaxKind::WHITESPACE,
            SyntaxKind::HUNK_RANGE,
            SyntaxKind::WHITESPACE,
            SyntaxKind::AT,
            SyntaxKind::AT,
            SyntaxKind::NEWLINE,
        ]
    );
    let range = header.child_of_kind(SyntaxKind::HUNK_RANGE.to_raw()).unwrap();
    assert_eq!(range.text(), "-1,2");
}

#[test]
fn header_without_a_range_is_no_hunk() {
    let text = "--- a\n+++ b\n@@ nothing @@\n x\n@@ -1 +1 @@\n-a\n+b\n";
    let parsed = edit::parse(text);
    let root = parsed.syntax_node();
    assert_eq!(root.text(), text);
    let file = root
        .child_of_kind(SyntaxKind::PATCH_FILE.to_raw())
        .unwrap();
    let hunks = file.children_of_kind(SyntaxKind::HUNK.to_raw());
    assert_eq!(hunks.len(), 1);
    assert_eq!(hunks[0].text(), "@@ -1 +1 @@\n-a\n+b\n");
}

#[test]
fn tree_of_an_ed_script() {
    let text = "2a\nnew\n.\n3d\n";
    let parsed = edit::parse(text);
    let root = parsed.syntax_node();
    assert_eq!(root.text(), text);
    assert_eq!(
        kinds_of(&root),
        vec![SyntaxKind::ED_COMMAND, SyntaxKind::ED_COMMAND]
    );
    let commands = root.children_of_kind(SyntaxKind::ED_COMMAND.to_raw());
    assert_eq!(kinds_of(&commands[0]), vec![SyntaxKind::ED_ADD_COMMAND]);
    let add = commands[0]
        .child_of_kind(SyntaxKind::ED_ADD_COMMAND.to_raw())
        .unwrap();
    assert_eq!(
        kinds_of(&add),
        vec![
            SyntaxKind::NUMBER,
            SyntaxKind::LETTER_A,
            SyntaxKind::NEWLINE,
            SyntaxKind::ED_CONTENT_LINE,
            SyntaxKind::DOT,
            SyntaxKind::NEWLINE,
        ]
    );
    assert_eq!(kinds_of(&commands[1]), vec![SyntaxKind::ED_DELETE_COMMAND]);
    assert_eq!(commands[1].text(), "3d\n");
}

#[test]
fn tree_of_a_normal_diff() {
    let text = "2c2\n< old\n---\n> new\n";
    let parsed = edit::parse(text);
    let root = parsed.syntax_node();
    assert_eq!(root.text(), text);
    assert_eq!(kinds_of(&root), vec![SyntaxKind::NORMAL_HUNK]);
    let hunk = root
        .child_of_kind(SyntaxKind::NORMAL_HUNK.to_raw())
        .unwrap();
    assert_eq!(
        kinds_of(&hunk),
        vec![
            SyntaxKind::NORMAL_CHANGE_COMMAND,
            SyntaxKind::NORMAL_OLD_LINES,
            SyntaxKind::NORMAL_SEPARATOR,
            SyntaxKind::NORMAL_NEW_LINES,
        ]
    );
    let old_lines = hunk
        .child_of_kind(SyntaxKind::NORMAL_OLD_LINES.to_raw())
        .unwrap();
    assert_eq!(kinds_of(&old_lines), vec![SyntaxKind::DELETE_LINE]);
    assert_eq!(old_lines.text(), "< old\n");
}

#[test]
fn tree_of_a_context_diff() {
    let text = "*** a\n--- b\n***************\n*** 1,2 ****\n  x\n! y\n--- 1,2 ----\n  x\n! z\n";
    let parsed = edit::parse(text);
    let root = parsed.syntax_node();
    assert_eq!(root.text(), text);
    assert_eq!(kinds_of(&root), vec![SyntaxKind::CONTEXT_DIFF_FILE]);
    let file = root
        .child_of_kind(SyntaxKind::CONTEXT_DIFF_FILE.to_raw())
        .unwrap();
    assert_eq!(
        kinds_of(&file),
        vec![
            SyntaxKind::CONTEXT_OLD_FILE,
            SyntaxKind::CONTEXT_NEW_FILE,
            SyntaxKind::CONTEXT_HUNK,
        ]
    );
    let hunk = file
        .child_of_kind(SyntaxKind::CONTEXT_HUNK.to_raw())
        .unwrap();
    assert_eq!(
        kinds_of(&hunk),
        vec![
            SyntaxKind::CONTEXT_HUNK_HEADER,
            SyntaxKind::CONTEXT_OLD_SECTION,
            SyntaxKind::CONTEXT_NEW_SECTION,
        ]
    );
    let new_section = hunk
        .child_of_kind(SyntaxKind::CONTEXT_NEW_SECTION.to_raw())
        .unwrap();
    assert_eq!(new_section.text(), "--- 1,2 ----\n  x\n! z\n");
    let changed = new_section.children_of_kind(SyntaxKind::CONTEXT_CHANGE_LINE.to_raw());
    assert_eq!(changed.len(), 1);
    assert_eq!(changed[0].text(), "! z\n");
}

#[test]
fn a_line_of_no_format_stays_as_tokens() {
    let text = "hello world\n";
    let parsed = edit::parse(text);
    let root = parsed.syntax_node();
    assert_eq!(root.text(), text);
    let elements = root.children_with_tokens();
    assert!(elements.iter().all(|e| e.clone().into_node().is_none()));
    assert!(elements.iter().all(|e| e.clone().into_token().is_some()));
    assert_eq!(
        elements.last().unwrap().kind_raw(),
        SyntaxKind::NEWLINE.to_raw()
    );
}

#[test]
fn a_parse_without_errors_gives_its_tree() {
    let parsed = edit::parse("--- a\n+++ b\n");
    assert!(parsed.ok());
    let patch = parsed.to_result().ok().unwrap();
    assert_eq!(patch.syntax().text(), "--- a\n+++ b\n");
    assert_eq!(patch.patch_files().len(), 1);
}

#[test]
fn the_first_child_of_a_kind_can_be_cast() {
    let parsed = edit::parse("--- a\n+++ b\n@@ -1 +1 @@\n-x\n+y\n--- c\n+++ d\n");
    let root = parsed.syntax_node();
    let first: Option<edit::PatchFile> =
        patchkit::parse::child_as(&root, SyntaxKind::PATCH_FILE.to_raw());
    assert_eq!(first.unwrap().syntax().text(), "--- a\n+++ b\n@@ -1 +1 @@\n-x\n+y\n");
    let none: Option<edit::EdCommand> =
        patchkit::parse::child_as(&root, SyntaxKind::ED_COMMAND.to_raw());
    assert!(none.is_none());
}

#[test]
fn malformed_hunk_header_is_kept_in_an_error_node() {
    let text = "--- a\n+++ b\n@@ -1 +1 @@\n-a\n+b\n@@ INVALID @@\n junk\n@@ -5 +5 @@\n-c\n+d\n";
    let parsed = edit::parse(text);
    assert!(parsed.ok());
    let root = parsed.syntax_node();
    assert_eq!(root.text(), text);
    let file = root
        .child_of_kind(SyntaxKind::PATCH_FILE.to_raw())
        .unwrap();
    assert_eq!(
        kinds_of(&file),
        vec![
            SyntaxKind::OLD_FILE,
            SyntaxKind::NEW_FILE,
            SyntaxKind::HUNK,
            SyntaxKind::ERROR,
            SyntaxKind::HUNK,
        ]
    );
    let error = file.child_of_kind(SyntaxKind::ERROR.to_raw()).unwrap();
    assert_eq!(error.text(), "@@ INVALID @@\n junk\n");
    assert!(error
        .children_with_tokens()
        .iter()
        .all(|e| e.clone().into_token().is_some()));
    let patch = parsed.tree();
    let files = patch.patch_files();
    let hunks = files[0].hunks();
    assert_eq!(hunks.len(), 2);
    let starts: Vec<_> = hunks
        .iter()
        .map(|h| h.header().unwrap().old_range().unwrap().start().unwrap())
        .collect();
    assert_eq!(starts, vec![1, 5]);
}

#[test]
fn control_characters_are_error_tokens() {
    let tokens = edit::lex::lex("ab\u{1}cd\u{7f}\n\u{c}x");
    assert_eq!(
        tokens,
        vec![
            (SyntaxKind::TEXT, "ab"),
            (SyntaxKind::ERROR, "\u{1}"),
            (SyntaxKind::TEXT, "cd"),
            (SyntaxKind::ERROR, "\u{7f}"),
            (SyntaxKind::NEWLINE, "\n"),
            (SyntaxKind::ERROR, "\u{c}"),
            (SyntaxKind::TEXT, "x"),
        ]
    );
    let text = "--- a\u{0}b\n";
    let parsed = edit::parse(text);
    assert!(parsed.ok());
    assert_eq!(parsed.syntax_node().text(), text);
}

#[test]
fn separator_of_context_hunks_has_fifteen_stars() {
    let short = "*** a\n--- b\n**************\n*** 1 ****\n! x\n--- 1 ----\n! y\n";
    let parsed = edit::parse(short);
    assert_eq!(parsed.syntax_node().text(), short);
    let files = parsed.tree().context_diff_files();
    assert_eq!(files[0].hunks().len(), 0);
    let full = "*** a\n--- b\n***************\n*** 1 ****\n! x\n--- 1 ----\n! y\n";
    let parsed = edit::parse(full);
    assert_eq!(parsed.syntax_node().text(), full);
    let files = parsed.tree().context_diff_files();
    assert_eq!(files.len(), 1);
    assert_eq!(files[0].hunks().len(), 1);
}

#[test]
fn a_parse_with_errors_gives_them_whatever_its_root_is() {
    let parsed = patchkit::edit::quilt::parse("-p1 stray\n");
    assert!(!parsed.ok());
    let errors = parsed.to_result().err().unwrap();
    assert_eq!(errors.0, vec!["Expected patch name or comment".to_string()]);
}
