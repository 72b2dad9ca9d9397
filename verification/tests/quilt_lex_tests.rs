use patchkit::edit::quilt::lex::{Lexer, SyntaxKind};
use patchkit::edit::quilt::{self};

#[test]
fn test_debug_options() {
    let text = "patch.patch -p1\n";
    let mut lexer = Lexer::new(text);
    let tokens = lexer.tokenize();

    println!("Input text: {:?}", text);
    println!("Tokens:");
    for (i, (kind, text)) in tokens.iter().enumerate() {
        println!("  {}: {:?} = {:?}", i, kind, text);
    }
}

#[test]
fn test_debug_unicode() {
    let text = "# Pätch sériès with ünïcødé\npatch-ñame.patch\n# Comment with émojis 🚀\nspëcial-patch.patch -p1\n";
    let mut lexer = Lexer::new(text);
    let tokens = lexer.tokenize();

    println!("Input text: {:?}", text);
    println!("Tokens:");
    for (i, (kind, text)) in tokens.iter().enumerate() {
        println!("  {}: {:?} = {:?}", i, kind, text);
    }
}

#[test]
fn test_lex_simple_patch() {
    let mut lexer = Lexer::new("patch1.patch\n");
    let tokens = lexer.tokenize();
    assert_eq!(tokens.len(), 3);
    assert_eq!(tokens[0].0, SyntaxKind::PATCH_NAME);
    assert_eq!(tokens[0].1, "patch1.patch");
    assert_eq!(tokens[1].0, SyntaxKind::NEWLINE);
    assert_eq!(tokens[2].0, SyntaxKind::EOF);
}

#[test]
fn test_lex_patch_with_options() {
    let mut lexer = Lexer::new("patch1.patch -p1 --reverse\n");
    let tokens = lexer.tokenize();
    assert_eq!(tokens[0].0, SyntaxKind::PATCH_NAME);
    assert_eq!(tokens[0].1, "patch1.patch");
    assert_eq!(tokens[1].0, SyntaxKind::SPACE);
    assert_eq!(tokens[2].0, SyntaxKind::OPTION);
    assert_eq!(tokens[2].1, "-p1");
    assert_eq!(tokens[3].0, SyntaxKind::SPACE);
    assert_eq!(tokens[4].0, SyntaxKind::OPTION);
    assert_eq!(tokens[4].1, "--reverse");
}

#[test]
fn test_lex_comment() {
    let mut lexer = Lexer::new("# This is a comment\n");
    let tokens = lexer.tokenize();
    assert_eq!(tokens[0].0, SyntaxKind::HASH);
    assert_eq!(tokens[1].0, SyntaxKind::SPACE);
    assert_eq!(tokens[2].0, SyntaxKind::TEXT);
    assert_eq!(tokens[2].1, "This is a comment");
}
