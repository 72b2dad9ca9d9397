//! Lossless syntax trees of patch files and quilt series files.
use vstd::prelude::*;
use vstd::string::StringSliceAdditionalSpecFns;

pub mod builder;
pub mod cover;
pub mod detect;
pub mod grammar;
pub mod green;
pub mod kind;
/// Lexer for patch files
pub mod lex;
/// Lossless AST structures for patch files
pub mod lossless;
pub mod parse;
/// Lossless editor for quilt series files
pub mod quilt;
pub mod syntax;

pub use crate::parse::TextRange;
pub use lossless::{
    AddLine, ContextChangeLine, ContextDiffFile, ContextHunk, ContextHunkHeader, ContextLine,
    ContextNewFile, ContextNewSection, ContextOldFile, ContextOldSection, DeleteLine, DiffFormat,
    EdAddCommand, EdChangeCommand, EdCommand, EdContentLine, EdDeleteCommand, FileHeader, Hunk,
    HunkHeader, HunkLine, HunkRange, Lang, NewFile, NormalChangeCommand, NormalHunk,
    NormalNewLines, NormalOldLines, NormalSeparator, OldFile, ParseError, Patch, PatchFile,
    PositionedParseError,
};

verus! {

/// Parse a patch file into a lossless AST
///
/// The tree is the tree that the grammar gives for the tokens of the text,
/// and holds the text byte for byte. The text must be short enough for a
/// tree, which counts its text in 32 bits. That the tree of the grammar
/// holds the bytes of every text, whatever its length, is what
/// `cover::lemma_round_trip` states; that it shows the format of a text of one
/// format is what `detect::lemma_detects_the_one_format` states.
pub fn parse(text: &str) -> (r: crate::parse::Parse<Patch>)
    requires
        text.spec_bytes().len() <= u32::MAX,
    ensures
        r.root() == grammar::patch_tree(lex::tokens_of(text.spec_bytes())),
        r.root().text() == text.spec_bytes(),
        r.root().kind == kind::SyntaxKind::ROOT.raw(),
        r.is_ok(),
{
    lossless::parse(text)
}

} // verus!
