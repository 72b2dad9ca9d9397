//! Lossless AST structures for patch files
use crate::bytes::{decimal_value, is_decimal, parse_decimal};
use crate::edit::detect::format_of;
use crate::edit::green::Tree;
use crate::edit::kind::SyntaxKind;
use crate::edit::lex::{lex, token_views, tokens_of};
use crate::edit::parse::{lemma_encode_append, lemma_text_upto_all, Parser};
use crate::edit::syntax::{
    child_nodes, child_tokens, of_kind, tokens_of_kind, tokens_view, SyntaxNode, SyntaxToken,
};
use crate::parse::{children_as, nth_child_as, nth_of, view_trees, AstNode, Parse};
use vstd::prelude::*;
use vstd::string::{StringExecFns, StringSliceAdditionalSpecFns};
use vstd::utf8::encode_utf8;

pub use crate::parse::{ParseError, PositionedParseError};

verus! {

/// Language definition for patch file syntax
#[derive(Debug, Clone, Copy, PartialEq, Eq, Hash)]
pub enum Lang {
    /// The language of patch files
    Patch,
}

impl Lang {
    /// The kind that a number stands for; the number must stand for one.
    pub fn kind_from_raw(raw: u16) -> (r: SyntaxKind)
        requires
            SyntaxKind::of_raw(raw) is Some,
        ensures
            Some(r) == SyntaxKind::of_raw(raw),
    {
        SyntaxKind::from_raw(raw).unwrap()
    }

    /// The number that stands for a kind.
    pub fn kind_to_raw(kind: SyntaxKind) -> (r: u16)
        ensures
            r == kind.raw(),
    {
        kind.to_raw()
    }
}

/// The format of a diff
#[derive(Debug, Clone, Copy, PartialEq, Eq, Structural)]
pub enum DiffFormat {
    /// Unified diff format (diff -u)
    Unified,
    /// Context diff format (diff -c)
    Context,
    /// Ed script format (diff -e)
    Ed,
    /// Normal/traditional diff format
    Normal,
}

/// The texts of the tokens, one after another.
pub open spec fn tokens_text(tokens: Seq<(u16, Seq<u8>)>) -> Seq<u8>
    decreases tokens.len(),
{
    if tokens.len() == 0 {
        Seq::empty()
    } else {
        tokens_text(tokens.drop_last()) + tokens.last().1
    }
}

/// Whether a token is no `NEWLINE`.
pub open spec fn not_newline() -> spec_fn((u16, Seq<u8>)) -> bool {
    |t: (u16, Seq<u8>)| t.0 != SyntaxKind::NEWLINE.raw()
}

/// What a number token says: digits, with or without a plus sign before
/// them, whose value fits into 32 bits.
pub open spec fn number_of(text: Seq<u8>) -> Option<u32> {
    let digits = if text.len() > 0 && text[0] == 0x2b {
        text.subrange(1, text.len() as int)
    } else {
        text
    };
    if is_decimal(digits) && decimal_value(digits) <= u32::MAX {
        Some(decimal_value(digits) as u32)
    } else {
        None
    }
}

/// The numbers that the `NUMBER` tokens among `tokens` say, in order; a
/// token that says none is passed over.
pub open spec fn numbers_of(tokens: Seq<(u16, Seq<u8>)>) -> Seq<u32>
    decreases tokens.len(),
{
    if tokens.len() == 0 {
        Seq::empty()
    } else if tokens.last().0 == SyntaxKind::NUMBER.raw() && number_of(tokens.last().1) is Some {
        numbers_of(tokens.drop_last()).push(number_of(tokens.last().1).unwrap())
    } else {
        numbers_of(tokens.drop_last())
    }
}

/// The text of a line: its tokens but the `NEWLINE`, without the first of
/// them where that is the sign in front of the line. `None` where nothing is
/// left.
pub open spec fn line_text(children: Seq<crate::edit::green::Elem>, signed: bool) -> Option<
    Seq<u8>,
> {
    let tokens = child_tokens(children).filter(not_newline());
    let rest = if signed && tokens.len() > 0 && (tokens[0].0 == SyntaxKind::SPACE.raw()
        || tokens[0].0 == SyntaxKind::MINUS.raw() || tokens[0].0 == SyntaxKind::PLUS.raw()) {
        tokens.subrange(1, tokens.len() as int)
    } else {
        tokens
    };
    if rest.len() == 0 {
        None
    } else {
        Some(tokens_text(rest))
    }
}

/// Reads a number of 32 bits.
fn parse_number(text: &str) -> (r: Option<u32>)
    ensures
        r == number_of(text.spec_bytes()),
{
    let bytes = text.as_bytes();
    let digits = if bytes.len() > 0 && bytes[0] == 0x2b {
        vstd::slice::slice_subrange(bytes, 1, bytes.len())
    } else {
        bytes
    };
    match parse_decimal(digits) {
        Some(value) => if value <= 0xffff_ffff {
            Some(value as u32)
        } else {
            None
        },
        None => None,
    }
}

/// The first token of kind `kind` below `node`.
fn first_token(node: &SyntaxNode, kind: u16) -> (r: Option<SyntaxToken>)
    ensures
        match nth_of(tokens_of_kind(child_tokens(node@.children), kind), 0) {
            Some(token) => r is Some && r.unwrap()@ == token,
            None => r is None,
        },
{
    let mut found = node.tokens_of_kind(kind);
    if found.len() > 0 {
        assert(tokens_view(found@)[0] == found@[0]@);
        Some(found.swap_remove(0))
    } else {
        None
    }
}

/// The numbers of the `NUMBER` tokens below `node`: the first and the
/// second that can be read.
fn line_numbers_of(node: &SyntaxNode) -> (r: (Option<u32>, Option<u32>))
    ensures
        r.0 == nth_of(numbers_of(child_tokens(node@.children)), 0),
        r.1 == nth_of(numbers_of(child_tokens(node@.children)), 1),
{
    let tokens = node.tokens();
    let ghost views = tokens_view(tokens@);
    let mut numbers: Vec<u32> = Vec::new();
    let mut i: usize = 0;
    assert(views.subrange(0, 0) =~= Seq::empty());
    while i < tokens.len()
        invariant
            i <= tokens.len(),
            views == tokens_view(tokens@),
            numbers@ == numbers_of(views.subrange(0, i as int)),
        decreases tokens.len() - i,
    {
        proof {
            assert(views.subrange(0, i + 1).drop_last() =~= views.subrange(0, i as int));
            assert(views.subrange(0, i + 1).last() == tokens@[i as int]@);
        }
        if tokens[i].kind_raw() == SyntaxKind::NUMBER.to_raw() {
            if let Some(n) = parse_number(tokens[i].text()) {
                numbers.push(n);
            }
        }
        i += 1;
    }
    assert(views.subrange(0, views.len() as int) =~= views);
    let first = if numbers.len() > 0 {
        Some(numbers[0])
    } else {
        None
    };
    let second = if numbers.len() > 1 {
        Some(numbers[1])
    } else {
        None
    };
    (first, second)
}

/// The text of a line below `node`.
fn line_text_of(node: &SyntaxNode, signed: bool) -> (r: Option<String>)
    ensures
        match line_text(node@.children, signed) {
            Some(text) => r is Some && encode_utf8(r.unwrap()@) == text,
            None => r is None,
        },
{
    let tokens = node.tokens();
    let ghost views = tokens_view(tokens@);
    let ghost pred = not_newline();
    let mut text = String::new();
    let mut kept: usize = 0;
    let mut taken: usize = 0;
    let mut i: usize = 0;
    let ghost mut rest: Seq<(u16, Seq<u8>)> = Seq::empty();
    proof {
        assert(views.subrange(0, 0) =~= Seq::empty());
        assert(encode_utf8(text@) =~= Seq::<u8>::empty());
    }
    while i < tokens.len()
        invariant
            i <= tokens.len(),
            views == tokens_view(tokens@),
            pred == not_newline(),
            kept == views.subrange(0, i as int).filter(pred).len(),
            taken == rest.len(),
            encode_utf8(text@) == tokens_text(rest),
            ({
                let seen = views.subrange(0, i as int).filter(pred);
                rest == if signed && seen.len() > 0 && (seen[0].0 == SyntaxKind::SPACE.raw()
                    || seen[0].0 == SyntaxKind::MINUS.raw() || seen[0].0
                    == SyntaxKind::PLUS.raw()) {
                    seen.subrange(1, seen.len() as int)
                } else {
                    seen
                }
            }),
        decreases tokens.len() - i,
    {
        let ghost done = views.subrange(0, i as int);
        let ghost seen = done.filter(pred);
        proof {
            assert(views.subrange(0, i + 1) =~= done.push(views[i as int]));
            done.lemma_filter_push(views[i as int], pred);
            assert(views[i as int] == tokens@[i as int]@);
        }
        let kind = tokens[i].kind_raw();
        if kind != SyntaxKind::NEWLINE.to_raw() {
            let sign = kind == SyntaxKind::SPACE.to_raw() || kind == SyntaxKind::MINUS.to_raw()
                || kind == SyntaxKind::PLUS.to_raw();
            if !(signed && kept == 0 && sign) {
                let ghost before = text@;
                let ghost old_rest = rest;
                let piece = tokens[i].text();
                text.append(piece);
                proof {
                    lemma_encode_append(before, piece@);
                    rest = rest.push(views[i as int]);
                    assert(rest.drop_last() =~= old_rest);
                    let next = seen.push(views[i as int]);
                    if signed && next.len() > 0 && (next[0].0 == SyntaxKind::SPACE.raw()
                        || next[0].0 == SyntaxKind::MINUS.raw() || next[0].0
                        == SyntaxKind::PLUS.raw()) {
                        assert(rest =~= next.subrange(1, next.len() as int));
                    } else {
                        assert(rest =~= next);
                    }
                }
                taken += 1;
            } else {
                proof {
                    let next = seen.push(views[i as int]);
                    assert(rest =~= next.subrange(1, next.len() as int));
                }
            }
            kept += 1;
        }
        i += 1;
    }
    assert(views.subrange(0, views.len() as int) =~= views);
    if taken == 0 {
        None
    } else {
        Some(text)
    }
}


/// AST node for Patch
#[derive(Debug, Clone, PartialEq, Eq, Hash)]
pub struct Patch {
    syntax: SyntaxNode,
}

impl AstNode for Patch {
    open spec fn raw_kind() -> u16 {
        SyntaxKind::ROOT.raw()
    }

    closed spec fn tree(&self) -> Tree {
        self.syntax@
    }

    fn can_cast(kind: u16) -> (r: bool) {
        kind == SyntaxKind::ROOT.to_raw()
    }

    fn cast(syntax: SyntaxNode) -> (r: Option<Self>) {
        if syntax.kind_raw() == SyntaxKind::ROOT.to_raw() {
            Some(Self { syntax })
        } else {
            None
        }
    }

    fn syntax(&self) -> (r: &SyntaxNode) {
        &self.syntax
    }
}

/// AST node for PatchFile
#[derive(Debug, Clone, PartialEq, Eq, Hash)]
pub struct PatchFile {
    syntax: SyntaxNode,
}

impl AstNode for PatchFile {
    open spec fn raw_kind() -> u16 {
        SyntaxKind::PATCH_FILE.raw()
    }

    closed spec fn tree(&self) -> Tree {
        self.syntax@
    }

    fn can_cast(kind: u16) -> (r: bool) {
        kind == SyntaxKind::PATCH_FILE.to_raw()
    }

    fn cast(syntax: SyntaxNode) -> (r: Option<Self>) {
        if syntax.kind_raw() == SyntaxKind::PATCH_FILE.to_raw() {
            Some(Self { syntax })
        } else {
            None
        }
    }

    fn syntax(&self) -> (r: &SyntaxNode) {
        &self.syntax
    }
}

/// AST node for FileHeader
#[derive(Debug, Clone, PartialEq, Eq, Hash)]
pub struct FileHeader {
    syntax: SyntaxNode,
}

impl AstNode for FileHeader {
    open spec fn raw_kind() -> u16 {
        SyntaxKind::FILE_HEADER.raw()
    }

    closed spec fn tree(&self) -> Tree {
        self.syntax@
    }

    fn can_cast(kind: u16) -> (r: bool) {
        kind == SyntaxKind::FILE_HEADER.to_raw()
    }

    fn cast(syntax: SyntaxNode) -> (r: Option<Self>) {
        if syntax.kind_raw() == SyntaxKind::FILE_HEADER.to_raw() {
            Some(Self { syntax })
        } else {
            None
        }
    }

    fn syntax(&self) -> (r: &SyntaxNode) {
        &self.syntax
    }
}

/// AST node for OldFile
#[derive(Debug, Clone, PartialEq, Eq, Hash)]
pub struct OldFile {
    syntax: SyntaxNode,
}

impl AstNode for OldFile {
    open spec fn raw_kind() -> u16 {
        SyntaxKind::OLD_FILE.raw()
    }

    closed spec fn tree(&self) -> Tree {
        self.syntax@
    }

    fn can_cast(kind: u16) -> (r: bool) {
        kind == SyntaxKind::OLD_FILE.to_raw()
    }

    fn cast(syntax: SyntaxNode) -> (r: Option<Self>) {
        if syntax.kind_raw() == SyntaxKind::OLD_FILE.to_raw() {
            Some(Self { syntax })
        } else {
            None
        }
    }

    fn syntax(&self) -> (r: &SyntaxNode) {
        &self.syntax
    }
}

/// AST node for NewFile
#[derive(Debug, Clone, PartialEq, Eq, Hash)]
pub struct NewFile {
    syntax: SyntaxNode,
}

impl AstNode for NewFile {
    open spec fn raw_kind() -> u16 {
        SyntaxKind::NEW_FILE.raw()
    }

    closed spec fn tree(&self) -> Tree {
        self.syntax@
    }

    fn can_cast(kind: u16) -> (r: bool) {
        kind == SyntaxKind::NEW_FILE.to_raw()
    }

    fn cast(syntax: SyntaxNode) -> (r: Option<Self>) {
        if syntax.kind_raw() == SyntaxKind::NEW_FILE.to_raw() {
            Some(Self { syntax })
        } else {
            None
        }
    }

    fn syntax(&self) -> (r: &SyntaxNode) {
        &self.syntax
    }
}

/// AST node for Hunk
#[derive(Debug, Clone, PartialEq, Eq, Hash)]
pub struct Hunk {
    syntax: SyntaxNode,
}

impl AstNode for Hunk {
    open spec fn raw_kind() -> u16 {
        SyntaxKind::HUNK.raw()
    }

    closed spec fn tree(&self) -> Tree {
        self.syntax@
    }

    fn can_cast(kind: u16) -> (r: bool) {
        kind == SyntaxKind::HUNK.to_raw()
    }

    fn cast(syntax: SyntaxNode) -> (r: Option<Self>) {
        if syntax.kind_raw() == SyntaxKind::HUNK.to_raw() {
            Some(Self { syntax })
        } else {
            None
        }
    }

    fn syntax(&self) -> (r: &SyntaxNode) {
        &self.syntax
    }
}

/// AST node for HunkHeader
#[derive(Debug, Clone, PartialEq, Eq, Hash)]
pub struct HunkHeader {
    syntax: SyntaxNode,
}

impl AstNode for HunkHeader {
    open spec fn raw_kind() -> u16 {
        SyntaxKind::HUNK_HEADER.raw()
    }

    closed spec fn tree(&self) -> Tree {
        self.syntax@
    }

    fn can_cast(kind: u16) -> (r: bool) {
        kind == SyntaxKind::HUNK_HEADER.to_raw()
    }

    fn cast(syntax: SyntaxNode) -> (r: Option<Self>) {
        if syntax.kind_raw() == SyntaxKind::HUNK_HEADER.to_raw() {
            Some(Self { syntax })
        } else {
            None
        }
    }

    fn syntax(&self) -> (r: &SyntaxNode) {
        &self.syntax
    }
}

/// AST node for HunkRange
#[derive(Debug, Clone, PartialEq, Eq, Hash)]
pub struct HunkRange {
    syntax: SyntaxNode,
}

impl AstNode for HunkRange {
    open spec fn raw_kind() -> u16 {
        SyntaxKind::HUNK_RANGE.raw()
    }

    closed spec fn tree(&self) -> Tree {
        self.syntax@
    }

    fn can_cast(kind: u16) -> (r: bool) {
        kind == SyntaxKind::HUNK_RANGE.to_raw()
    }

    fn cast(syntax: SyntaxNode) -> (r: Option<Self>) {
        if syntax.kind_raw() == SyntaxKind::HUNK_RANGE.to_raw() {
            Some(Self { syntax })
        } else {
            None
        }
    }

    fn syntax(&self) -> (r: &SyntaxNode) {
        &self.syntax
    }
}

/// AST node for HunkLine
#[derive(Debug, Clone, PartialEq, Eq, Hash)]
pub struct HunkLine {
    syntax: SyntaxNode,
}

impl AstNode for HunkLine {
    open spec fn raw_kind() -> u16 {
        SyntaxKind::HUNK_LINE.raw()
    }

    closed spec fn tree(&self) -> Tree {
        self.syntax@
    }

    fn can_cast(kind: u16) -> (r: bool) {
        kind == SyntaxKind::HUNK_LINE.to_raw()
    }

    fn cast(syntax: SyntaxNode) -> (r: Option<Self>) {
        if syntax.kind_raw() == SyntaxKind::HUNK_LINE.to_raw() {
            Some(Self { syntax })
        } else {
            None
        }
    }

    fn syntax(&self) -> (r: &SyntaxNode) {
        &self.syntax
    }
}

/// AST node for ContextLine
#[derive(Debug, Clone, PartialEq, Eq, Hash)]
pub struct ContextLine {
    syntax: SyntaxNode,
}

impl AstNode for ContextLine {
    open spec fn raw_kind() -> u16 {
        SyntaxKind::CONTEXT_LINE.raw()
    }

    closed spec fn tree(&self) -> Tree {
        self.syntax@
    }

    fn can_cast(kind: u16) -> (r: bool) {
        kind == SyntaxKind::CONTEXT_LINE.to_raw()
    }

    fn cast(syntax: SyntaxNode) -> (r: Option<Self>) {
        if syntax.kind_raw() == SyntaxKind::CONTEXT_LINE.to_raw() {
            Some(Self { syntax })
        } else {
            None
        }
    }

    fn syntax(&self) -> (r: &SyntaxNode) {
        &self.syntax
    }
}

/// AST node for AddLine
#[derive(Debug, Clone, PartialEq, Eq, Hash)]
pub struct AddLine {
    syntax: SyntaxNode,
}

impl AstNode for AddLine {
    open spec fn raw_kind() -> u16 {
        SyntaxKind::ADD_LINE.raw()
    }

    closed spec fn tree(&self) -> Tree {
        self.syntax@
    }

    fn can_cast(kind: u16) -> (r: bool) {
        kind == SyntaxKind::ADD_LINE.to_raw()
    }

    fn cast(syntax: SyntaxNode) -> (r: Option<Self>) {
        if syntax.kind_raw() == SyntaxKind::ADD_LINE.to_raw() {
            Some(Self { syntax })
        } else {
            None
        }
    }

    fn syntax(&self) -> (r: &SyntaxNode) {
        &self.syntax
    }
}

/// AST node for DeleteLine
#[derive(Debug, Clone, PartialEq, Eq, Hash)]
pub struct DeleteLine {
    syntax: SyntaxNode,
}

impl AstNode for DeleteLine {
    open spec fn raw_kind() -> u16 {
        SyntaxKind::DELETE_LINE.raw()
    }

    closed spec fn tree(&self) -> Tree {
        self.syntax@
    }

    fn can_cast(kind: u16) -> (r: bool) {
        kind == SyntaxKind::DELETE_LINE.to_raw()
    }

    fn cast(syntax: SyntaxNode) -> (r: Option<Self>) {
        if syntax.kind_raw() == SyntaxKind::DELETE_LINE.to_raw() {
            Some(Self { syntax })
        } else {
            None
        }
    }

    fn syntax(&self) -> (r: &SyntaxNode) {
        &self.syntax
    }
}

/// AST node for ContextDiffFile
#[derive(Debug, Clone, PartialEq, Eq, Hash)]
pub struct ContextDiffFile {
    syntax: SyntaxNode,
}

impl AstNode for ContextDiffFile {
    open spec fn raw_kind() -> u16 {
        SyntaxKind::CONTEXT_DIFF_FILE.raw()
    }

    closed spec fn tree(&self) -> Tree {
        self.syntax@
    }

    fn can_cast(kind: u16) -> (r: bool) {
        kind == SyntaxKind::CONTEXT_DIFF_FILE.to_raw()
    }

    fn cast(syntax: SyntaxNode) -> (r: Option<Self>) {
        if syntax.kind_raw() == SyntaxKind::CONTEXT_DIFF_FILE.to_raw() {
            Some(Self { syntax })
        } else {
            None
        }
    }

    fn syntax(&self) -> (r: &SyntaxNode) {
        &self.syntax
    }
}

/// AST node for ContextOldFile
#[derive(Debug, Clone, PartialEq, Eq, Hash)]
pub struct ContextOldFile {
    syntax: SyntaxNode,
}

impl AstNode for ContextOldFile {
    open spec fn raw_kind() -> u16 {
        SyntaxKind::CONTEXT_OLD_FILE.raw()
    }

    closed spec fn tree(&self) -> Tree {
        self.syntax@
    }

    fn can_cast(kind: u16) -> (r: bool) {
        kind == SyntaxKind::CONTEXT_OLD_FILE.to_raw()
    }

    fn cast(syntax: SyntaxNode) -> (r: Option<Self>) {
        if syntax.kind_raw() == SyntaxKind::CONTEXT_OLD_FILE.to_raw() {
            Some(Self { syntax })
        } else {
            None
        }
    }

    fn syntax(&self) -> (r: &SyntaxNode) {
        &self.syntax
    }
}

/// AST node for ContextNewFile
#[derive(Debug, Clone, PartialEq, Eq, Hash)]
pub struct ContextNewFile {
    syntax: SyntaxNode,
}

impl AstNode for ContextNewFile {
    open spec fn raw_kind() -> u16 {
        SyntaxKind::CONTEXT_NEW_FILE.raw()
    }

    closed spec fn tree(&self) -> Tree {
        self.syntax@
    }

    fn can_cast(kind: u16) -> (r: bool) {
        kind == SyntaxKind::CONTEXT_NEW_FILE.to_raw()
    }

    fn cast(syntax: SyntaxNode) -> (r: Option<Self>) {
        if syntax.kind_raw() == SyntaxKind::CONTEXT_NEW_FILE.to_raw() {
            Some(Self { syntax })
        } else {
            None
        }
    }

    fn syntax(&self) -> (r: &SyntaxNode) {
        &self.syntax
    }
}

/// AST node for ContextHunk
#[derive(Debug, Clone, PartialEq, Eq, Hash)]
pub struct ContextHunk {
    syntax: SyntaxNode,
}

impl AstNode for ContextHunk {
    open spec fn raw_kind() -> u16 {
        SyntaxKind::CONTEXT_HUNK.raw()
    }

    closed spec fn tree(&self) -> Tree {
        self.syntax@
    }

    fn can_cast(kind: u16) -> (r: bool) {
        kind == SyntaxKind::CONTEXT_HUNK.to_raw()
    }

    fn cast(syntax: SyntaxNode) -> (r: Option<Self>) {
        if syntax.kind_raw() == SyntaxKind::CONTEXT_HUNK.to_raw() {
            Some(Self { syntax })
        } else {
            None
        }
    }

    fn syntax(&self) -> (r: &SyntaxNode) {
        &self.syntax
    }
}

/// AST node for ContextHunkHeader
#[derive(Debug, Clone, PartialEq, Eq, Hash)]
pub struct ContextHunkHeader {
    syntax: SyntaxNode,
}

impl AstNode for ContextHunkHeader {
    open spec fn raw_kind() -> u16 {
        SyntaxKind::CONTEXT_HUNK_HEADER.raw()
    }

    closed spec fn tree(&self) -> Tree {
        self.syntax@
    }

    fn can_cast(kind: u16) -> (r: bool) {
        kind == SyntaxKind::CONTEXT_HUNK_HEADER.to_raw()
    }

    fn cast(syntax: SyntaxNode) -> (r: Option<Self>) {
        if syntax.kind_raw() == SyntaxKind::CONTEXT_HUNK_HEADER.to_raw() {
            Some(Self { syntax })
        } else {
            None
        }
    }

    fn syntax(&self) -> (r: &SyntaxNode) {
        &self.syntax
    }
}

/// AST node for ContextOldSection
#[derive(Debug, Clone, PartialEq, Eq, Hash)]
pub struct ContextOldSection {
    syntax: SyntaxNode,
}

impl AstNode for ContextOldSection {
    open spec fn raw_kind() -> u16 {
        SyntaxKind::CONTEXT_OLD_SECTION.raw()
    }

    closed spec fn tree(&self) -> Tree {
        self.syntax@
    }

    fn can_cast(kind: u16) -> (r: bool) {
        kind == SyntaxKind::CONTEXT_OLD_SECTION.to_raw()
    }

    fn cast(syntax: SyntaxNode) -> (r: Option<Self>) {
        if syntax.kind_raw() == SyntaxKind::CONTEXT_OLD_SECTION.to_raw() {
            Some(Self { syntax })
        } else {
            None
        }
    }

    fn syntax(&self) -> (r: &SyntaxNode) {
        &self.syntax
    }
}

/// AST node for ContextNewSection
#[derive(Debug, Clone, PartialEq, Eq, Hash)]
pub struct ContextNewSection {
    syntax: SyntaxNode,
}

impl AstNode for ContextNewSection {
    open spec fn raw_kind() -> u16 {
        SyntaxKind::CONTEXT_NEW_SECTION.raw()
    }

    closed spec fn tree(&self) -> Tree {
        self.syntax@
    }

    fn can_cast(kind: u16) -> (r: bool) {
        kind == SyntaxKind::CONTEXT_NEW_SECTION.to_raw()
    }

    fn cast(syntax: SyntaxNode) -> (r: Option<Self>) {
        if syntax.kind_raw() == SyntaxKind::CONTEXT_NEW_SECTION.to_raw() {
            Some(Self { syntax })
        } else {
            None
        }
    }

    fn syntax(&self) -> (r: &SyntaxNode) {
        &self.syntax
    }
}

/// AST node for ContextChangeLine
#[derive(Debug, Clone, PartialEq, Eq, Hash)]
pub struct ContextChangeLine {
    syntax: SyntaxNode,
}

impl AstNode for ContextChangeLine {
    open spec fn raw_kind() -> u16 {
        SyntaxKind::CONTEXT_CHANGE_LINE.raw()
    }

    closed spec fn tree(&self) -> Tree {
        self.syntax@
    }

    fn can_cast(kind: u16) -> (r: bool) {
        kind == SyntaxKind::CONTEXT_CHANGE_LINE.to_raw()
    }

    fn cast(syntax: SyntaxNode) -> (r: Option<Self>) {
        if syntax.kind_raw() == SyntaxKind::CONTEXT_CHANGE_LINE.to_raw() {
            Some(Self { syntax })
        } else {
            None
        }
    }

    fn syntax(&self) -> (r: &SyntaxNode) {
        &self.syntax
    }
}

/// AST node for EdCommand
#[derive(Debug, Clone, PartialEq, Eq, Hash)]
pub struct EdCommand {
    syntax: SyntaxNode,
}

impl AstNode for EdCommand {
    open spec fn raw_kind() -> u16 {
        SyntaxKind::ED_COMMAND.raw()
    }

    closed spec fn tree(&self) -> Tree {
        self.syntax@
    }

    fn can_cast(kind: u16) -> (r: bool) {
        kind == SyntaxKind::ED_COMMAND.to_raw()
    }

    fn cast(syntax: SyntaxNode) -> (r: Option<Self>) {
        if syntax.kind_raw() == SyntaxKind::ED_COMMAND.to_raw() {
            Some(Self { syntax })
        } else {
            None
        }
    }

    fn syntax(&self) -> (r: &SyntaxNode) {
        &self.syntax
    }
}

/// AST node for EdAddCommand
#[derive(Debug, Clone, PartialEq, Eq, Hash)]
pub struct EdAddCommand {
    syntax: SyntaxNode,
}

impl AstNode for EdAddCommand {
    open spec fn raw_kind() -> u16 {
        SyntaxKind::ED_ADD_COMMAND.raw()
    }

    closed spec fn tree(&self) -> Tree {
        self.syntax@
    }

    fn can_cast(kind: u16) -> (r: bool) {
        kind == SyntaxKind::ED_ADD_COMMAND.to_raw()
    }

    fn cast(syntax: SyntaxNode) -> (r: Option<Self>) {
        if syntax.kind_raw() == SyntaxKind::ED_ADD_COMMAND.to_raw() {
            Some(Self { syntax })
        } else {
            None
        }
    }

    fn syntax(&self) -> (r: &SyntaxNode) {
        &self.syntax
    }
}

/// AST node for EdDeleteCommand
#[derive(Debug, Clone, PartialEq, Eq, Hash)]
pub struct EdDeleteCommand {
    syntax: SyntaxNode,
}

impl AstNode for EdDeleteCommand {
    open spec fn raw_kind() -> u16 {
        SyntaxKind::ED_DELETE_COMMAND.raw()
    }

    closed spec fn tree(&self) -> Tree {
        self.syntax@
    }

    fn can_cast(kind: u16) -> (r: bool) {
        kind == SyntaxKind::ED_DELETE_COMMAND.to_raw()
    }

    fn cast(syntax: SyntaxNode) -> (r: Option<Self>) {
        if syntax.kind_raw() == SyntaxKind::ED_DELETE_COMMAND.to_raw() {
            Some(Self { syntax })
        } else {
            None
        }
    }

    fn syntax(&self) -> (r: &SyntaxNode) {
        &self.syntax
    }
}

/// AST node for EdChangeCommand
#[derive(Debug, Clone, PartialEq, Eq, Hash)]
pub struct EdChangeCommand {
    syntax: SyntaxNode,
}

impl AstNode for EdChangeCommand {
    open spec fn raw_kind() -> u16 {
        SyntaxKind::ED_CHANGE_COMMAND.raw()
    }

    closed spec fn tree(&self) -> Tree {
        self.syntax@
    }

    fn can_cast(kind: u16) -> (r: bool) {
        kind == SyntaxKind::ED_CHANGE_COMMAND.to_raw()
    }

    fn cast(syntax: SyntaxNode) -> (r: Option<Self>) {
        if syntax.kind_raw() == SyntaxKind::ED_CHANGE_COMMAND.to_raw() {
            Some(Self { syntax })
        } else {
            None
        }
    }

    fn syntax(&self) -> (r: &SyntaxNode) {
        &self.syntax
    }
}

/// AST node for EdContentLine
#[derive(Debug, Clone, PartialEq, Eq, Hash)]
pub struct EdContentLine {
    syntax: SyntaxNode,
}

impl AstNode for EdContentLine {
    open spec fn raw_kind() -> u16 {
        SyntaxKind::ED_CONTENT_LINE.raw()
    }

    closed spec fn tree(&self) -> Tree {
        self.syntax@
    }

    fn can_cast(kind: u16) -> (r: bool) {
        kind == SyntaxKind::ED_CONTENT_LINE.to_raw()
    }

    fn cast(syntax: SyntaxNode) -> (r: Option<Self>) {
        if syntax.kind_raw() == SyntaxKind::ED_CONTENT_LINE.to_raw() {
            Some(Self { syntax })
        } else {
            None
        }
    }

    fn syntax(&self) -> (r: &SyntaxNode) {
        &self.syntax
    }
}

/// AST node for NormalHunk
#[derive(Debug, Clone, PartialEq, Eq, Hash)]
pub struct NormalHunk {
    syntax: SyntaxNode,
}

impl AstNode for NormalHunk {
    open spec fn raw_kind() -> u16 {
        SyntaxKind::NORMAL_HUNK.raw()
    }

    closed spec fn tree(&self) -> Tree {
        self.syntax@
    }

    fn can_cast(kind: u16) -> (r: bool) {
        kind == SyntaxKind::NORMAL_HUNK.to_raw()
    }

    fn cast(syntax: SyntaxNode) -> (r: Option<Self>) {
        if syntax.kind_raw() == SyntaxKind::NORMAL_HUNK.to_raw() {
            Some(Self { syntax })
        } else {
            None
        }
    }

    fn syntax(&self) -> (r: &SyntaxNode) {
        &self.syntax
    }
}

/// AST node for NormalChangeCommand
#[derive(Debug, Clone, PartialEq, Eq, Hash)]
pub struct NormalChangeCommand {
    syntax: SyntaxNode,
}

impl AstNode for NormalChangeCommand {
    open spec fn raw_kind() -> u16 {
        SyntaxKind::NORMAL_CHANGE_COMMAND.raw()
    }

    closed spec fn tree(&self) -> Tree {
        self.syntax@
    }

    fn can_cast(kind: u16) -> (r: bool) {
        kind == SyntaxKind::NORMAL_CHANGE_COMMAND.to_raw()
    }

    fn cast(syntax: SyntaxNode) -> (r: Option<Self>) {
        if syntax.kind_raw() == SyntaxKind::NORMAL_CHANGE_COMMAND.to_raw() {
            Some(Self { syntax })
        } else {
            None
        }
    }

    fn syntax(&self) -> (r: &SyntaxNode) {
        &self.syntax
    }
}

/// AST node for NormalOldLines
#[derive(Debug, Clone, PartialEq, Eq, Hash)]
pub struct NormalOldLines {
    syntax: SyntaxNode,
}

impl AstNode for NormalOldLines {
    open spec fn raw_kind() -> u16 {
        SyntaxKind::NORMAL_OLD_LINES.raw()
    }

    closed spec fn tree(&self) -> Tree {
        self.syntax@
    }

    fn can_cast(kind: u16) -> (r: bool) {
        kind == SyntaxKind::NORMAL_OLD_LINES.to_raw()
    }

    fn cast(syntax: SyntaxNode) -> (r: Option<Self>) {
        if syntax.kind_raw() == SyntaxKind::NORMAL_OLD_LINES.to_raw() {
            Some(Self { syntax })
        } else {
            None
        }
    }

    fn syntax(&self) -> (r: &SyntaxNode) {
        &self.syntax
    }
}

/// AST node for NormalNewLines
#[derive(Debug, Clone, PartialEq, Eq, Hash)]
pub struct NormalNewLines {
    syntax: SyntaxNode,
}

impl AstNode for NormalNewLines {
    open spec fn raw_kind() -> u16 {
        SyntaxKind::NORMAL_NEW_LINES.raw()
    }

    closed spec fn tree(&self) -> Tree {
        self.syntax@
    }

    fn can_cast(kind: u16) -> (r: bool) {
        kind == SyntaxKind::NORMAL_NEW_LINES.to_raw()
    }

    fn cast(syntax: SyntaxNode) -> (r: Option<Self>) {
        if syntax.kind_raw() == SyntaxKind::NORMAL_NEW_LINES.to_raw() {
            Some(Self { syntax })
        } else {
            None
        }
    }

    fn syntax(&self) -> (r: &SyntaxNode) {
        &self.syntax
    }
}

/// AST node for NormalSeparator
#[derive(Debug, Clone, PartialEq, Eq, Hash)]
pub struct NormalSeparator {
    syntax: SyntaxNode,
}

impl AstNode for NormalSeparator {
    open spec fn raw_kind() -> u16 {
        SyntaxKind::NORMAL_SEPARATOR.raw()
    }

    closed spec fn tree(&self) -> Tree {
        self.syntax@
    }

    fn can_cast(kind: u16) -> (r: bool) {
        kind == SyntaxKind::NORMAL_SEPARATOR.to_raw()
    }

    fn cast(syntax: SyntaxNode) -> (r: Option<Self>) {
        if syntax.kind_raw() == SyntaxKind::NORMAL_SEPARATOR.to_raw() {
            Some(Self { syntax })
        } else {
            None
        }
    }

    fn syntax(&self) -> (r: &SyntaxNode) {
        &self.syntax
    }
}

impl Patch {
    /// Get all patch files in this patch
    pub fn patch_files(&self) -> (r: Vec<PatchFile>)
        ensures
            view_trees(r@) == of_kind(
                child_nodes(self.tree().children),
                SyntaxKind::PATCH_FILE.raw(),
            ),
    {
        children_as(&self.syntax, SyntaxKind::PATCH_FILE.to_raw())
    }

    /// Get all context diff files in this patch
    pub fn context_diff_files(&self) -> (r: Vec<ContextDiffFile>)
        ensures
            view_trees(r@) == of_kind(
                child_nodes(self.tree().children),
                SyntaxKind::CONTEXT_DIFF_FILE.raw(),
            ),
    {
        children_as(&self.syntax, SyntaxKind::CONTEXT_DIFF_FILE.to_raw())
    }

    /// Get all ed commands in this patch
    pub fn ed_commands(&self) -> (r: Vec<EdCommand>)
        ensures
            view_trees(r@) == of_kind(
                child_nodes(self.tree().children),
                SyntaxKind::ED_COMMAND.raw(),
            ),
    {
        children_as(&self.syntax, SyntaxKind::ED_COMMAND.to_raw())
    }

    /// Get all normal diff hunks in this patch
    pub fn normal_hunks(&self) -> (r: Vec<NormalHunk>)
        ensures
            view_trees(r@) == of_kind(
                child_nodes(self.tree().children),
                SyntaxKind::NORMAL_HUNK.raw(),
            ),
    {
        children_as(&self.syntax, SyntaxKind::NORMAL_HUNK.to_raw())
    }

    /// The format that the children of the root show: unified where there
    /// is a patch file, else context where there is a context diff file, else
    /// ed where there is an ed command, else normal where there is a normal
    /// hunk.
    pub open spec fn format(self) -> Option<DiffFormat> {
        format_of(self.tree().children)
    }

    /// Try to detect the format of this patch
    pub fn detect_format(&self) -> (r: Option<DiffFormat>)
        ensures
            r == self.format(),
    {
        if self.syntax.children_of_kind(SyntaxKind::PATCH_FILE.to_raw()).len() > 0 {
            return Some(DiffFormat::Unified);
        }
        if self.syntax.children_of_kind(SyntaxKind::CONTEXT_DIFF_FILE.to_raw()).len() > 0 {
            return Some(DiffFormat::Context);
        }
        if self.syntax.children_of_kind(SyntaxKind::ED_COMMAND.to_raw()).len() > 0 {
            return Some(DiffFormat::Ed);
        }
        if self.syntax.children_of_kind(SyntaxKind::NORMAL_HUNK.to_raw()).len() > 0 {
            return Some(DiffFormat::Normal);
        }
        None
    }
}

impl PatchFile {
    /// Get the old file header
    pub fn old_file(&self) -> (r: Option<OldFile>)
        ensures
            match nth_of(
                of_kind(child_nodes(self.tree().children), SyntaxKind::OLD_FILE.raw()),
                0,
            ) {
                Some(tree) => r is Some && r.unwrap().tree() == tree,
                None => r is None,
            },
    {
        nth_child_as(&self.syntax, SyntaxKind::OLD_FILE.to_raw(), 0)
    }

    /// Get the new file header
    pub fn new_file(&self) -> (r: Option<NewFile>)
        ensures
            match nth_of(
                of_kind(child_nodes(self.tree().children), SyntaxKind::NEW_FILE.raw()),
                0,
            ) {
                Some(tree) => r is Some && r.unwrap().tree() == tree,
                None => r is None,
            },
    {
        nth_child_as(&self.syntax, SyntaxKind::NEW_FILE.to_raw(), 0)
    }

    /// Get all hunks in this patch file
    pub fn hunks(&self) -> (r: Vec<Hunk>)
        ensures
            view_trees(r@) == of_kind(child_nodes(self.tree().children), SyntaxKind::HUNK.raw()),
    {
        children_as(&self.syntax, SyntaxKind::HUNK.to_raw())
    }
}

impl OldFile {
    /// Get the file path
    pub fn path(&self) -> (r: Option<SyntaxToken>)
        ensures
            match nth_of(
                tokens_of_kind(child_tokens(self.tree().children), SyntaxKind::PATH.raw()),
                0,
            ) {
                Some(token) => r is Some && r.unwrap()@ == token,
                None => r is None,
            },
    {
        first_token(&self.syntax, SyntaxKind::PATH.to_raw())
    }
}

impl NewFile {
    /// Get the file path
    pub fn path(&self) -> (r: Option<SyntaxToken>)
        ensures
            match nth_of(
                tokens_of_kind(child_tokens(self.tree().children), SyntaxKind::PATH.raw()),
                0,
            ) {
                Some(token) => r is Some && r.unwrap()@ == token,
                None => r is None,
            },
    {
        first_token(&self.syntax, SyntaxKind::PATH.to_raw())
    }
}

impl Hunk {
    /// Get the hunk header
    pub fn header(&self) -> (r: Option<HunkHeader>)
        ensures
            match nth_of(
                of_kind(child_nodes(self.tree().children), SyntaxKind::HUNK_HEADER.raw()),
                0,
            ) {
                Some(tree) => r is Some && r.unwrap().tree() == tree,
                None => r is None,
            },
    {
        nth_child_as(&self.syntax, SyntaxKind::HUNK_HEADER.to_raw(), 0)
    }

    /// Get all lines in this hunk
    ///
    /// The lines are the children of the kinds `CONTEXT_LINE`, `ADD_LINE`
    /// and `DELETE_LINE`, in order.
    pub fn lines(&self) -> (r: Vec<HunkLine>)
        ensures
            view_trees(r@) == child_nodes(self.tree().children).filter(is_line()),
    {
        let nodes = self.syntax.children();
        let ghost views = crate::edit::syntax::nodes_view(nodes@);
        let ghost pred = is_line();
        let mut out: Vec<HunkLine> = Vec::new();
        let mut i: usize = 0;
        assert(view_trees(out@) =~= views.subrange(0, 0).filter(pred));
        while i < nodes.len()
            invariant
                i <= nodes.len(),
                views == crate::edit::syntax::nodes_view(nodes@),
                pred == is_line(),
                view_trees(out@) == views.subrange(0, i as int).filter(pred),
            decreases nodes.len() - i,
        {
            let ghost before = out@;
            proof {
                let done = views.subrange(0, i as int);
                assert(views.subrange(0, i + 1) =~= done.push(views[i as int]));
                done.lemma_filter_push(views[i as int], pred);
            }
            let kind = nodes[i].kind_raw();
            if kind == SyntaxKind::CONTEXT_LINE.to_raw() || kind == SyntaxKind::ADD_LINE.to_raw()
                || kind == SyntaxKind::DELETE_LINE.to_raw() {
                out.push(HunkLine { syntax: nodes[i].clone() });
                assert(view_trees(out@) =~= view_trees(before).push(nodes@[i as int]@));
            }
            i += 1;
        }
        assert(views.subrange(0, views.len() as int) =~= views);
        out
    }
}

impl HunkHeader {
    /// Get the old file range for this hunk
    pub fn old_range(&self) -> (r: Option<HunkRange>)
        ensures
            match nth_of(
                of_kind(child_nodes(self.tree().children), SyntaxKind::HUNK_RANGE.raw()),
                0,
            ) {
                Some(tree) => r is Some && r.unwrap().tree() == tree,
                None => r is None,
            },
    {
        nth_child_as(&self.syntax, SyntaxKind::HUNK_RANGE.to_raw(), 0)
    }

    /// Get the new file range for this hunk
    pub fn new_range(&self) -> (r: Option<HunkRange>)
        ensures
            match nth_of(
                of_kind(child_nodes(self.tree().children), SyntaxKind::HUNK_RANGE.raw()),
                1,
            ) {
                Some(tree) => r is Some && r.unwrap().tree() == tree,
                None => r is None,
            },
    {
        nth_child_as(&self.syntax, SyntaxKind::HUNK_RANGE.to_raw(), 1)
    }
}

impl HunkRange {
    /// Get the starting line number
    pub fn start(&self) -> (r: Option<u32>)
        ensures
            r == match nth_of(
                tokens_of_kind(child_tokens(self.tree().children), SyntaxKind::NUMBER.raw()),
                0,
            ) {
                Some(token) => number_of(token.1),
                None => None,
            },
    {
        self.number(0)
    }

    /// Get the number of lines in this range
    pub fn count(&self) -> (r: Option<u32>)
        ensures
            r == match nth_of(
                tokens_of_kind(child_tokens(self.tree().children), SyntaxKind::NUMBER.raw()),
                1,
            ) {
                Some(token) => number_of(token.1),
                None => None,
            },
    {
        self.number(1)
    }

    /// What `NUMBER` token `n` says.
    fn number(&self, n: usize) -> (r: Option<u32>)
        ensures
            r == match nth_of(
                tokens_of_kind(child_tokens(self.tree().children), SyntaxKind::NUMBER.raw()),
                n as int,
            ) {
                Some(token) => number_of(token.1),
                None => None,
            },
    {
        let found = self.syntax.tokens_of_kind(SyntaxKind::NUMBER.to_raw());
        if n < found.len() {
            assert(tokens_view(found@)[n as int] == found@[n as int]@);
            parse_number(found[n].text())
        } else {
            None
        }
    }
}

/// Whether a tree is a line of a hunk.
pub open spec fn is_line() -> spec_fn(Tree) -> bool {
    |t: Tree|
        t.kind == SyntaxKind::CONTEXT_LINE.raw() || t.kind == SyntaxKind::ADD_LINE.raw() || t.kind
            == SyntaxKind::DELETE_LINE.raw()
}


impl HunkLine {
    /// Attempt to cast this line as a context line
    pub fn as_context(&self) -> (r: Option<ContextLine>)
        ensures
            r is Some <==> self.tree().kind == SyntaxKind::CONTEXT_LINE.raw(),
            r is Some ==> r.unwrap().tree() == self.tree(),
    {
        ContextLine::cast(self.syntax.clone())
    }

    /// Attempt to cast this line as an add line
    pub fn as_add(&self) -> (r: Option<AddLine>)
        ensures
            r is Some <==> self.tree().kind == SyntaxKind::ADD_LINE.raw(),
            r is Some ==> r.unwrap().tree() == self.tree(),
    {
        AddLine::cast(self.syntax.clone())
    }

    /// Attempt to cast this line as a delete line
    pub fn as_delete(&self) -> (r: Option<DeleteLine>)
        ensures
            r is Some <==> self.tree().kind == SyntaxKind::DELETE_LINE.raw(),
            r is Some ==> r.unwrap().tree() == self.tree(),
    {
        DeleteLine::cast(self.syntax.clone())
    }

    /// Get the text content of this line
    pub fn text(&self) -> (r: Option<String>)
        ensures
            match line_text(self.tree().children, true) {
                Some(text) => r is Some && encode_utf8(r.unwrap()@) == text,
                None => r is None,
            },
    {
        line_text_of(&self.syntax, true)
    }
}

impl ContextDiffFile {
    /// Get the old file header
    pub fn old_file(&self) -> (r: Option<ContextOldFile>)
        ensures
            match nth_of(
                of_kind(child_nodes(self.tree().children), SyntaxKind::CONTEXT_OLD_FILE.raw()),
                0,
            ) {
                Some(tree) => r is Some && r.unwrap().tree() == tree,
                None => r is None,
            },
    {
        nth_child_as(&self.syntax, SyntaxKind::CONTEXT_OLD_FILE.to_raw(), 0)
    }

    /// Get the new file header
    pub fn new_file(&self) -> (r: Option<ContextNewFile>)
        ensures
            match nth_of(
                of_kind(child_nodes(self.tree().children), SyntaxKind::CONTEXT_NEW_FILE.raw()),
                0,
            ) {
                Some(tree) => r is Some && r.unwrap().tree() == tree,
                None => r is None,
            },
    {
        nth_child_as(&self.syntax, SyntaxKind::CONTEXT_NEW_FILE.to_raw(), 0)
    }

    /// Get all hunks in this context diff file
    pub fn hunks(&self) -> (r: Vec<ContextHunk>)
        ensures
            view_trees(r@) == of_kind(
                child_nodes(self.tree().children),
                SyntaxKind::CONTEXT_HUNK.raw(),
            ),
    {
        children_as(&self.syntax, SyntaxKind::CONTEXT_HUNK.to_raw())
    }
}

impl ContextOldFile {
    /// Get the file path token
    pub fn path(&self) -> (r: Option<SyntaxToken>)
        ensures
            match nth_of(
                tokens_of_kind(child_tokens(self.tree().children), SyntaxKind::PATH.raw()),
                0,
            ) {
                Some(token) => r is Some && r.unwrap()@ == token,
                None => r is None,
            },
    {
        first_token(&self.syntax, SyntaxKind::PATH.to_raw())
    }
}

impl ContextNewFile {
    /// Get the file path token
    pub fn path(&self) -> (r: Option<SyntaxToken>)
        ensures
            match nth_of(
                tokens_of_kind(child_tokens(self.tree().children), SyntaxKind::PATH.raw()),
                0,
            ) {
                Some(token) => r is Some && r.unwrap()@ == token,
                None => r is None,
            },
    {
        first_token(&self.syntax, SyntaxKind::PATH.to_raw())
    }
}

impl ContextHunk {
    /// Get the hunk header
    pub fn header(&self) -> (r: Option<ContextHunkHeader>)
        ensures
            match nth_of(
                of_kind(child_nodes(self.tree().children), SyntaxKind::CONTEXT_HUNK_HEADER.raw()),
                0,
            ) {
                Some(tree) => r is Some && r.unwrap().tree() == tree,
                None => r is None,
            },
    {
        nth_child_as(&self.syntax, SyntaxKind::CONTEXT_HUNK_HEADER.to_raw(), 0)
    }

    /// Get the old section
    pub fn old_section(&self) -> (r: Option<ContextOldSection>)
        ensures
            match nth_of(
                of_kind(child_nodes(self.tree().children), SyntaxKind::CONTEXT_OLD_SECTION.raw()),
                0,
            ) {
                Some(tree) => r is Some && r.unwrap().tree() == tree,
                None => r is None,
            },
    {
        nth_child_as(&self.syntax, SyntaxKind::CONTEXT_OLD_SECTION.to_raw(), 0)
    }

    /// Get the new section
    pub fn new_section(&self) -> (r: Option<ContextNewSection>)
        ensures
            match nth_of(
                of_kind(child_nodes(self.tree().children), SyntaxKind::CONTEXT_NEW_SECTION.raw()),
                0,
            ) {
                Some(tree) => r is Some && r.unwrap().tree() == tree,
                None => r is None,
            },
    {
        nth_child_as(&self.syntax, SyntaxKind::CONTEXT_NEW_SECTION.to_raw(), 0)
    }
}

impl EdCommand {
    /// Try to cast as an add command
    pub fn as_add(&self) -> (r: Option<EdAddCommand>)
        ensures
            match nth_of(
                of_kind(child_nodes(self.tree().children), SyntaxKind::ED_ADD_COMMAND.raw()),
                0,
            ) {
                Some(tree) => r is Some && r.unwrap().tree() == tree,
                None => r is None,
            },
    {
        nth_child_as(&self.syntax, SyntaxKind::ED_ADD_COMMAND.to_raw(), 0)
    }

    /// Try to cast as a delete command
    pub fn as_delete(&self) -> (r: Option<EdDeleteCommand>)
        ensures
            match nth_of(
                of_kind(child_nodes(self.tree().children), SyntaxKind::ED_DELETE_COMMAND.raw()),
                0,
            ) {
                Some(tree) => r is Some && r.unwrap().tree() == tree,
                None => r is None,
            },
    {
        nth_child_as(&self.syntax, SyntaxKind::ED_DELETE_COMMAND.to_raw(), 0)
    }

    /// Try to cast as a change command
    pub fn as_change(&self) -> (r: Option<EdChangeCommand>)
        ensures
            match nth_of(
                of_kind(child_nodes(self.tree().children), SyntaxKind::ED_CHANGE_COMMAND.raw()),
                0,
            ) {
                Some(tree) => r is Some && r.unwrap().tree() == tree,
                None => r is None,
            },
    {
        nth_child_as(&self.syntax, SyntaxKind::ED_CHANGE_COMMAND.to_raw(), 0)
    }
}

impl EdAddCommand {
    /// Get the line numbers
    pub fn line_numbers(&self) -> (r: (Option<u32>, Option<u32>))
        ensures
            r.0 == nth_of(numbers_of(child_tokens(self.tree().children)), 0),
            r.1 == nth_of(numbers_of(child_tokens(self.tree().children)), 1),
    {
        line_numbers_of(&self.syntax)
    }

    /// Get content lines
    pub fn content_lines(&self) -> (r: Vec<EdContentLine>)
        ensures
            view_trees(r@) == of_kind(
                child_nodes(self.tree().children),
                SyntaxKind::ED_CONTENT_LINE.raw(),
            ),
    {
        children_as(&self.syntax, SyntaxKind::ED_CONTENT_LINE.to_raw())
    }
}

impl EdDeleteCommand {
    /// Get the line numbers
    pub fn line_numbers(&self) -> (r: (Option<u32>, Option<u32>))
        ensures
            r.0 == nth_of(numbers_of(child_tokens(self.tree().children)), 0),
            r.1 == nth_of(numbers_of(child_tokens(self.tree().children)), 1),
    {
        line_numbers_of(&self.syntax)
    }
}

impl EdChangeCommand {
    /// Get the line numbers
    pub fn line_numbers(&self) -> (r: (Option<u32>, Option<u32>))
        ensures
            r.0 == nth_of(numbers_of(child_tokens(self.tree().children)), 0),
            r.1 == nth_of(numbers_of(child_tokens(self.tree().children)), 1),
    {
        line_numbers_of(&self.syntax)
    }

    /// Get content lines
    pub fn content_lines(&self) -> (r: Vec<EdContentLine>)
        ensures
            view_trees(r@) == of_kind(
                child_nodes(self.tree().children),
                SyntaxKind::ED_CONTENT_LINE.raw(),
            ),
    {
        children_as(&self.syntax, SyntaxKind::ED_CONTENT_LINE.to_raw())
    }
}

impl EdContentLine {
    /// Get the text content of this line
    pub fn text(&self) -> (r: Option<String>)
        ensures
            match line_text(self.tree().children, false) {
                Some(text) => r is Some && encode_utf8(r.unwrap()@) == text,
                None => r is None,
            },
    {
        line_text_of(&self.syntax, false)
    }
}

impl NormalHunk {
    /// Get the change command
    pub fn command(&self) -> (r: Option<NormalChangeCommand>)
        ensures
            match nth_of(
                of_kind(child_nodes(self.tree().children), SyntaxKind::NORMAL_CHANGE_COMMAND.raw()),
                0,
            ) {
                Some(tree) => r is Some && r.unwrap().tree() == tree,
                None => r is None,
            },
    {
        nth_child_as(&self.syntax, SyntaxKind::NORMAL_CHANGE_COMMAND.to_raw(), 0)
    }

    /// Get old lines section
    pub fn old_lines(&self) -> (r: Option<NormalOldLines>)
        ensures
            match nth_of(
                of_kind(child_nodes(self.tree().children), SyntaxKind::NORMAL_OLD_LINES.raw()),
                0,
            ) {
                Some(tree) => r is Some && r.unwrap().tree() == tree,
                None => r is None,
            },
    {
        nth_child_as(&self.syntax, SyntaxKind::NORMAL_OLD_LINES.to_raw(), 0)
    }

    /// Get new lines section
    pub fn new_lines(&self) -> (r: Option<NormalNewLines>)
        ensures
            match nth_of(
                of_kind(child_nodes(self.tree().children), SyntaxKind::NORMAL_NEW_LINES.raw()),
                0,
            ) {
                Some(tree) => r is Some && r.unwrap().tree() == tree,
                None => r is None,
            },
    {
        nth_child_as(&self.syntax, SyntaxKind::NORMAL_NEW_LINES.to_raw(), 0)
    }
}

/// Parse a patch file from text
///
/// The tree is the tree that the grammar gives for the tokens of the text.
/// It covers the text byte for byte, its root is of kind `ROOT`, and no
/// error is recorded: what the parser cannot place stays in the tree as it
/// stands in the text.
pub fn parse(text: &str) -> (r: Parse<Patch>)
    requires
        text.spec_bytes().len() <= u32::MAX,
    ensures
        r.root() == crate::edit::grammar::patch_tree(
            crate::edit::lex::tokens_of(text.spec_bytes()),
        ),
        r.root().text() == text.spec_bytes(),
        r.root().kind == SyntaxKind::ROOT.raw(),
        r.is_ok(),
{
    let tokens = lex(text);
    proof {
        let views = token_views(tokens@);
        lemma_text_upto_all(views, views.len() as int);
        assert(crate::edit::lex::token_texts(views).subrange(0, views.len() as int)
            =~= crate::edit::lex::token_texts(views));
    }
    let parser = Parser::new(tokens);
    let (green, errors) = parser.parse();
    Parse::new_with_positioned_errors(green, errors, Vec::new())
}

} // verus!
