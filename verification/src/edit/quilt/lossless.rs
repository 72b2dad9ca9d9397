//! Lossless AST structures for quilt series files
use crate::edit::green::{node_tree, Tree};
use crate::edit::parse::lemma_encode_append;
use crate::edit::quilt::lex::SyntaxKind;
use crate::edit::syntax::{
    child_nodes, child_tokens, nodes_view, of_kind, tokens_of_kind, tokens_view, SyntaxNode,
    SyntaxToken,
};
use crate::parse::{children_as, nth_child_as, nth_of, view_trees, AstNode, Parse};
use vstd::prelude::*;
use vstd::string::{StringExecFns, StringSliceAdditionalSpecFns};
use vstd::utf8::encode_utf8;

pub use crate::parse::{ParseError, PositionedParseError};

verus! {

/// Language definition for quilt series file syntax
#[derive(Debug, Clone, Copy, PartialEq, Eq, Hash)]
pub enum QuiltLang {
    /// The language of series files
    Series,
}

impl QuiltLang {
    /// The kind that a number stands for; the number must stand for one.
    pub fn kind_from_raw(raw: u16) -> (r: SyntaxKind)
        requires
            SyntaxKind::of_raw(raw) is Some,
        ensures
            Some(r) == SyntaxKind::of_raw(raw),
    {
        SyntaxKind::from_raw(raw).unwrap()
    }

    /// The number that stands for a kind.
    pub fn kind_to_raw(kind: SyntaxKind) -> (r: u16)
        ensures
            r == kind.raw(),
    {
        kind.to_raw()
    }
}

/// The first node of kind `kind` below a tree.
pub open spec fn first_child(tree: Tree, kind: u16) -> Option<Tree> {
    nth_of(of_kind(child_nodes(tree.children), kind), 0)
}

/// The text of the first token of kind `kind` below a tree.
pub open spec fn first_token_text(tree: Tree, kind: u16) -> Option<Seq<u8>> {
    match nth_of(tokens_of_kind(child_tokens(tree.children), kind), 0) {
        Some(token) => Some(token.1),
        None => None,
    }
}

/// The nodes of kind `kind` that stand first of their kind below one of
/// `trees`, in order.
pub open spec fn first_children(trees: Seq<Tree>, kind: u16) -> Seq<Tree>
    decreases trees.len(),
{
    if trees.len() == 0 {
        Seq::empty()
    } else {
        match first_child(trees.last(), kind) {
            Some(child) => first_children(trees.drop_last(), kind).push(child),
            None => first_children(trees.drop_last(), kind),
        }
    }
}

/// The patch entries of a series: of every entry the first patch entry
/// below it, in order.
pub open spec fn patch_trees(root: Tree) -> Seq<Tree> {
    first_children(
        of_kind(child_nodes(root.children), SyntaxKind::SERIES_ENTRY.raw()),
        SyntaxKind::PATCH_ENTRY.raw(),
    )
}

/// The name of a patch entry: the text of its first `PATCH_NAME` token.
pub open spec fn patch_name(patch: Tree) -> Option<Seq<u8>> {
    first_token_text(patch, SyntaxKind::PATCH_NAME.raw())
}

/// The values of the option items, in order; an item without an `OPTION`
/// token is passed over.
pub open spec fn item_values(items: Seq<Tree>) -> Seq<Seq<u8>>
    decreases items.len(),
{
    if items.len() == 0 {
        Seq::empty()
    } else {
        match first_token_text(items.last(), SyntaxKind::OPTION.raw()) {
            Some(value) => item_values(items.drop_last()).push(value),
            None => item_values(items.drop_last()),
        }
    }
}

/// The options of an `OPTIONS` node, as texts.
pub open spec fn options_values(options: Tree) -> Seq<Seq<u8>> {
    item_values(of_kind(child_nodes(options.children), SyntaxKind::OPTION_ITEM.raw()))
}

/// The options of a patch entry, as texts: those of its first `OPTIONS`
/// node, or none.
pub open spec fn patch_options(patch: Tree) -> Seq<Seq<u8>> {
    match first_child(patch, SyntaxKind::OPTIONS.raw()) {
        Some(options) => options_values(options),
        None => Seq::empty(),
    }
}

/// The bytes of each text.
pub open spec fn texts_bytes(texts: Seq<String>) -> Seq<Seq<u8>> {
    texts.map_values(|t: String| encode_utf8(t@))
}

/// The texts of the `TEXT` tokens behind the first `#`, one after another.
pub open spec fn comment_text(tokens: Seq<(u16, Seq<u8>)>) -> (bool, Seq<u8>)
    decreases tokens.len(),
{
    if tokens.len() == 0 {
        (false, Seq::empty())
    } else {
        let before = comment_text(tokens.drop_last());
        if tokens.last().0 == SyntaxKind::HASH.raw() {
            (true, before.1)
        } else if before.0 && tokens.last().0 == SyntaxKind::TEXT.raw() {
            (true, before.1 + tokens.last().1)
        } else {
            before
        }
    }
}

/// The text of the first token of kind `kind` below `node`.
fn first_text(node: &SyntaxNode, kind: u16) -> (r: Option<String>)
    ensures
        match first_token_text(node@, kind) {
            Some(text) => r is Some && encode_utf8(r.unwrap()@) == text,
            None => r is None,
        },
{
    let found = node.tokens_of_kind(kind);
    if found.len() > 0 {
        assert(tokens_view(found@)[0] == found@[0]@);
        Some(String::from_str(found[0].text()))
    } else {
        None
    }
}

/// Of every node the first node of kind `kind` below it, as a view.
fn first_children_as<T: AstNode>(nodes: &Vec<SyntaxNode>, kind: u16) -> (r: Vec<T>)
    requires
        kind == T::raw_kind(),
    ensures
        view_trees(r@) == first_children(nodes_view(nodes@), kind),
{
    let ghost views = nodes_view(nodes@);
    let mut out: Vec<T> = Vec::new();
    let mut i: usize = 0;
    assert(view_trees(out@) =~= first_children(views.subrange(0, 0), kind));
    while i < nodes.len()
        invariant
            i <= nodes.len(),
            kind == T::raw_kind(),
            views == nodes_view(nodes@),
            view_trees(out@) == first_children(views.subrange(0, i as int), kind),
        decreases nodes.len() - i,
    {
        let ghost before = out@;
        proof {
            assert(views.subrange(0, i + 1).drop_last() =~= views.subrange(0, i as int));
            assert(views.subrange(0, i + 1).last() == nodes@[i as int]@);
        }
        match nth_child_as::<T>(&nodes[i], kind, 0) {
            Some(child) => {
                out.push(child);
                assert(view_trees(out@) =~= view_trees(before).push(child.tree()));
            },
            None => {},
        }
        i += 1;
    }
    assert(views.subrange(0, views.len() as int) =~= views);
    out
}


/// AST node for SeriesFile
#[derive(Debug, Clone, PartialEq, Eq, Hash)]
pub struct SeriesFile {
    pub(crate) syntax: SyntaxNode,
}

impl AstNode for SeriesFile {
    open spec fn raw_kind() -> u16 {
        SyntaxKind::ROOT.raw()
    }

    closed spec fn tree(&self) -> Tree {
        self.syntax@
    }

    fn can_cast(kind: u16) -> (r: bool) {
        kind == SyntaxKind::ROOT.to_raw()
    }

    fn cast(syntax: SyntaxNode) -> (r: Option<Self>) {
        if syntax.kind_raw() == SyntaxKind::ROOT.to_raw() {
            Some(Self { syntax })
        } else {
            None
        }
    }

    fn syntax(&self) -> (r: &SyntaxNode) {
        &self.syntax
    }
}

/// AST node for SeriesEntry
#[derive(Debug, Clone, PartialEq, Eq, Hash)]
pub struct SeriesEntry {
    pub(crate) syntax: SyntaxNode,
}

impl AstNode for SeriesEntry {
    open spec fn raw_kind() -> u16 {
        SyntaxKind::SERIES_ENTRY.raw()
    }

    closed spec fn tree(&self) -> Tree {
        self.syntax@
    }

    fn can_cast(kind: u16) -> (r: bool) {
        kind == SyntaxKind::SERIES_ENTRY.to_raw()
    }

    fn cast(syntax: SyntaxNode) -> (r: Option<Self>) {
        if syntax.kind_raw() == SyntaxKind::SERIES_ENTRY.to_raw() {
            Some(Self { syntax })
        } else {
            None
        }
    }

    fn syntax(&self) -> (r: &SyntaxNode) {
        &self.syntax
    }
}

/// AST node for PatchEntry
#[derive(Debug, Clone, PartialEq, Eq, Hash)]
pub struct PatchEntry {
    pub(crate) syntax: SyntaxNode,
}

impl AstNode for PatchEntry {
    open spec fn raw_kind() -> u16 {
        SyntaxKind::PATCH_ENTRY.raw()
    }

    closed spec fn tree(&self) -> Tree {
        self.syntax@
    }

    fn can_cast(kind: u16) -> (r: bool) {
        kind == SyntaxKind::PATCH_ENTRY.to_raw()
    }

    fn cast(syntax: SyntaxNode) -> (r: Option<Self>) {
        if syntax.kind_raw() == SyntaxKind::PATCH_ENTRY.to_raw() {
            Some(Self { syntax })
        } else {
            None
        }
    }

    fn syntax(&self) -> (r: &SyntaxNode) {
        &self.syntax
    }
}

/// AST node for CommentLine
#[derive(Debug, Clone, PartialEq, Eq, Hash)]
pub struct CommentLine {
    pub(crate) syntax: SyntaxNode,
}

impl AstNode for CommentLine {
    open spec fn raw_kind() -> u16 {
        SyntaxKind::COMMENT_LINE.raw()
    }

    closed spec fn tree(&self) -> Tree {
        self.syntax@
    }

    fn can_cast(kind: u16) -> (r: bool) {
        kind == SyntaxKind::COMMENT_LINE.to_raw()
    }

    fn cast(syntax: SyntaxNode) -> (r: Option<Self>) {
        if syntax.kind_raw() == SyntaxKind::COMMENT_LINE.to_raw() {
            Some(Self { syntax })
        } else {
            None
        }
    }

    fn syntax(&self) -> (r: &SyntaxNode) {
        &self.syntax
    }
}

/// AST node for Options
#[derive(Debug, Clone, PartialEq, Eq, Hash)]
pub struct Options {
    pub(crate) syntax: SyntaxNode,
}

impl AstNode for Options {
    open spec fn raw_kind() -> u16 {
        SyntaxKind::OPTIONS.raw()
    }

    closed spec fn tree(&self) -> Tree {
        self.syntax@
    }

    fn can_cast(kind: u16) -> (r: bool) {
        kind == SyntaxKind::OPTIONS.to_raw()
    }

    fn cast(syntax: SyntaxNode) -> (r: Option<Self>) {
        if syntax.kind_raw() == SyntaxKind::OPTIONS.to_raw() {
            Some(Self { syntax })
        } else {
            None
        }
    }

    fn syntax(&self) -> (r: &SyntaxNode) {
        &self.syntax
    }
}

/// AST node for OptionItem
#[derive(Debug, Clone, PartialEq, Eq, Hash)]
pub struct OptionItem {
    pub(crate) syntax: SyntaxNode,
}

impl AstNode for OptionItem {
    open spec fn raw_kind() -> u16 {
        SyntaxKind::OPTION_ITEM.raw()
    }

    closed spec fn tree(&self) -> Tree {
        self.syntax@
    }

    fn can_cast(kind: u16) -> (r: bool) {
        kind == SyntaxKind::OPTION_ITEM.to_raw()
    }

    fn cast(syntax: SyntaxNode) -> (r: Option<Self>) {
        if syntax.kind_raw() == SyntaxKind::OPTION_ITEM.to_raw() {
            Some(Self { syntax })
        } else {
            None
        }
    }

    fn syntax(&self) -> (r: &SyntaxNode) {
        &self.syntax
    }
}

impl SeriesFile {
    /// Get all entries in the series file
    pub fn entries(&self) -> (r: Vec<SeriesEntry>)
        ensures
            view_trees(r@) == of_kind(
                child_nodes(self.tree().children),
                SyntaxKind::SERIES_ENTRY.raw(),
            ),
    {
        children_as(&self.syntax, SyntaxKind::SERIES_ENTRY.to_raw())
    }

    /// Get all patch entries in the series file
    pub fn patch_entries(&self) -> (r: Vec<PatchEntry>)
        ensures
            view_trees(r@) == patch_trees(self.tree()),
    {
        let entries = self.syntax.children_of_kind(SyntaxKind::SERIES_ENTRY.to_raw());
        first_children_as(&entries, SyntaxKind::PATCH_ENTRY.to_raw())
    }

    /// Get all comment lines in the series file
    pub fn comment_lines(&self) -> (r: Vec<CommentLine>)
        ensures
            view_trees(r@) == first_children(
                of_kind(child_nodes(self.tree().children), SyntaxKind::SERIES_ENTRY.raw()),
                SyntaxKind::COMMENT_LINE.raw(),
            ),
    {
        let entries = self.syntax.children_of_kind(SyntaxKind::SERIES_ENTRY.to_raw());
        first_children_as(&entries, SyntaxKind::COMMENT_LINE.to_raw())
    }

    /// Puts another tree in the place of the tree of the series.
    pub(crate) fn set_syntax(&mut self, syntax: SyntaxNode)
        ensures
            final(self).tree() == syntax@,
    {
        self.syntax = syntax;
    }

    /// Create a root node from a green node, which must be of kind `ROOT`
    pub fn new_root(green: rowan::GreenNode) -> (r: Self)
        requires
            node_tree(green).kind == SyntaxKind::ROOT.raw(),
        ensures
            r.tree() == node_tree(green),
    {
        SeriesFile { syntax: SyntaxNode::new_root(green) }
    }

    /// Create a root node for editing from a green node, which must be of
    /// kind `ROOT`
    pub fn new_root_mut(green: rowan::GreenNode) -> (r: Self)
        requires
            node_tree(green).kind == SyntaxKind::ROOT.raw(),
        ensures
            r.tree() == node_tree(green),
    {
        SeriesFile { syntax: SyntaxNode::new_root(green) }
    }
}

impl SeriesEntry {
    /// Try to cast this entry as a patch entry
    pub fn as_patch_entry(&self) -> (r: Option<PatchEntry>)
        ensures
            match first_child(self.tree(), SyntaxKind::PATCH_ENTRY.raw()) {
                Some(tree) => r is Some && r.unwrap().tree() == tree,
                None => r is None,
            },
    {
        nth_child_as(&self.syntax, SyntaxKind::PATCH_ENTRY.to_raw(), 0)
    }

    /// Try to cast this entry as a comment line
    pub fn as_comment_line(&self) -> (r: Option<CommentLine>)
        ensures
            match first_child(self.tree(), SyntaxKind::COMMENT_LINE.raw()) {
                Some(tree) => r is Some && r.unwrap().tree() == tree,
                None => r is None,
            },
    {
        nth_child_as(&self.syntax, SyntaxKind::COMMENT_LINE.to_raw(), 0)
    }
}

impl PatchEntry {
    /// Get the patch name
    pub fn name(&self) -> (r: Option<String>)
        ensures
            match patch_name(self.tree()) {
                Some(text) => r is Some && encode_utf8(r.unwrap()@) == text,
                None => r is None,
            },
    {
        first_text(&self.syntax, SyntaxKind::PATCH_NAME.to_raw())
    }

    /// Get the patch name token
    pub fn name_token(&self) -> (r: Option<SyntaxToken>)
        ensures
            match nth_of(
                tokens_of_kind(child_tokens(self.tree().children), SyntaxKind::PATCH_NAME.raw()),
                0,
            ) {
                Some(token) => r is Some && r.unwrap()@ == token,
                None => r is None,
            },
    {
        let mut found = self.syntax.tokens_of_kind(SyntaxKind::PATCH_NAME.to_raw());
        if found.len() > 0 {
            assert(tokens_view(found@)[0] == found@[0]@);
            Some(found.swap_remove(0))
        } else {
            None
        }
    }

    /// Get the options for this patch
    pub fn options(&self) -> (r: Option<Options>)
        ensures
            match first_child(self.tree(), SyntaxKind::OPTIONS.raw()) {
                Some(tree) => r is Some && r.unwrap().tree() == tree,
                None => r is None,
            },
    {
        nth_child_as(&self.syntax, SyntaxKind::OPTIONS.to_raw(), 0)
    }

    /// Get option strings
    pub fn option_strings(&self) -> (r: Vec<String>)
        ensures
            texts_bytes(r@) == patch_options(self.tree()),
    {
        match self.options() {
            Some(options) => options.option_strings(),
            None => {
                let r: Vec<String> = Vec::new();
                assert(texts_bytes(r@) =~= Seq::<Seq<u8>>::empty());
                r
            },
        }
    }
}

impl PatchEntry {
    /// Puts another tree in the place of the tree of the entry.
    pub(crate) fn set_syntax(&mut self, syntax: SyntaxNode)
        ensures
            final(self).tree() == syntax@,
    {
        self.syntax = syntax;
    }
}

impl CommentLine {
    /// Get the comment text (without the # prefix)
    pub fn text(&self) -> (r: String)
        ensures
            encode_utf8(r@) == comment_text(child_tokens(self.tree().children)).1,
    {
        let tokens = self.syntax.tokens();
        let ghost views = tokens_view(tokens@);
        let mut text = String::new();
        let mut found_hash = false;
        let mut i: usize = 0;
        proof {
            assert(views.subrange(0, 0) =~= Seq::empty());
            assert(encode_utf8(text@) =~= Seq::<u8>::empty());
        }
        while i < tokens.len()
            invariant
                i <= tokens.len(),
                views == tokens_view(tokens@),
                (found_hash, encode_utf8(text@)) == comment_text(views.subrange(0, i as int)),
            decreases tokens.len() - i,
        {
            proof {
                assert(views.subrange(0, i + 1).drop_last() =~= views.subrange(0, i as int));
                assert(views.subrange(0, i + 1).last() == tokens@[i as int]@);
            }
            let kind = tokens[i].kind_raw();
            if kind == SyntaxKind::HASH.to_raw() {
                found_hash = true;
            } else if found_hash && kind == SyntaxKind::TEXT.to_raw() {
                let ghost before = text@;
                let piece = tokens[i].text();
                text.append(piece);
                proof {
                    lemma_encode_append(before, piece@);
                }
            }
            i += 1;
        }
        assert(views.subrange(0, views.len() as int) =~= views);
        text
    }

    /// Get the full comment text (including the # prefix)
    pub fn full_text(&self) -> (r: String)
        ensures
            encode_utf8(r@) == self.tree().text(),
    {
        self.syntax.text()
    }
}

impl Options {
    /// Get the option items
    pub fn option_items(&self) -> (r: Vec<OptionItem>)
        ensures
            view_trees(r@) == of_kind(
                child_nodes(self.tree().children),
                SyntaxKind::OPTION_ITEM.raw(),
            ),
    {
        children_as(&self.syntax, SyntaxKind::OPTION_ITEM.to_raw())
    }

    /// Get option strings
    pub fn option_strings(&self) -> (r: Vec<String>)
        ensures
            texts_bytes(r@) == options_values(self.tree()),
    {
        let items = self.option_items();
        let ghost trees = view_trees(items@);
        let mut out: Vec<String> = Vec::new();
        let mut i: usize = 0;
        assert(texts_bytes(out@) =~= item_values(trees.subrange(0, 0)));
        while i < items.len()
            invariant
                i <= items.len(),
                trees == view_trees(items@),
                texts_bytes(out@) == item_values(trees.subrange(0, i as int)),
            decreases items.len() - i,
        {
            let ghost before = out@;
            proof {
                assert(trees.subrange(0, i + 1).drop_last() =~= trees.subrange(0, i as int));
                assert(trees.subrange(0, i + 1).last() == items@[i as int].tree());
            }
            match items[i].value() {
                Some(value) => {
                    out.push(value);
                    assert(texts_bytes(out@) =~= texts_bytes(before).push(encode_utf8(value@)));
                },
                None => {},
            }
            i += 1;
        }
        assert(trees.subrange(0, trees.len() as int) =~= trees);
        out
    }
}

impl OptionItem {
    /// Get the option value
    pub fn value(&self) -> (r: Option<String>)
        ensures
            match first_token_text(self.tree(), SyntaxKind::OPTION.raw()) {
                Some(text) => r is Some && encode_utf8(r.unwrap()@) == text,
                None => r is None,
            },
    {
        first_text(&self.syntax, SyntaxKind::OPTION.to_raw())
    }
}

/// Parse a quilt series file into a lossless AST
pub fn parse(text: &str) -> (r: Parse<SeriesFile>)
    requires
        text.spec_bytes().len() <= u32::MAX,
    ensures
        r.root() == crate::edit::quilt::parse::series_tree(
            crate::edit::quilt::lex::tokens_of(text.spec_bytes()),
        ),
        r.root().text() == text.spec_bytes(),
        r.root().kind == SyntaxKind::ROOT.raw(),
        crate::edit::quilt::parse::message_texts(r.messages())
            == crate::edit::quilt::parse::bad_entry_messages(
            crate::edit::quilt::parse::series_step(
                crate::edit::quilt::lex::tokens_of(text.spec_bytes()),
                0,
            ).1,
        ),
        r.positioned().len() == 0,
{
    crate::edit::quilt::parse::parse_series(text)
}

} // verus!
