//! Lossless editor for quilt series files
use crate::edit::parse::lemma_encode_append;
use crate::edit::quilt::editor::{first_named, patch_line, strs_bytes};
use crate::edit::quilt::lossless::{patch_trees, texts_bytes};
use crate::parse::{nth_of, view_trees, AstNode, Parse};
use vstd::prelude::*;
use vstd::string::{StringExecFns, StringSliceAdditionalSpecFns};
use vstd::utf8::encode_utf8;

pub mod cover;
pub mod editor;
pub mod kind;
/// Lexer for quilt series files
pub mod lex;
/// Lossless AST structures for quilt series files
pub mod lossless;
pub mod parse;
pub mod ranges;
pub mod replay;

pub use ranges::get_patch_line_range;
pub use lossless::{
    CommentLine, OptionItem, Options, PatchEntry, QuiltLang, SeriesEntry, SeriesFile,
};

verus! {

/// Parse a quilt series file into a lossless AST
///
/// The text must be short enough for a tree, which counts its text in 32
/// bits. That the tree of a series holds the bytes of every text, whatever
/// its length, is what `cover::lemma_round_trip` states.
pub fn parse(text: &str) -> (r: Parse<SeriesFile>)
    requires
        text.spec_bytes().len() <= u32::MAX,
    ensures
        r.root() == crate::edit::quilt::parse::series_tree(
            crate::edit::quilt::lex::tokens_of(text.spec_bytes()),
        ),
        r.root().text() == text.spec_bytes(),
        r.root().kind == kind::SyntaxKind::ROOT.raw(),
        crate::edit::quilt::parse::message_texts(r.messages())
            == crate::edit::quilt::parse::bad_entry_messages(
            crate::edit::quilt::parse::series_step(
                crate::edit::quilt::lex::tokens_of(text.spec_bytes()),
                0,
            ).1,
        ),
        r.positioned().len() == 0,
{
    lossless::parse(text)
}

/// Extension methods for quilt Parse results
impl Parse<SeriesFile> {
    /// Get the parsed quilt series tree
    pub fn quilt_tree(&self) -> (r: SeriesFile)
        requires
            self.root().kind == kind::SyntaxKind::ROOT.raw(),
        ensures
            r.tree() == self.root(),
    {
        SeriesFile::new_root(self.green().clone())
    }

    /// Get a quilt series tree for editing
    pub fn quilt_tree_mut(&self) -> (r: SeriesFile)
        requires
            self.root().kind == kind::SyntaxKind::ROOT.raw(),
        ensures
            r.tree() == self.root(),
    {
        SeriesFile::new_root_mut(self.green().clone())
    }

    /// Get a root for the quilt tree for editing
    pub fn quilt_root_mut(&self) -> (r: crate::edit::syntax::SyntaxNode)
        ensures
            r@ == self.root(),
    {
        self.syntax_node()
    }
}

/// An entry of a series that is being built.
pub enum SeriesBuilderEntry {
    /// A patch with its options
    Patch { name: String, options: Vec<String> },
    /// A comment
    Comment(String),
}

/// An entry of a series that is being built, as a mathematical value.
pub enum BuilderEntryView {
    Patch(Seq<u8>, Seq<Seq<u8>>),
    Comment(Seq<u8>),
}

impl View for SeriesBuilderEntry {
    type V = BuilderEntryView;

    open spec fn view(&self) -> BuilderEntryView {
        match self {
            SeriesBuilderEntry::Patch { name, options } => BuilderEntryView::Patch(
                encode_utf8(name@),
                texts_bytes(options@),
            ),
            SeriesBuilderEntry::Comment(text) => BuilderEntryView::Comment(encode_utf8(text@)),
        }
    }
}

impl BuilderEntryView {
    /// The line that the builder writes for the entry: a patch as its name
    /// and its options with a space before each, a comment as `# ` and its
    /// text; each with a line feed.
    pub open spec fn line(self) -> Seq<u8> {
        match self {
            BuilderEntryView::Patch(name, options) => patch_line(name, options),
            BuilderEntryView::Comment(text) => seq![0x23u8, 0x20u8] + text + seq![0x0au8],
        }
    }
}

/// The lines that the builder writes for the entries, one after another.
pub open spec fn builder_text(entries: Seq<BuilderEntryView>) -> Seq<u8>
    decreases entries.len(),
{
    if entries.len() == 0 {
        Seq::empty()
    } else {
        builder_text(entries.drop_last()) + entries.last().line()
    }
}

/// Builder for creating quilt series files programmatically
pub struct SeriesBuilder {
    entries: Vec<SeriesBuilderEntry>,
}

impl View for SeriesBuilder {
    type V = Seq<BuilderEntryView>;

    closed spec fn view(&self) -> Seq<BuilderEntryView> {
        self.entries@.map_values(|e: SeriesBuilderEntry| e@)
    }
}

/// Copies of the texts.
fn own_strs(texts: &[&str]) -> (r: Vec<String>)
    ensures
        texts_bytes(r@) == strs_bytes(texts@),
{
    let mut r: Vec<String> = Vec::new();
    let mut i: usize = 0;
    while i < texts.len()
        invariant
            i <= texts.len(),
            texts_bytes(r@) == strs_bytes(texts@).subrange(0, i as int),
        decreases texts.len() - i,
    {
        let ghost before = r@;
        r.push(String::from_str(texts[i]));
        assert(texts_bytes(r@) =~= texts_bytes(before).push(texts@[i as int].spec_bytes()));
        assert(strs_bytes(texts@).subrange(0, i + 1) =~= strs_bytes(texts@).subrange(
            0,
            i as int,
        ).push(texts@[i as int].spec_bytes()));
        i += 1;
    }
    assert(strs_bytes(texts@).subrange(0, texts@.len() as int) =~= strs_bytes(texts@));
    r
}

impl SeriesBuilder {
    /// Create a new series builder
    pub fn new() -> (r: Self)
        ensures
            r@ == Seq::<BuilderEntryView>::empty(),
    {
        let r = Self { entries: Vec::new() };
        assert(r@ =~= Seq::<BuilderEntryView>::empty());
        r
    }

    /// Add a patch entry
    pub fn add_patch(self, name: &str, options: &[&str]) -> (r: Self)
        ensures
            r@ == self@.push(BuilderEntryView::Patch(name.spec_bytes(), strs_bytes(options@))),
    {
        let mut builder = self;
        let entry = SeriesBuilderEntry::Patch {
            name: String::from_str(name),
            options: own_strs(options),
        };
        builder.entries.push(entry);
        assert(builder@ =~= self@.push(
            BuilderEntryView::Patch(name.spec_bytes(), strs_bytes(options@)),
        ));
        builder
    }

    /// Add a comment
    pub fn add_comment(self, text: &str) -> (r: Self)
        ensures
            r@ == self@.push(BuilderEntryView::Comment(text.spec_bytes())),
    {
        let mut builder = self;
        builder.entries.push(SeriesBuilderEntry::Comment(String::from_str(text)));
        assert(builder@ =~= self@.push(BuilderEntryView::Comment(text.spec_bytes())));
        builder
    }

    /// Build the series file
    ///
    /// The series is parsed from the lines of the entries, and so holds
    /// these lines byte for byte.
    pub fn build(self) -> (r: SeriesFile)
        requires
            builder_text(self@).len() <= u32::MAX,
        ensures
            r.tree() == parse::series_tree(lex::tokens_of(builder_text(self@))),
            r.tree().text() == builder_text(self@),
            r.tree().kind == kind::SyntaxKind::ROOT.raw(),
    {
        let mut text = String::new();
        let ghost all = self@;
        let mut i: usize = 0;
        proof {
            assert(encode_utf8(text@) =~= Seq::<u8>::empty());
            assert(all.subrange(0, 0) =~= Seq::<BuilderEntryView>::empty());
        }
        while i < self.entries.len()
            invariant
                i <= self.entries.len(),
                all == self@,
                encode_utf8(text@) == builder_text(all.subrange(0, i as int)),
            decreases self.entries.len() - i,
        {
            let ghost line_start = encode_utf8(text@);
            proof {
                assert(all.subrange(0, i + 1).drop_last() =~= all.subrange(0, i as int));
                assert(all.subrange(0, i + 1).last() == self.entries@[i as int]@);
            }
            match &self.entries[i] {
                SeriesBuilderEntry::Patch { name, options } => {
                    push_text(&mut text, name.as_str());
                    let ghost opts = texts_bytes(options@);
                    let mut k: usize = 0;
                    assert(opts.subrange(0, 0) =~= Seq::<Seq<u8>>::empty());
                    assert(line_start + encode_utf8(name@) =~= line_start + encode_utf8(name@)
                        + editor::options_text(opts.subrange(0, 0)));
                    while k < options.len()
                        invariant
                            k <= options.len(),
                            opts == texts_bytes(options@),
                            encode_utf8(text@) == line_start + encode_utf8(name@)
                                + editor::options_text(opts.subrange(0, k as int)),
                        decreases options.len() - k,
                    {
                        proof {
                            assert(opts.subrange(0, k + 1).drop_last() =~= opts.subrange(
                                0,
                                k as int,
                            ));
                            assert(opts.subrange(0, k + 1).last() == encode_utf8(
                                options@[k as int]@,
                            ));
                        }
                        push_byte(&mut text, ' ');
                        push_text(&mut text, options[k].as_str());
                        assert(encode_utf8(text@) =~= line_start + encode_utf8(name@)
                            + editor::options_text(opts.subrange(0, k + 1)));
                        k += 1;
                    }
                    assert(opts.subrange(0, opts.len() as int) =~= opts);
                    push_byte(&mut text, '\n');
                    assert(encode_utf8(text@) =~= line_start + patch_line(
                        encode_utf8(name@),
                        opts,
                    ));
                },
                SeriesBuilderEntry::Comment(comment) => {
                    push_byte(&mut text, '#');
                    push_byte(&mut text, ' ');
                    push_text(&mut text, comment.as_str());
                    push_byte(&mut text, '\n');
                    assert(encode_utf8(text@) =~= line_start + (seq![0x23u8, 0x20u8]
                        + encode_utf8(comment@) + seq![0x0au8]));
                },
            }
            i += 1;
        }
        assert(all.subrange(0, all.len() as int) =~= all);
        let parsed = parse(text.as_str());
        parsed.quilt_tree_mut()
    }
}

/// Appends a text to a text.
fn push_text(text: &mut String, piece: &str)
    ensures
        encode_utf8(final(text)@) == encode_utf8(old(text)@) + piece.spec_bytes(),
{
    proof {
        lemma_encode_append(text@, piece@);
    }
    text.append(piece);
}

/// Appends one of the characters space, `#` and line feed to a text.
fn push_byte(text: &mut String, c: char)
    requires
        c == ' ' || c == '#' || c == '\n',
    ensures
        encode_utf8(final(text)@) == encode_utf8(old(text)@) + seq![c as u8],
{
    let piece = if c == ' ' {
        " "
    } else if c == '#' {
        "#"
    } else {
        "\n"
    };
    proof {
        reveal_strlit(" ");
        reveal_strlit("#");
        reveal_strlit("\n");
        vstd::string::is_ascii_spec_bytes(piece);
        assert(piece.spec_bytes() =~= seq![c as u8]);
    }
    push_text(text, piece);
}

/// Find a patch entry by name
pub fn find_patch_by_name(series: &SeriesFile, name: &str) -> (r: Option<PatchEntry>)
    ensures
        match nth_of(
            patch_trees(series.tree()),
            first_named(patch_trees(series.tree()), name.spec_bytes(), 0),
        ) {
            Some(tree) => r is Some && r.unwrap().tree() == tree,
            None => r is None,
        },
{
    let mut patches = series.patch_entries();
    match series.position(name) {
        Some(i) => {
            assert(view_trees(patches@)[i as int] == patches@[i as int].tree());
            Some(patches.swap_remove(i))
        },
        None => None,
    }
}

} // verus!
