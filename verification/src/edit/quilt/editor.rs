//! Editor implementation for quilt series files
//!
//! Every edit replaces a range of the children of the root by freshly
//! built entries; what stands outside the range stays byte for byte.
use crate::bytes::equal;
use crate::edit::builder::TreeBuilder;
use crate::edit::green::{
    elem_text, element_views, elems_text, lemma_elems_text_append, lemma_elems_text_push,
    node_splice, node_tree, Elem, GreenElement, Tree,
};
use crate::edit::quilt::lex::SyntaxKind;
use crate::edit::quilt::replay::{
    clipped, edited, lemma_insert_into_any, lemma_listing_is_shown, shown_patches, Edit,
};
use crate::edit::quilt::lossless::{
    first_child, patch_name, patch_options, patch_trees, texts_bytes, PatchEntry, SeriesEntry,
    SeriesFile,
};
use crate::edit::syntax::{elements_view, SyntaxElement, SyntaxNode};
use crate::parse::{view_trees, AstNode};
use vstd::prelude::*;
use vstd::string::{StringExecFns, StringSliceAdditionalSpecFns};
use vstd::utf8::encode_utf8;

verus! {

/// The patch entry of an element of the root: the first patch entry below
/// it, where the element is a series entry.
pub open spec fn patch_of(e: Elem) -> Option<Tree> {
    match e {
        Elem::Node(tree) => if tree.kind == SyntaxKind::SERIES_ENTRY.raw() {
            first_child(tree, SyntaxKind::PATCH_ENTRY.raw())
        } else {
            None
        },
        Elem::Token(_, _) => None,
    }
}

/// Whether an element of the root is a series entry.
pub open spec fn is_entry(e: Elem) -> bool {
    e is Node && e->Node_0.kind == SyntaxKind::SERIES_ENTRY.raw()
}

/// The name of the patch of an element of the root.
pub open spec fn name_of(e: Elem) -> Option<Seq<u8>> {
    match patch_of(e) {
        Some(patch) => patch_name(patch),
        None => None,
    }
}

/// The index at or behind `from` of the element that holds patch number
/// `index`, counted from `from` on and from 0; the number of elements where
/// there are fewer patches.
pub open spec fn patch_slot(children: Seq<Elem>, index: int, from: int) -> int
    decreases children.len() - from,
{
    if from < 0 || from >= children.len() {
        children.len() as int
    } else if patch_of(children[from]) is Some {
        if index <= 0 {
            from
        } else {
            patch_slot(children, index - 1, from + 1)
        }
    } else {
        patch_slot(children, index, from + 1)
    }
}

/// As `patch_slot`, counting all series entries.
pub open spec fn entry_slot(children: Seq<Elem>, index: int, from: int) -> int
    decreases children.len() - from,
{
    if from < 0 || from >= children.len() {
        children.len() as int
    } else if is_entry(children[from]) {
        if index <= 0 {
            from
        } else {
            entry_slot(children, index - 1, from + 1)
        }
    } else {
        entry_slot(children, index, from + 1)
    }
}

/// The index at or behind `from` of the first element whose patch has the
/// name `name`; the number of elements where there is none.
pub open spec fn find_name(children: Seq<Elem>, name: Seq<u8>, from: int) -> int
    decreases children.len() - from,
{
    if from < 0 || from >= children.len() {
        children.len() as int
    } else if name_of(children[from]) == Some(name) {
        from
    } else {
        find_name(children, name, from + 1)
    }
}

/// The slots and the place of a name lie within the elements.
pub proof fn lemma_slots(children: Seq<Elem>, index: int, name: Seq<u8>, from: int)
    requires
        0 <= from <= children.len(),
    ensures
        from <= patch_slot(children, index, from) <= children.len(),
        from <= entry_slot(children, index, from) <= children.len(),
        from <= find_name(children, name, from) <= children.len(),
        find_name(children, name, from) < children.len() ==> name_of(
            children[find_name(children, name, from)],
        ) == Some(name),
    decreases children.len() - from,
{
    if from < children.len() {
        lemma_slots(children, index, name, from + 1);
        lemma_slots(children, index - 1, name, from + 1);
    }
}

/// An option in a node of its own.
pub open spec fn option_item(option: Seq<u8>) -> Elem {
    Elem::Node(
        Tree {
            kind: SyntaxKind::OPTION_ITEM.raw(),
            children: seq![Elem::Token(SyntaxKind::OPTION.raw(), option)],
        },
    )
}

/// A space token.
pub open spec fn space_token() -> Elem {
    Elem::Token(SyntaxKind::SPACE.raw(), seq![0x20u8])
}

/// The option items, with a space token between each two.
pub open spec fn option_elems(options: Seq<Seq<u8>>) -> Seq<Elem>
    decreases options.len(),
{
    if options.len() == 0 {
        Seq::empty()
    } else if options.len() == 1 {
        seq![option_item(options[0])]
    } else {
        option_elems(options.drop_last()).push(space_token()).push(option_item(options.last()))
    }
}

/// The entry that the editor builds for a patch: the name, then a space
/// and the options if there are any, then the end of the line.
pub open spec fn patch_entry_tree(name: Seq<u8>, options: Seq<Seq<u8>>) -> Tree {
    let head = seq![Elem::Token(SyntaxKind::PATCH_NAME.raw(), name)];
    let middle = if options.len() > 0 {
        seq![
            space_token(),
            Elem::Node(Tree { kind: SyntaxKind::OPTIONS.raw(), children: option_elems(options) }),
        ]
    } else {
        Seq::empty()
    };
    let tail = seq![Elem::Token(SyntaxKind::NEWLINE.raw(), seq![0x0au8])];
    Tree {
        kind: SyntaxKind::SERIES_ENTRY.raw(),
        children: seq![
            Elem::Node(
                Tree { kind: SyntaxKind::PATCH_ENTRY.raw(), children: head + middle + tail },
            ),
        ],
    }
}

/// The entry that the editor builds for a comment: `#`, then a space and
/// the text if there is any, then the end of the line.
pub open spec fn comment_entry_tree(text: Seq<u8>) -> Tree {
    let head = seq![Elem::Token(SyntaxKind::HASH.raw(), seq![0x23u8])];
    let middle = if text.len() > 0 {
        seq![space_token(), Elem::Token(SyntaxKind::TEXT.raw(), text)]
    } else {
        Seq::empty()
    };
    let tail = seq![Elem::Token(SyntaxKind::NEWLINE.raw(), seq![0x0au8])];
    Tree {
        kind: SyntaxKind::SERIES_ENTRY.raw(),
        children: seq![
            Elem::Node(
                Tree { kind: SyntaxKind::COMMENT_LINE.raw(), children: head + middle + tail },
            ),
        ],
    }
}

/// The options as a line writes them: a space before each.
pub open spec fn options_text(options: Seq<Seq<u8>>) -> Seq<u8>
    decreases options.len(),
{
    if options.len() == 0 {
        Seq::empty()
    } else {
        options_text(options.drop_last()) + seq![0x20u8] + options.last()
    }
}

/// The line of a patch: the name, a space and each option, a line feed.
pub open spec fn patch_line(name: Seq<u8>, options: Seq<Seq<u8>>) -> Seq<u8> {
    name + options_text(options) + seq![0x0au8]
}

/// The line of a comment: `#`, a space and the text if there is any, a
/// line feed.
pub open spec fn comment_line(text: Seq<u8>) -> Seq<u8> {
    seq![0x23u8] + (if text.len() > 0 {
        seq![0x20u8] + text
    } else {
        Seq::empty()
    }) + seq![0x0au8]
}

/// The text of one element, written out.
proof fn lemma_text_of_one(e: Elem)
    ensures
        elems_text(seq![e]) == elem_text(e),
{
    assert(seq![e].drop_last() =~= Seq::<Elem>::empty());
    assert(elems_text(seq![e].drop_last()) =~= Seq::<u8>::empty());
    assert(elems_text(seq![e]) =~= elem_text(e));
}

/// The text of the option items is that of the options, without the first
/// space.
proof fn lemma_option_elems_text(options: Seq<Seq<u8>>)
    requires
        options.len() > 0,
    ensures
        seq![0x20u8] + elems_text(option_elems(options)) == options_text(options),
    decreases options.len(),
{
    let item = option_item(options.last());
    lemma_text_of_one(Elem::Token(SyntaxKind::OPTION.raw(), options.last()));
    assert(elem_text(item) == options.last());
    if options.len() == 1 {
        lemma_text_of_one(item);
        assert(options.drop_last() =~= Seq::<Seq<u8>>::empty());
        assert(options_text(options.drop_last()) =~= Seq::<u8>::empty());
        assert(seq![0x20u8] + elems_text(option_elems(options)) =~= options_text(options));
    } else {
        let before = option_elems(options.drop_last());
        lemma_option_elems_text(options.drop_last());
        lemma_elems_text_push(before, space_token());
        lemma_elems_text_push(before.push(space_token()), item);
        assert(seq![0x20u8] + (elems_text(before) + seq![0x20u8] + options.last()) =~= (seq![
            0x20u8,
        ] + elems_text(before)) + seq![0x20u8] + options.last());
    }
}

/// The entry that the editor builds for a patch holds the line of the
/// patch.
pub proof fn lemma_patch_entry_text(name: Seq<u8>, options: Seq<Seq<u8>>)
    ensures
        patch_entry_tree(name, options).text() == patch_line(name, options),
{
    let tree = patch_entry_tree(name, options);
    let inner = tree.children[0]->Node_0;
    let head = seq![Elem::Token(SyntaxKind::PATCH_NAME.raw(), name)];
    let tail = seq![Elem::Token(SyntaxKind::NEWLINE.raw(), seq![0x0au8])];
    lemma_text_of_one(tree.children[0]);
    lemma_text_of_one(head[0]);
    lemma_text_of_one(tail[0]);
    if options.len() > 0 {
        let opts = Elem::Node(
            Tree { kind: SyntaxKind::OPTIONS.raw(), children: option_elems(options) },
        );
        let middle = seq![space_token(), opts];
        lemma_option_elems_text(options);
        lemma_text_of_one(space_token());
        lemma_elems_text_push(seq![space_token()], opts);
        assert(seq![space_token()].push(opts) =~= middle);
        lemma_elems_text_append(head, middle);
        lemma_elems_text_append(head + middle, tail);
        assert(inner.children =~= head + middle + tail);
    } else {
        assert(inner.children =~= head + tail);
        lemma_elems_text_append(head, tail);
        assert(options_text(options) =~= Seq::<u8>::empty());
        assert(name + options_text(options) + seq![0x0au8] =~= name + seq![0x0au8]);
    }
}

/// The entry that the editor builds for a comment holds the line of the
/// comment.
pub proof fn lemma_comment_entry_text(text: Seq<u8>)
    ensures
        comment_entry_tree(text).text() == comment_line(text),
{
    let tree = comment_entry_tree(text);
    let inner = tree.children[0]->Node_0;
    let head = seq![Elem::Token(SyntaxKind::HASH.raw(), seq![0x23u8])];
    let tail = seq![Elem::Token(SyntaxKind::NEWLINE.raw(), seq![0x0au8])];
    lemma_text_of_one(tree.children[0]);
    lemma_text_of_one(head[0]);
    lemma_text_of_one(tail[0]);
    if text.len() > 0 {
        let word = Elem::Token(SyntaxKind::TEXT.raw(), text);
        let middle = seq![space_token(), word];
        lemma_text_of_one(space_token());
        lemma_elems_text_push(seq![space_token()], word);
        assert(seq![space_token()].push(word) =~= middle);
        lemma_elems_text_append(head, middle);
        lemma_elems_text_append(head + middle, tail);
        assert(inner.children =~= head + middle + tail);
    } else {
        assert(inner.children =~= head + tail);
        lemma_elems_text_append(head, tail);
        assert(seq![0x23u8] + Seq::<u8>::empty() + seq![0x0au8] =~= seq![0x23u8] + seq![0x0au8]);
    }
}

/// The lines of a sequence of patches, one after another.
pub open spec fn patch_lines(patches: Seq<(Seq<u8>, Seq<Seq<u8>>)>) -> Seq<u8>
    decreases patches.len(),
{
    if patches.len() == 0 {
        Seq::empty()
    } else {
        patch_lines(patches.drop_last()) + patch_line(patches.last().0, patches.last().1)
    }
}

/// The entries that the editor builds for a sequence of patches.
pub open spec fn patch_entries_of(patches: Seq<(Seq<u8>, Seq<Seq<u8>>)>) -> Seq<Elem> {
    patches.map_values(|p: (Seq<u8>, Seq<Seq<u8>>)| Elem::Node(patch_entry_tree(p.0, p.1)))
}

/// A series that holds nothing but the entries that the editor builds for
/// a sequence of patches is written as the lines of these patches, one after
/// another: as a series that is built from the same sequence by writing each
/// patch on a line.
pub proof fn lemma_series_of_entries_text(patches: Seq<(Seq<u8>, Seq<Seq<u8>>)>)
    ensures
        elems_text(patch_entries_of(patches)) == patch_lines(patches),
    decreases patches.len(),
{
    if patches.len() > 0 {
        let last = patches.last();
        lemma_series_of_entries_text(patches.drop_last());
        lemma_patch_entry_text(last.0, last.1);
        assert(patch_entries_of(patches).drop_last() =~= patch_entries_of(patches.drop_last()));
        assert(patch_entries_of(patches).last() == Elem::Node(patch_entry_tree(last.0, last.1)));
        assert(elem_text(patch_entries_of(patches).last()) == patch_entry_tree(
            last.0,
            last.1,
        ).text());
    }
}

/// A space.
fn space() -> (r: &'static str)
    ensures
        r.spec_bytes() == seq![0x20u8],
{
    let r = " ";
    proof {
        reveal_strlit(" ");
        vstd::string::is_ascii_spec_bytes(r);
        assert(r.spec_bytes() =~= seq![0x20u8]);
    }
    r
}

/// A line feed.
fn line_feed() -> (r: &'static str)
    ensures
        r.spec_bytes() == seq![0x0au8],
{
    let r = "\n";
    proof {
        reveal_strlit("\n");
        vstd::string::is_ascii_spec_bytes(r);
        assert(r.spec_bytes() =~= seq![0x0au8]);
    }
    r
}

/// A hash sign.
fn hash() -> (r: &'static str)
    ensures
        r.spec_bytes() == seq![0x23u8],
{
    let r = "#";
    proof {
        reveal_strlit("#");
        vstd::string::is_ascii_spec_bytes(r);
        assert(r.spec_bytes() =~= seq![0x23u8]);
    }
    r
}

/// The bytes of each text.
pub open spec fn strs_bytes(texts: Seq<&str>) -> Seq<Seq<u8>> {
    texts.map_values(|t: &str| t.spec_bytes())
}

/// The texts as slices.
fn as_strs<'a>(texts: &'a Vec<String>) -> (r: Vec<&'a str>)
    ensures
        strs_bytes(r@) == texts_bytes(texts@),
{
    let mut r: Vec<&'a str> = Vec::new();
    let mut i: usize = 0;
    while i < texts.len()
        invariant
            i <= texts.len(),
            strs_bytes(r@) == texts_bytes(texts@).subrange(0, i as int),
        decreases texts.len() - i,
    {
        let ghost before = r@;
        r.push(texts[i].as_str());
        assert(strs_bytes(r@) =~= strs_bytes(before).push(encode_utf8(texts@[i as int]@)));
        assert(texts_bytes(texts@).subrange(0, i + 1) =~= texts_bytes(texts@).subrange(
            0,
            i as int,
        ).push(encode_utf8(texts@[i as int]@)));
        i += 1;
    }
    assert(texts_bytes(texts@).subrange(0, texts@.len() as int) =~= texts_bytes(texts@));
    r
}

/// The length of the options as a line writes them.
proof fn lemma_options_text_grows(options: Seq<Seq<u8>>, n: int)
    requires
        0 <= n <= options.len(),
    ensures
        options_text(options.subrange(0, n)).len() <= options_text(options).len(),
        n < options.len() ==> options_text(options.subrange(0, n)).len() + 1 + options[n].len()
            <= options_text(options).len(),
    decreases options.len() - n,
{
    if n == options.len() {
        assert(options.subrange(0, n) =~= options);
    } else {
        lemma_options_text_grows(options, n + 1);
        assert(options.subrange(0, n + 1).drop_last() =~= options.subrange(0, n));
        assert(options.subrange(0, n + 1).last() == options[n]);
    }
}

/// The element of the root, as the tree hands it out again.
fn to_green(element: &SyntaxElement) -> (r: GreenElement)
    ensures
        r@ == element@,
{
    match element {
        SyntaxElement::Node(node) => GreenElement::Node(node.green().clone()),
        SyntaxElement::Token(token) => GreenElement::Token(
            token.kind_raw(),
            String::from_str(token.text()),
        ),
    }
}

/// The patch entry of an element of the root.
fn patch_entry_of(element: &SyntaxElement) -> (r: Option<PatchEntry>)
    ensures
        match patch_of(element@) {
            Some(tree) => r is Some && r.unwrap().tree() == tree,
            None => r is None,
        },
{
    match element {
        SyntaxElement::Node(node) => match SeriesEntry::cast(node.clone()) {
            Some(entry) => entry.as_patch_entry(),
            None => None,
        },
        SyntaxElement::Token(_) => None,
    }
}

/// Whether the patch of an element of the root has the name `name`.
fn is_named(element: &SyntaxElement, name: &str) -> (r: bool)
    ensures
        r == (name_of(element@) == Some(name.spec_bytes())),
{
    match patch_entry_of(element) {
        Some(patch) => match patch.name() {
            Some(found) => equal(found.as_str().as_bytes(), name.as_bytes()),
            None => false,
        },
        None => false,
    }
}

impl SeriesFile {
    /// Helper to build a patch entry green node
    #[verifier::rlimit(40)]
    pub fn build_patch_entry_green(name: &str, options: &[&str]) -> (r: rowan::GreenNode)
        requires
            patch_line(name.spec_bytes(), strs_bytes(options@)).len() <= u32::MAX,
        ensures
            node_tree(r) == patch_entry_tree(name.spec_bytes(), strs_bytes(options@)),
    {
        let ghost all = strs_bytes(options@);
        let ghost name_token = Elem::Token(SyntaxKind::PATCH_NAME.raw(), name.spec_bytes());
        let mut builder = TreeBuilder::new();
        builder.start_node(SyntaxKind::SERIES_ENTRY.to_raw());
        builder.start_node(SyntaxKind::PATCH_ENTRY.to_raw());
        proof {
            lemma_options_text_grows(all, 0);
            assert(all.subrange(0, 0) =~= Seq::<Seq<u8>>::empty());
            assert(Seq::<u8>::empty() + name.spec_bytes() =~= name.spec_bytes());
        }
        builder.token(SyntaxKind::PATCH_NAME.to_raw(), name);
        assert(builder.children() =~= seq![name_token]);
        let ghost outer = seq![
            (SyntaxKind::SERIES_ENTRY.raw(), 0nat),
            (SyntaxKind::PATCH_ENTRY.raw(), 0nat),
        ];
        assert(builder.parents() =~= outer);
        if options.len() > 0 {
            builder.token(SyntaxKind::SPACE.to_raw(), space());
            builder.start_node(SyntaxKind::OPTIONS.to_raw());
            let ghost base = seq![name_token, space_token()];
            let ghost open = outer.push((SyntaxKind::OPTIONS.raw(), 2nat));
            assert(builder.children() =~= base + option_elems(all.subrange(0, 0)));
            assert(name.spec_bytes() + seq![0x20u8] =~= name.spec_bytes() + options_text(
                all.subrange(0, 0),
            ) + seq![0x20u8]);
            let mut i: usize = 0;
            while i < options.len()
                invariant
                    i <= options.len(),
                    options@.len() > 0,
                    all == strs_bytes(options@),
                    builder.wf(),
                    builder.parents() == open,
                    builder.children() == base + option_elems(all.subrange(0, i as int)),
                    builder.text() == if i == 0 {
                        name.spec_bytes() + seq![0x20u8]
                    } else {
                        name.spec_bytes() + options_text(all.subrange(0, i as int))
                    },
                    patch_line(name.spec_bytes(), all).len() <= u32::MAX,
                decreases options.len() - i,
            {
                let ghost done = all.subrange(0, i as int);
                let ghost next = all.subrange(0, i + 1);
                proof {
                    lemma_options_text_grows(all, i as int);
                    assert(next.drop_last() =~= done);
                    assert(next.last() == options@[i as int].spec_bytes());
                }
                if i > 0 {
                    builder.token(SyntaxKind::SPACE.to_raw(), space());
                }
                let ghost before = builder.children();
                builder.start_node(SyntaxKind::OPTION_ITEM.to_raw());
                proof {
                    assert(name.spec_bytes() + options_text(done) + seq![0x20u8]
                        + options@[i as int].spec_bytes() =~= name.spec_bytes() + options_text(
                        next,
                    ));
                    if i == 0 {
                        assert(done =~= Seq::<Seq<u8>>::empty());
                        assert(name.spec_bytes() + seq![0x20u8] =~= name.spec_bytes()
                            + options_text(done) + seq![0x20u8]);
                    }
                }
                builder.token(SyntaxKind::OPTION.to_raw(), options[i]);
                builder.finish_node();
                proof {
                    let item = option_item(options@[i as int].spec_bytes());
                    assert(before.push(
                        Elem::Token(SyntaxKind::OPTION.raw(), options@[i as int].spec_bytes()),
                    ).subrange(before.len() as int, before.len() as int + 1) =~= seq![
                        Elem::Token(SyntaxKind::OPTION.raw(), options@[i as int].spec_bytes()),
                    ]);
                    assert(before.push(
                        Elem::Token(SyntaxKind::OPTION.raw(), options@[i as int].spec_bytes()),
                    ).subrange(0, before.len() as int) =~= before);
                    assert(builder.children() =~= before.push(item));
                    assert(open.push((SyntaxKind::OPTION_ITEM.raw(), before.len())).drop_last()
                        =~= open);
                    if i == 0 {
                        assert(next.len() == 1);
                        assert(option_elems(next) =~= seq![item]);
                        assert(before =~= base);
                    } else {
                        assert(before =~= (base + option_elems(done)).push(space_token()));
                        assert(option_elems(next) =~= option_elems(done).push(
                            space_token(),
                        ).push(item));
                    }
                    assert(builder.children() =~= base + option_elems(next));
                }
                i += 1;
            }
            assert(all.subrange(0, all.len() as int) =~= all);
            let ghost filled = builder.children();
            builder.finish_node();
            proof {
                assert(filled.subrange(2, filled.len() as int) =~= option_elems(all));
                assert(filled.subrange(0, 2) =~= base);
                assert(open.drop_last() =~= outer);
            }
        } else {
            proof {
                assert(all =~= Seq::<Seq<u8>>::empty());
                assert(name.spec_bytes() + options_text(all) =~= name.spec_bytes());
            }
        }
        let ghost before_end = builder.children();
        builder.token(SyntaxKind::NEWLINE.to_raw(), line_feed());
        let ghost inner = builder.children();
        builder.finish_node();
        let ghost wrapped = builder.children();
        proof {
            assert(inner.subrange(0, 0) =~= Seq::<Elem>::empty());
            assert(inner.subrange(0, inner.len() as int) =~= inner);
            assert(outer.drop_last() =~= seq![(SyntaxKind::SERIES_ENTRY.raw(), 0nat)]);
        }
        builder.finish_node();
        proof {
            assert(wrapped.subrange(0, 0) =~= Seq::<Elem>::empty());
            assert(wrapped.subrange(0, wrapped.len() as int) =~= wrapped);
            let tree = patch_entry_tree(name.spec_bytes(), all);
            assert(inner =~= tree.children[0]->Node_0.children);
            assert(wrapped =~= tree.children);
        }
        builder.finish()
    }

    /// Helper to build a comment entry green node
    pub fn build_comment_entry_green(text: &str) -> (r: rowan::GreenNode)
        requires
            comment_line(text.spec_bytes()).len() <= u32::MAX,
        ensures
            node_tree(r) == comment_entry_tree(text.spec_bytes()),
    {
        let mut builder = TreeBuilder::new();
        builder.start_node(SyntaxKind::SERIES_ENTRY.to_raw());
        builder.start_node(SyntaxKind::COMMENT_LINE.to_raw());
        builder.token(SyntaxKind::HASH.to_raw(), hash());
        if text.as_bytes().len() > 0 {
            builder.token(SyntaxKind::SPACE.to_raw(), space());
            builder.token(SyntaxKind::TEXT.to_raw(), text);
        }
        builder.token(SyntaxKind::NEWLINE.to_raw(), line_feed());
        let ghost inner = builder.children();
        let ghost open = builder.parents();
        builder.finish_node();
        let ghost wrapped = builder.children();
        proof {
            assert(inner.subrange(0, 0) =~= Seq::<Elem>::empty());
            assert(inner.subrange(0, inner.len() as int) =~= inner);
            assert(open.drop_last() =~= seq![(SyntaxKind::SERIES_ENTRY.raw(), 0nat)]);
        }
        builder.finish_node();
        proof {
            assert(wrapped.subrange(0, 0) =~= Seq::<Elem>::empty());
            assert(wrapped.subrange(0, wrapped.len() as int) =~= wrapped);
            let tree = comment_entry_tree(text.spec_bytes());
            assert(inner =~= tree.children[0]->Node_0.children);
            assert(wrapped =~= tree.children);
        }
        builder.finish()
    }
}

/// The elements with those from index `from` up to index `to` replaced by
/// `with`.
pub open spec fn spliced(children: Seq<Elem>, from: int, to: int, with: Seq<Elem>) -> Seq<Elem> {
    children.subrange(0, from) + with + children.subrange(to, children.len() as int)
}

/// Replacing a range of elements changes the text within the range only,
/// and makes it no longer than the old text and the new elements together.
pub proof fn lemma_spliced_text(children: Seq<Elem>, from: int, to: int, with: Seq<Elem>)
    requires
        0 <= from <= to <= children.len(),
    ensures
        elems_text(spliced(children, from, to, with)) == elems_text(children.subrange(0, from))
            + elems_text(with) + elems_text(children.subrange(to, children.len() as int)),
        elems_text(children) == elems_text(children.subrange(0, from)) + elems_text(
            children.subrange(from, to),
        ) + elems_text(children.subrange(to, children.len() as int)),
        elems_text(spliced(children, from, to, with)).len() <= elems_text(children).len()
            + elems_text(with).len(),
{
    let head = children.subrange(0, from);
    let mid = children.subrange(from, to);
    let tail = children.subrange(to, children.len() as int);
    lemma_elems_text_append(head, with);
    lemma_elems_text_append(head + with, tail);
    lemma_elems_text_append(head, mid);
    lemma_elems_text_append(head + mid, tail);
    assert(head + mid + tail =~= children);
}

/// The number of elements among the first `n` that hold a patch.
pub open spec fn patches_before(children: Seq<Elem>, n: int) -> int
    decreases n,
{
    if n <= 0 || n > children.len() {
        0
    } else {
        patches_before(children, n - 1) + if patch_of(children[n - 1]) is Some {
            1int
        } else {
            0int
        }
    }
}

/// The elements that hold no patch, in order.
pub open spec fn without_patches(children: Seq<Elem>) -> Seq<Elem> {
    children.filter(|e: Elem| patch_of(e) is None)
}

/// The index of the first tree at or behind `from` whose name is `name`;
/// the number of trees where there is none.
pub open spec fn first_named(patches: Seq<Tree>, name: Seq<u8>, from: int) -> int
    decreases patches.len() - from,
{
    if from < 0 || from >= patches.len() {
        patches.len() as int
    } else if patch_name(patches[from]) == Some(name) {
        from
    } else {
        first_named(patches, name, from + 1)
    }
}

/// The number of elements among the first `n` whose patch has a name.
pub open spec fn named_before(children: Seq<Elem>, n: int) -> int
    decreases n,
{
    if n <= 0 || n > children.len() {
        0
    } else {
        named_before(children, n - 1) + if name_of(children[n - 1]) is Some {
            1int
        } else {
            0int
        }
    }
}

/// What `reorder` makes of the first `n` elements. An element whose
/// patch has no name, or that holds no patch, stays where it is. The place
/// of each patch with a name is taken by the patch that the order names for
/// it: the first place by the first element whose patch has the first name of
/// the order, and so on. A place for which the order has no name is left
/// out.
pub open spec fn reordered(children: Seq<Elem>, order: Seq<Seq<u8>>, n: int) -> Seq<Elem>
    decreases n,
{
    if n <= 0 || n > children.len() {
        Seq::empty()
    } else {
        let before = reordered(children, order, n - 1);
        let place = named_before(children, n - 1);
        if name_of(children[n - 1]) is Some {
            if place < order.len() {
                before.push(children[find_name(children, order[place], 0)])
            } else {
                before
            }
        } else {
            before.push(children[n - 1])
        }
    }
}

/// The options of each answer, as bytes.
pub open spec fn answers_view(updates: Seq<Option<Vec<String>>>) -> Seq<Option<Seq<Seq<u8>>>> {
    updates.map_values(
        |u: Option<Vec<String>>|
            match u {
                Some(options) => Some(texts_bytes(options@)),
                None => None,
            },
    )
}

/// What `update_with` makes of the first `n` elements. The answers are
/// for the patches with a name, in order. Where the answer for a patch gives
/// options, the element of the patch is replaced by the entry that the editor
/// builds for its name and these options. All else stays as it is.
pub open spec fn updated(
    children: Seq<Elem>,
    updates: Seq<Option<Seq<Seq<u8>>>>,
    n: int,
) -> Seq<Elem>
    decreases n,
{
    if n <= 0 || n > children.len() {
        Seq::empty()
    } else {
        let before = updated(children, updates, n - 1);
        let place = named_before(children, n - 1);
        match name_of(children[n - 1]) {
            Some(name) => if place < updates.len() && updates[place] is Some {
                before.push(Elem::Node(patch_entry_tree(name, updates[place].unwrap())))
            } else {
                before.push(children[n - 1])
            },
            None => before.push(children[n - 1]),
        }
    }
}

/// The text of what `update_with` makes of more elements is no shorter.
pub proof fn lemma_updated_grows(
    children: Seq<Elem>,
    updates: Seq<Option<Seq<Seq<u8>>>>,
    n: int,
    m: int,
)
    requires
        0 <= n <= m <= children.len(),
    ensures
        elems_text(updated(children, updates, n)).len() <= elems_text(
            updated(children, updates, m),
        ).len(),
    decreases m - n,
{
    if n < m {
        lemma_updated_grows(children, updates, n, m - 1);
        let before = updated(children, updates, m - 1);
        let all = updated(children, updates, m);
        assert(all.drop_last() =~= before);
    }
}

/// The index of the element that holds patch number `index`.
pub(crate) fn slot_of_patch(elements: &Vec<SyntaxElement>, index: usize) -> (r: usize)
    ensures
        r == patch_slot(elements_view(elements@), index as int, 0),
        r <= elements@.len(),
{
    let ghost children = elements_view(elements@);
    let mut count: usize = 0;
    let mut i: usize = 0;
    while i < elements.len()
        invariant
            i <= elements.len(),
            count <= index,
            children == elements_view(elements@),
            patch_slot(children, index as int, 0) == patch_slot(children, index - count, i as int),
        decreases elements.len() - i,
    {
        assert(children[i as int] == elements@[i as int]@);
        if patch_entry_of(&elements[i]).is_some() {
            if count == index {
                return i;
            }
            count += 1;
        }
        i += 1;
    }
    i
}

/// The index of the element that is series entry number `index`.
fn slot_of_entry(elements: &Vec<SyntaxElement>, index: usize) -> (r: usize)
    ensures
        r == entry_slot(elements_view(elements@), index as int, 0),
        r <= elements@.len(),
{
    let ghost children = elements_view(elements@);
    let mut count: usize = 0;
    let mut i: usize = 0;
    while i < elements.len()
        invariant
            i <= elements.len(),
            count <= index,
            children == elements_view(elements@),
            entry_slot(children, index as int, 0) == entry_slot(children, index - count, i as int),
        decreases elements.len() - i,
    {
        assert(children[i as int] == elements@[i as int]@);
        let entry = match &elements[i] {
            SyntaxElement::Node(node) => node.kind_raw() == SyntaxKind::SERIES_ENTRY.to_raw(),
            SyntaxElement::Token(_) => false,
        };
        if entry {
            if count == index {
                return i;
            }
            count += 1;
        }
        i += 1;
    }
    i
}

/// The index of the first element whose patch has the name `name`.
fn index_of_name(elements: &Vec<SyntaxElement>, name: &str) -> (r: usize)
    ensures
        r == find_name(elements_view(elements@), name.spec_bytes(), 0),
        r <= elements@.len(),
        r < elements@.len() ==> name_of(elements@[r as int]@) == Some(name.spec_bytes()),
{
    let ghost children = elements_view(elements@);
    let mut i: usize = 0;
    while i < elements.len()
        invariant
            i <= elements.len(),
            children == elements_view(elements@),
            find_name(children, name.spec_bytes(), 0) == find_name(
                children,
                name.spec_bytes(),
                i as int,
            ),
        decreases elements.len() - i,
    {
        assert(children[i as int] == elements@[i as int]@);
        if is_named(&elements[i], name) {
            return i;
        }
        i += 1;
    }
    i
}

impl SeriesFile {
    /// The text of the series and `extra` bytes more can be counted in 32
    /// bits.
    pub open spec fn room(&self, extra: nat) -> bool {
        self.tree().text().len() + extra <= u32::MAX
    }

    /// Replaces the children from index `from` up to index `to` by `with`.
    fn splice(&mut self, from: usize, to: usize, with: Vec<GreenElement>)
        requires
            from <= to <= old(self).tree().children.len(),
            elems_text(
                spliced(old(self).tree().children, from as int, to as int, element_views(with@)),
            ).len() <= u32::MAX,
        ensures
            final(self).tree() == (Tree {
                kind: old(self).tree().kind,
                children: spliced(
                    old(self).tree().children,
                    from as int,
                    to as int,
                    element_views(with@),
                ),
            }),
    {
        let green = node_splice(self.syntax().green(), from, to, with);
        self.set_syntax(SyntaxNode::new_root(green));
    }

    /// Puts the entry of a patch in at index `at` of the children.
    fn insert_patch_at(&mut self, at: usize, name: &str, options: &[&str])
        requires
            at <= old(self).tree().children.len(),
            old(self).room(patch_line(name.spec_bytes(), strs_bytes(options@)).len()),
        ensures
            final(self).tree() == (Tree {
                kind: old(self).tree().kind,
                children: old(self).tree().children.insert(
                    at as int,
                    Elem::Node(patch_entry_tree(name.spec_bytes(), strs_bytes(options@))),
                ),
            }),
    {
        let green = Self::build_patch_entry_green(name, options);
        let mut with: Vec<GreenElement> = Vec::new();
        with.push(GreenElement::Node(green));
        proof {
            let entry = Elem::Node(patch_entry_tree(name.spec_bytes(), strs_bytes(options@)));
            assert(element_views(with@) =~= seq![entry]);
            lemma_text_of_one(entry);
            lemma_patch_entry_text(name.spec_bytes(), strs_bytes(options@));
            assert(spliced(self.tree().children, at as int, at as int, seq![entry])
                =~= self.tree().children.insert(at as int, entry));
            lemma_spliced_text(self.tree().children, at as int, at as int, seq![entry]);
        }
        self.splice(at, at, with);
    }

    /// Puts the entry of a patch in place of the child at index `at`.
    fn replace_patch_at(&mut self, at: usize, name: &str, options: &[&str])
        requires
            at < old(self).tree().children.len(),
            at < usize::MAX,
            old(self).room(patch_line(name.spec_bytes(), strs_bytes(options@)).len()),
        ensures
            final(self).tree() == (Tree {
                kind: old(self).tree().kind,
                children: old(self).tree().children.update(
                    at as int,
                    Elem::Node(patch_entry_tree(name.spec_bytes(), strs_bytes(options@))),
                ),
            }),
    {
        let green = Self::build_patch_entry_green(name, options);
        let mut with: Vec<GreenElement> = Vec::new();
        with.push(GreenElement::Node(green));
        proof {
            let entry = Elem::Node(patch_entry_tree(name.spec_bytes(), strs_bytes(options@)));
            assert(element_views(with@) =~= seq![entry]);
            lemma_text_of_one(entry);
            lemma_patch_entry_text(name.spec_bytes(), strs_bytes(options@));
            assert(spliced(self.tree().children, at as int, at + 1, seq![entry])
                =~= self.tree().children.update(at as int, entry));
            lemma_spliced_text(self.tree().children, at as int, at + 1, seq![entry]);
        }
        self.splice(at, at + 1, with);
    }

    /// Puts the entry of a comment in at index `at` of the children.
    fn insert_comment_at(&mut self, at: usize, text: &str)
        requires
            at <= old(self).tree().children.len(),
            old(self).room(comment_line(text.spec_bytes()).len()),
        ensures
            final(self).tree() == (Tree {
                kind: old(self).tree().kind,
                children: old(self).tree().children.insert(
                    at as int,
                    Elem::Node(comment_entry_tree(text.spec_bytes())),
                ),
            }),
    {
        let green = Self::build_comment_entry_green(text);
        let mut with: Vec<GreenElement> = Vec::new();
        with.push(GreenElement::Node(green));
        proof {
            let entry = Elem::Node(comment_entry_tree(text.spec_bytes()));
            assert(element_views(with@) =~= seq![entry]);
            lemma_text_of_one(entry);
            lemma_comment_entry_text(text.spec_bytes());
            assert(spliced(self.tree().children, at as int, at as int, seq![entry])
                =~= self.tree().children.insert(at as int, entry));
            lemma_spliced_text(self.tree().children, at as int, at as int, seq![entry]);
        }
        self.splice(at, at, with);
    }

    /// Takes the child at index `at` out.
    fn remove_at(&mut self, at: usize)
        requires
            at < old(self).tree().children.len(),
            at < usize::MAX,
            old(self).room(0),
        ensures
            final(self).tree() == (Tree {
                kind: old(self).tree().kind,
                children: old(self).tree().children.remove(at as int),
            }),
            final(self).tree().text().len() <= old(self).tree().text().len(),
    {
        let with: Vec<GreenElement> = Vec::new();
        proof {
            let none = Seq::<Elem>::empty();
            assert(element_views(with@) =~= none);
            assert(spliced(self.tree().children, at as int, at + 1, none)
                =~= self.tree().children.remove(at as int));
            lemma_spliced_text(self.tree().children, at as int, at + 1, none);
        }
        self.splice(at, at + 1, with);
    }

    /// Number of patches in the series
    pub fn len(&self) -> (r: usize)
        ensures
            r == patch_trees(self.tree()).len(),
    {
        let patches = self.patch_entries();
        assert(view_trees(patches@).len() == patches@.len());
        patches.len()
    }

    /// Check if the series is empty
    pub fn is_empty(&self) -> (r: bool)
        ensures
            r == (patch_trees(self.tree()).len() == 0),
    {
        self.len() == 0
    }

    /// Insert a patch entry at the specified index
    ///
    /// The index counts patches only. The new entry comes to stand before
    /// the patch that has the index now, or at the end of the series where
    /// there is none.
    pub fn insert(&mut self, index: usize, name: &str, options: &[&str])
        requires
            old(self).room(patch_line(name.spec_bytes(), strs_bytes(options@)).len()),
        ensures
            final(self).tree().children == edited(
                old(self).tree().children,
                Edit::Insert(index as int, name.spec_bytes(), strs_bytes(options@)),
            ),
            final(self).tree() == (Tree {
                kind: old(self).tree().kind,
                children: old(self).tree().children.insert(
                    patch_slot(old(self).tree().children, index as int, 0),
                    Elem::Node(patch_entry_tree(name.spec_bytes(), strs_bytes(options@))),
                ),
            }),
            shown_patches(patch_trees(final(self).tree())) == shown_patches(
                patch_trees(old(self).tree()),
            ).insert(
                clipped(index as int, patch_trees(old(self).tree()).len() as int),
                (Some(name.spec_bytes()), strs_bytes(options@)),
            ),
            final(self).tree().text() == elems_text(
                old(self).tree().children.subrange(
                    0,
                    patch_slot(old(self).tree().children, index as int, 0),
                ),
            ) + patch_line(name.spec_bytes(), strs_bytes(options@)) + elems_text(
                old(self).tree().children.subrange(
                    patch_slot(old(self).tree().children, index as int, 0),
                    old(self).tree().children.len() as int,
                ),
            ),
    {
        let elements = self.syntax().children_with_tokens();
        let at = slot_of_patch(&elements, index);
        self.insert_patch_at(at, name, options);
        proof {
            let children = old(self).tree().children;
            lemma_insert_into_any(children, index as int, name.spec_bytes(), strs_bytes(options@));
            lemma_listing_is_shown(children);
            lemma_listing_is_shown(self.tree().children);
        }
    }

    /// Add a patch at the end of the series
    pub fn push(&mut self, name: &str, options: &[&str])
        requires
            old(self).room(patch_line(name.spec_bytes(), strs_bytes(options@)).len()),
        ensures
            final(self).tree().children == edited(
                old(self).tree().children,
                Edit::Push(name.spec_bytes(), strs_bytes(options@)),
            ),
            final(self).tree() == (Tree {
                kind: old(self).tree().kind,
                children: old(self).tree().children.insert(
                    patch_slot(
                        old(self).tree().children,
                        patch_trees(old(self).tree()).len() as int,
                        0,
                    ),
                    Elem::Node(patch_entry_tree(name.spec_bytes(), strs_bytes(options@))),
                ),
            }),
    {
        let patch_count = self.len();
        self.insert(patch_count, name, options);
    }

    /// Add a patch at the beginning of the series
    pub fn prepend(&mut self, name: &str, options: &[&str])
        requires
            old(self).room(patch_line(name.spec_bytes(), strs_bytes(options@)).len()),
        ensures
            final(self).tree().children == edited(
                old(self).tree().children,
                Edit::Prepend(name.spec_bytes(), strs_bytes(options@)),
            ),
            final(self).tree() == (Tree {
                kind: old(self).tree().kind,
                children: old(self).tree().children.insert(
                    patch_slot(old(self).tree().children, 0, 0),
                    Elem::Node(patch_entry_tree(name.spec_bytes(), strs_bytes(options@))),
                ),
            }),
    {
        self.insert(0, name, options);
    }

    /// Remove a patch entry by name
    ///
    /// The first entry whose patch has the name is taken out; without such
    /// an entry the series stays as it is.
    pub fn remove(&mut self, name: &str) -> (r: bool)
        requires
            old(self).room(0),
        ensures
            final(self).tree().children == edited(
                old(self).tree().children,
                Edit::Remove(name.spec_bytes()),
            ),
            r == (find_name(old(self).tree().children, name.spec_bytes(), 0)
                < old(self).tree().children.len()),
            r ==> final(self).tree() == (Tree {
                kind: old(self).tree().kind,
                children: old(self).tree().children.remove(
                    find_name(old(self).tree().children, name.spec_bytes(), 0),
                ),
            }),
            !r ==> final(self).tree() == old(self).tree(),
    {
        let elements = self.syntax().children_with_tokens();
        let at = index_of_name(&elements, name);
        if at < elements.len() {
            self.remove_at(at);
            true
        } else {
            false
        }
    }

    /// Update patch options
    ///
    /// The first entry whose patch has the name is replaced by a new entry
    /// with the name and the options.
    pub fn set_options(&mut self, name: &str, options: &[&str]) -> (r: bool)
        requires
            old(self).room(patch_line(name.spec_bytes(), strs_bytes(options@)).len()),
        ensures
            final(self).tree().children == edited(
                old(self).tree().children,
                Edit::SetOptions(name.spec_bytes(), strs_bytes(options@)),
            ),
            r == (find_name(old(self).tree().children, name.spec_bytes(), 0)
                < old(self).tree().children.len()),
            r ==> final(self).tree() == (Tree {
                kind: old(self).tree().kind,
                children: old(self).tree().children.update(
                    find_name(old(self).tree().children, name.spec_bytes(), 0),
                    Elem::Node(patch_entry_tree(name.spec_bytes(), strs_bytes(options@))),
                ),
            }),
            !r ==> final(self).tree() == old(self).tree(),
    {
        let elements = self.syntax().children_with_tokens();
        let at = index_of_name(&elements, name);
        if at < elements.len() {
            self.replace_patch_at(at, name, options);
            true
        } else {
            false
        }
    }

    /// Add a comment at the end of the series
    pub fn add_comment(&mut self, text: &str)
        requires
            old(self).room(comment_line(text.spec_bytes()).len()),
        ensures
            final(self).tree() == (Tree {
                kind: old(self).tree().kind,
                children: old(self).tree().children.push(
                    Elem::Node(comment_entry_tree(text.spec_bytes())),
                ),
            }),
    {
        let elements = self.syntax().children_with_tokens();
        proof {
            let children = self.tree().children;
            assert(children.insert(
                children.len() as int,
                Elem::Node(comment_entry_tree(text.spec_bytes())),
            ) =~= children.push(Elem::Node(comment_entry_tree(text.spec_bytes()))));
            assert(elements_view(elements@).len() == elements@.len());
        }
        self.insert_comment_at(elements.len(), text);
    }

    /// The options of the patch of the child at index `at`.
    fn options_at(elements: &Vec<SyntaxElement>, at: usize) -> (r: Vec<String>)
        requires
            at < elements@.len(),
            patch_of(elements@[at as int]@) is Some,
        ensures
            texts_bytes(r@) == patch_options(patch_of(elements@[at as int]@).unwrap()),
    {
        match patch_entry_of(&elements[at]) {
            Some(patch) => patch.option_strings(),
            None => Vec::new(),
        }
    }

    /// Rename a patch entry
    ///
    /// The first entry whose patch has the old name is replaced by a new
    /// entry with the new name and the options of the old entry.
    pub fn rename(&mut self, old_name: &str, new_name: &str) -> (r: bool)
        requires
            ({
                let children = old(self).tree().children;
                let at = find_name(children, old_name.spec_bytes(), 0);
                at < children.len() ==> old(self).room(
                    patch_line(
                        new_name.spec_bytes(),
                        patch_options(patch_of(children[at]).unwrap()),
                    ).len(),
                )
            }),
        ensures
            final(self).tree().children == edited(
                old(self).tree().children,
                Edit::Rename(old_name.spec_bytes(), new_name.spec_bytes()),
            ),
            r == (find_name(old(self).tree().children, old_name.spec_bytes(), 0)
                < old(self).tree().children.len()),
            r ==> ({
                let children = old(self).tree().children;
                let at = find_name(children, old_name.spec_bytes(), 0);
                final(self).tree() == (Tree {
                    kind: old(self).tree().kind,
                    children: children.update(
                        at,
                        Elem::Node(
                            patch_entry_tree(
                                new_name.spec_bytes(),
                                patch_options(patch_of(children[at]).unwrap()),
                            ),
                        ),
                    ),
                })
            }),
            !r ==> final(self).tree() == old(self).tree(),
    {
        let elements = self.syntax().children_with_tokens();
        let at = index_of_name(&elements, old_name);
        if at < elements.len() {
            assert(elements_view(elements@)[at as int] == elements@[at as int]@);
            let options = Self::options_at(&elements, at);
            let slices = as_strs(&options);
            self.replace_patch_at(at, new_name, slices.as_slice());
            true
        } else {
            false
        }
    }

    /// Move a patch to a new position
    ///
    /// The first entry whose patch has the name is taken out, and a new
    /// entry with the name and its options is put in before the patch that
    /// then has the index, or at the end.
    pub fn move_to(&mut self, name: &str, new_index: usize) -> (r: bool)
        requires
            ({
                let children = old(self).tree().children;
                let at = find_name(children, name.spec_bytes(), 0);
                at < children.len() ==> old(self).room(
                    patch_line(
                        name.spec_bytes(),
                        patch_options(patch_of(children[at]).unwrap()),
                    ).len(),
                )
            }),
        ensures
            final(self).tree().children == edited(
                old(self).tree().children,
                Edit::MoveTo(name.spec_bytes(), new_index as int),
            ),
            r == (find_name(old(self).tree().children, name.spec_bytes(), 0)
                < old(self).tree().children.len()),
            r ==> ({
                let children = old(self).tree().children;
                let at = find_name(children, name.spec_bytes(), 0);
                let rest = children.remove(at);
                final(self).tree() == (Tree {
                    kind: old(self).tree().kind,
                    children: rest.insert(
                        patch_slot(rest, new_index as int, 0),
                        Elem::Node(
                            patch_entry_tree(
                                name.spec_bytes(),
                                patch_options(patch_of(children[at]).unwrap()),
                            ),
                        ),
                    ),
                })
            }),
            !r ==> final(self).tree() == old(self).tree(),
    {
        let elements = self.syntax().children_with_tokens();
        let at = index_of_name(&elements, name);
        if at >= elements.len() {
            return false;
        }
        assert(elements_view(elements@)[at as int] == elements@[at as int]@);
        let options = Self::options_at(&elements, at);
        let slices = as_strs(&options);
        self.remove_at(at);
        let rest = self.syntax().children_with_tokens();
        let slot = slot_of_patch(&rest, new_index);
        self.insert_patch_at(slot, name, slices.as_slice());
        true
    }

    /// Insert a comment at a specific position
    ///
    /// The index counts all entries. The comment comes to stand before the
    /// entry that has the index now, or at the end of the series where there
    /// is none.
    pub fn insert_comment(&mut self, index: usize, text: &str)
        requires
            old(self).room(comment_line(text.spec_bytes()).len()),
        ensures
            final(self).tree() == (Tree {
                kind: old(self).tree().kind,
                children: old(self).tree().children.insert(
                    entry_slot(old(self).tree().children, index as int, 0),
                    Elem::Node(comment_entry_tree(text.spec_bytes())),
                ),
            }),
    {
        let elements = self.syntax().children_with_tokens();
        let at = slot_of_entry(&elements, index);
        self.insert_comment_at(at, text);
    }

    /// Remove all patches, keeping comments
    pub fn clear(&mut self)
        requires
            old(self).room(0),
        ensures
            final(self).tree().children == edited(
                old(self).tree().children,
                Edit::Clear,
            ),
            final(self).tree() == (Tree {
                kind: old(self).tree().kind,
                children: without_patches(old(self).tree().children),
            }),
    {
        let elements = self.syntax().children_with_tokens();
        let ghost children = elements_view(elements@);
        let ghost pred = |e: Elem| patch_of(e) is None;
        let mut kept: Vec<GreenElement> = Vec::new();
        let mut i: usize = 0;
        assert(element_views(kept@) =~= children.subrange(0, 0).filter(pred));
        while i < elements.len()
            invariant
                i <= elements.len(),
                children == elements_view(elements@),
                pred == (|e: Elem| patch_of(e) is None),
                element_views(kept@) == children.subrange(0, i as int).filter(pred),
                elems_text(element_views(kept@)).len() <= elems_text(
                    children.subrange(0, i as int),
                ).len(),
            decreases elements.len() - i,
        {
            let ghost before = kept@;
            proof {
                let done = children.subrange(0, i as int);
                assert(children.subrange(0, i + 1) =~= done.push(children[i as int]));
                done.lemma_filter_push(children[i as int], pred);
                lemma_elems_text_push(done, children[i as int]);
                lemma_elems_text_push(element_views(before), children[i as int]);
                assert(children[i as int] == elements@[i as int]@);
            }
            if patch_entry_of(&elements[i]).is_none() {
                kept.push(to_green(&elements[i]));
                assert(element_views(kept@) =~= element_views(before).push(children[i as int]));
            }
            i += 1;
        }
        proof {
            assert(children.subrange(0, children.len() as int) =~= children);
            let with = element_views(kept@);
            assert(spliced(children, 0, children.len() as int, with) =~= with);
            assert(with == without_patches(children));
        }
        assert(elems_text(element_views(kept@)).len() <= u32::MAX);
        let n = elements.len();
        self.splice(0, n, kept);
    }

    /// Check if a patch exists
    pub fn contains(&self, name: &str) -> (r: bool)
        ensures
            r == (first_named(patch_trees(self.tree()), name.spec_bytes(), 0) < patch_trees(
                self.tree(),
            ).len()),
    {
        self.position(name).is_some()
    }

    /// Get the position of a patch
    ///
    /// The position counts patches only.
    pub fn position(&self, name: &str) -> (r: Option<usize>)
        ensures
            match r {
                Some(i) => i == first_named(patch_trees(self.tree()), name.spec_bytes(), 0) && i
                    < patch_trees(self.tree()).len(),
                None => first_named(patch_trees(self.tree()), name.spec_bytes(), 0)
                    == patch_trees(self.tree()).len(),
            },
    {
        let patches = self.patch_entries();
        let ghost trees = view_trees(patches@);
        let mut i: usize = 0;
        while i < patches.len()
            invariant
                i <= patches.len(),
                trees == view_trees(patches@),
                trees == patch_trees(self.tree()),
                first_named(trees, name.spec_bytes(), 0) == first_named(
                    trees,
                    name.spec_bytes(),
                    i as int,
                ),
            decreases patches.len() - i,
        {
            assert(trees[i as int] == patches@[i as int].tree());
            let named = match patches[i].name() {
                Some(found) => equal(found.as_str().as_bytes(), name.as_bytes()),
                None => false,
            };
            if named {
                assert(trees.len() == patches@.len());
                assert(patch_name(trees[i as int]) == Some(name.spec_bytes()));
                return Some(i);
            }
            i += 1;
        }
        assert(trees.len() == patches@.len());
        None
    }

    /// Reorder patches to match the given order
    ///
    /// Where a name of the order belongs to no patch, the series stays as
    /// it is. Else the patches with a name give their places to the patches
    /// that the order names, in the order of the names; comments, blank lines
    /// and all else stay where they are.
    pub fn reorder(&mut self, new_order: &[String]) -> (r: bool)
        requires
            ({
                let children = old(self).tree().children;
                let order = texts_bytes(new_order@);
                (forall|k: int|
                    0 <= k < order.len() ==> find_name(children, #[trigger] order[k], 0)
                        < children.len()) ==> elems_text(
                    reordered(children, order, children.len() as int),
                ).len() <= u32::MAX
            }),
        ensures
            ({
                let children = old(self).tree().children;
                let order = texts_bytes(new_order@);
                &&& r == (forall|k: int|
                    0 <= k < order.len() ==> find_name(children, #[trigger] order[k], 0)
                        < children.len())
                &&& r ==> final(self).tree() == (Tree {
                    kind: old(self).tree().kind,
                    children: reordered(children, order, children.len() as int),
                })
                &&& !r ==> final(self).tree() == old(self).tree()
            }),
    {
        let elements = self.syntax().children_with_tokens();
        let ghost children = elements_view(elements@);
        let ghost order = texts_bytes(new_order@);
        // every name of the order must belong to a patch
        let mut places: Vec<usize> = Vec::new();
        let mut k: usize = 0;
        while k < new_order.len()
            invariant
                k <= new_order.len(),
                children == elements_view(elements@),
                children == old(self).tree().children,
                self.tree() == old(self).tree(),
                order == texts_bytes(new_order@),
                places@.len() == k,
                forall|j: int|
                    0 <= j < k ==> (#[trigger] places@[j]) == find_name(children, order[j], 0)
                        && places@[j] < children.len(),
            decreases new_order.len() - k,
        {
            assert(order[k as int] == encode_utf8(new_order@[k as int]@));
            let at = index_of_name(&elements, new_order[k].as_str());
            if at >= elements.len() {
                assert(!(find_name(children, order[k as int], 0) < children.len()));
                return false;
            }
            places.push(at);
            k += 1;
        }
        assert forall|j: int| 0 <= j < order.len() implies find_name(
            children,
            #[trigger] order[j],
            0,
        ) < children.len() by {
            assert(places@[j] < children.len());
        }
        // every element keeps its place, but a patch with a name gives its
        // place to the patch that the order names for it
        let mut with: Vec<GreenElement> = Vec::new();
        let mut named: usize = 0;
        let mut i: usize = 0;
        assert(element_views(with@) =~= reordered(children, order, 0));
        while i < elements.len()
            invariant
                i <= elements.len(),
                named <= i,
                children == elements_view(elements@),
                order == texts_bytes(new_order@),
                places@.len() == new_order.len(),
                forall|j: int|
                    0 <= j < places@.len() ==> (#[trigger] places@[j]) == find_name(
                        children,
                        order[j],
                        0,
                    ) && places@[j] < children.len(),
                named == named_before(children, i as int),
                element_views(with@) == reordered(children, order, i as int),
            decreases elements.len() - i,
        {
            let ghost before = with@;
            assert(children[i as int] == elements@[i as int]@);
            let has_name = match patch_entry_of(&elements[i]) {
                Some(patch) => patch.name().is_some(),
                None => false,
            };
            if has_name {
                if named < new_order.len() {
                    let at = places[named];
                    assert(children[at as int] == elements@[at as int]@);
                    with.push(to_green(&elements[at]));
                    assert(element_views(with@) =~= element_views(before).push(
                        children[at as int],
                    ));
                }
                named += 1;
            } else {
                with.push(to_green(&elements[i]));
                assert(element_views(with@) =~= element_views(before).push(children[i as int]));
            }
            i += 1;
        }
        proof {
            assert(spliced(children, 0, children.len() as int, element_views(with@))
                =~= element_views(with@));
        }
        let total = elements.len();
        self.splice(0, total, with);
        true
    }
}

/// The index at or behind `from` of the first token of kind `kind` among
/// the elements; the number of elements where there is none.
pub open spec fn token_index(children: Seq<Elem>, kind: u16, from: int) -> int
    decreases children.len() - from,
{
    if from < 0 || from >= children.len() {
        children.len() as int
    } else if children[from] is Token && children[from]->Token_0 == kind {
        from
    } else {
        token_index(children, kind, from + 1)
    }
}

impl PatchEntry {
    /// Set the patch name
    ///
    /// The first `PATCH_NAME` token of the entry is replaced by one with
    /// the new name; where the entry has none, the new token becomes its
    /// first child. The change is made to this view of the entry.
    pub fn set_name(&mut self, new_name: &str)
        requires
            old(self).tree().text().len() + new_name.spec_bytes().len() <= u32::MAX,
        ensures
            ({
                let children = old(self).tree().children;
                let at = token_index(children, SyntaxKind::PATCH_NAME.raw(), 0);
                let token = Elem::Token(SyntaxKind::PATCH_NAME.raw(), new_name.spec_bytes());
                final(self).tree() == (Tree {
                    kind: old(self).tree().kind,
                    children: if at < children.len() {
                        children.update(at, token)
                    } else {
                        children.insert(0, token)
                    },
                })
            }),
    {
        let elements = self.syntax().children_with_tokens();
        let ghost children = elements_view(elements@);
        let ghost token = Elem::Token(SyntaxKind::PATCH_NAME.raw(), new_name.spec_bytes());
        let mut at: usize = 0;
        while at < elements.len()
            invariant
                at <= elements.len(),
                children == elements_view(elements@),
                token_index(children, SyntaxKind::PATCH_NAME.raw(), 0) == token_index(
                    children,
                    SyntaxKind::PATCH_NAME.raw(),
                    at as int,
                ),
            ensures
                at <= elements.len(),
                at == token_index(children, SyntaxKind::PATCH_NAME.raw(), 0),
            decreases elements.len() - at,
        {
            assert(children[at as int] == elements@[at as int]@);
            let found = match &elements[at] {
                SyntaxElement::Token(t) => t.kind_raw() == SyntaxKind::PATCH_NAME.to_raw(),
                SyntaxElement::Node(_) => false,
            };
            if found {
                break ;
            }
            at += 1;
        }
        let mut with: Vec<GreenElement> = Vec::new();
        with.push(GreenElement::Token(SyntaxKind::PATCH_NAME.to_raw(), String::from_str(new_name)));
        let (from, to) = if at < elements.len() {
            (at, at + 1)
        } else {
            (0, 0)
        };
        proof {
            assert(element_views(with@) =~= seq![token]);
            lemma_text_of_one(token);
            lemma_spliced_text(children, from as int, to as int, seq![token]);
            if at < elements.len() {
                assert(spliced(children, from as int, to as int, seq![token]) =~= children.update(
                    at as int,
                    token,
                ));
            } else {
                assert(spliced(children, 0, 0, seq![token]) =~= children.insert(0, token));
            }
        }
        let green = node_splice(self.syntax().green(), from, to, with);
        self.set_syntax(SyntaxNode::new_root(green));
    }
}

impl SeriesFile {
    /// Update multiple patches
    ///
    /// The answers are for the patches with a name, in order: the first
    /// answer for the first of them, and so on. Where an answer gives
    /// options, the entry of the patch is replaced by one with its name and
    /// these options. A patch without an answer, and all else, stays as it
    /// is.
    pub fn update_with(&mut self, updates: &[Option<Vec<String>>])
        requires
            elems_text(
                updated(
                    old(self).tree().children,
                    answers_view(updates@),
                    old(self).tree().children.len() as int,
                ),
            ).len() <= u32::MAX,
        ensures
            final(self).tree() == (Tree {
                kind: old(self).tree().kind,
                children: updated(
                    old(self).tree().children,
                    answers_view(updates@),
                    old(self).tree().children.len() as int,
                ),
            }),
    {
        let elements = self.syntax().children_with_tokens();
        let ghost children = elements_view(elements@);
        let ghost answers = answers_view(updates@);
        let mut with: Vec<GreenElement> = Vec::new();
        let mut named: usize = 0;
        let mut i: usize = 0;
        assert(element_views(with@) =~= updated(children, answers, 0));
        while i < elements.len()
            invariant
                i <= elements.len(),
                named <= i,
                children == elements_view(elements@),
                answers == answers_view(updates@),
                elems_text(updated(children, answers, children.len() as int)).len() <= u32::MAX,
                named == named_before(children, i as int),
                element_views(with@) == updated(children, answers, i as int),
            decreases elements.len() - i,
        {
            let ghost before = with@;
            assert(children[i as int] == elements@[i as int]@);
            let name = match patch_entry_of(&elements[i]) {
                Some(patch) => patch.name(),
                None => None,
            };
            let mut kept = true;
            if let Some(name) = &name {
                if named < updates.len() {
                    assert(answers[named as int] == match updates@[named as int] {
                        Some(options) => Some(texts_bytes(options@)),
                        None => None,
                    });
                    if let Some(options) = &updates[named] {
                        let slices = as_strs(options);
                        proof {
                            let entry = Elem::Node(
                                patch_entry_tree(name_of(children[i as int]).unwrap(), strs_bytes(slices@)),
                            );
                            lemma_updated_grows(children, answers, i + 1, children.len() as int);
                            lemma_elems_text_push(updated(children, answers, i as int), entry);
                            lemma_patch_entry_text(
                                name_of(children[i as int]).unwrap(),
                                strs_bytes(slices@),
                            );
                        }
                        let green = Self::build_patch_entry_green(name.as_str(), slices.as_slice());
                        with.push(GreenElement::Node(green));
                        assert(element_views(with@) =~= element_views(before).push(
                            Elem::Node(
                                patch_entry_tree(
                                    name_of(children[i as int]).unwrap(),
                                    strs_bytes(slices@),
                                ),
                            ),
                        ));
                        kept = false;
                    }
                }
                named += 1;
            }
            if kept {
                with.push(to_green(&elements[i]));
                assert(element_views(with@) =~= element_views(before).push(children[i as int]));
            }
            i += 1;
        }
        proof {
            assert(spliced(children, 0, children.len() as int, element_views(with@))
                =~= element_views(with@));
        }
        let total = elements.len();
        self.splice(0, total, with);
    }
}

} // verus!
