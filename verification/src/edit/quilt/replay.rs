//! Edits of a series, replayed.
//!
//! The editor changes the tree of a series file; what a caller has in mind
//! is a list of patches. This module says what each edit makes of the tree
//! and what it makes of the list, and shows that the two agree: a series
//! that is filled by edits alone is written as the builder writes the list
//! of patches that the edits leave.
use crate::edit::green::{elems_text, lemma_elems_text_append, Elem, Tree};
use crate::edit::quilt::editor::{
    find_name, lemma_patch_entry_text, lemma_series_of_entries_text, name_of, option_elems,
    option_item, patch_entries_of, patch_entry_tree, patch_line, patch_lines, patch_of,
    patch_slot, space_token, without_patches,
};
use crate::edit::quilt::lex::SyntaxKind;
use crate::edit::quilt::lossless::{
    first_child, first_children, first_token_text, item_values, patch_name, patch_options,
};
use crate::edit::quilt::{builder_text, BuilderEntryView};
use crate::edit::syntax::{
    child_nodes, child_tokens, lemma_child_nodes_append, lemma_child_tokens_append,
    lemma_children_of_one, lemma_of_kind_one, of_kind, token_is, tokens_of_kind, tree_is,
};
use vstd::prelude::*;

verus! {

/// A patch as a caller has it in mind: its name and its options.
pub type PatchLine = (Seq<u8>, Seq<Seq<u8>>);

/// An edit of a series.
pub enum Edit {
    /// A patch is put in before the patch with the given index.
    Insert(int, Seq<u8>, Seq<Seq<u8>>),
    /// A patch is put in behind the last patch.
    Push(Seq<u8>, Seq<Seq<u8>>),
    /// A patch is put in before the first patch.
    Prepend(Seq<u8>, Seq<Seq<u8>>),
    /// The first patch with the name is taken out.
    Remove(Seq<u8>),
    /// The first patch with the name gets other options.
    SetOptions(Seq<u8>, Seq<Seq<u8>>),
    /// The first patch with the first name gets the second name.
    Rename(Seq<u8>, Seq<u8>),
    /// The first patch with the name is moved before the patch that then
    /// has the given index.
    MoveTo(Seq<u8>, int),
    /// All patches are taken out.
    Clear,
}

/// The number of patches among the elements below a root.
pub open spec fn patch_count(children: Seq<Elem>) -> int {
    first_children(
        of_kind(child_nodes(children), SyntaxKind::SERIES_ENTRY.raw()),
        SyntaxKind::PATCH_ENTRY.raw(),
    ).len() as int
}

/// The entry that the editor builds for a patch, as an element.
pub open spec fn built(name: Seq<u8>, options: Seq<Seq<u8>>) -> Elem {
    Elem::Node(patch_entry_tree(name, options))
}

/// What an edit makes of the elements below the root of a series.
pub open spec fn edited(children: Seq<Elem>, edit: Edit) -> Seq<Elem> {
    match edit {
        Edit::Insert(index, name, options) => children.insert(
            patch_slot(children, index, 0),
            built(name, options),
        ),
        Edit::Push(name, options) => children.insert(
            patch_slot(children, patch_count(children), 0),
            built(name, options),
        ),
        Edit::Prepend(name, options) => children.insert(
            patch_slot(children, 0, 0),
            built(name, options),
        ),
        Edit::Remove(name) => {
            let at = find_name(children, name, 0);
            if at < children.len() {
                children.remove(at)
            } else {
                children
            }
        },
        Edit::SetOptions(name, options) => {
            let at = find_name(children, name, 0);
            if at < children.len() {
                children.update(at, built(name, options))
            } else {
                children
            }
        },
        Edit::Rename(old_name, new_name) => {
            let at = find_name(children, old_name, 0);
            if at < children.len() {
                children.update(
                    at,
                    built(new_name, patch_options(patch_of(children[at]).unwrap())),
                )
            } else {
                children
            }
        },
        Edit::MoveTo(name, index) => {
            let at = find_name(children, name, 0);
            if at < children.len() {
                let rest = children.remove(at);
                rest.insert(
                    patch_slot(rest, index, 0),
                    built(name, patch_options(patch_of(children[at]).unwrap())),
                )
            } else {
                children
            }
        },
        Edit::Clear => without_patches(children),
    }
}

/// The index of the first patch at or behind `from` with the name `name`;
/// the number of patches where there is none.
pub open spec fn index_of(patches: Seq<PatchLine>, name: Seq<u8>, from: int) -> int
    decreases patches.len() - from,
{
    if from < 0 || from >= patches.len() {
        patches.len() as int
    } else if patches[from].0 == name {
        from
    } else {
        index_of(patches, name, from + 1)
    }
}

/// An index of a list of `len` patches at which a patch can be put in: the
/// index itself, or the end of the list where it lies behind it.
pub open spec fn clipped(index: int, len: int) -> int {
    if index < 0 {
        0
    } else if index > len {
        len
    } else {
        index
    }
}

/// What an edit makes of the patches that a caller has in mind.
pub open spec fn applied(patches: Seq<PatchLine>, edit: Edit) -> Seq<PatchLine> {
    match edit {
        Edit::Insert(index, name, options) => patches.insert(
            clipped(index, patches.len() as int),
            (name, options),
        ),
        Edit::Push(name, options) => patches.push((name, options)),
        Edit::Prepend(name, options) => patches.insert(0, (name, options)),
        Edit::Remove(name) => {
            let at = index_of(patches, name, 0);
            if at < patches.len() {
                patches.remove(at)
            } else {
                patches
            }
        },
        Edit::SetOptions(name, options) => {
            let at = index_of(patches, name, 0);
            if at < patches.len() {
                patches.update(at, (name, options))
            } else {
                patches
            }
        },
        Edit::Rename(old_name, new_name) => {
            let at = index_of(patches, old_name, 0);
            if at < patches.len() {
                patches.update(at, (new_name, patches[at].1))
            } else {
                patches
            }
        },
        Edit::MoveTo(name, index) => {
            let at = index_of(patches, name, 0);
            if at < patches.len() {
                let rest = patches.remove(at);
                rest.insert(clipped(index, rest.len() as int), patches[at])
            } else {
                patches
            }
        },
        Edit::Clear => Seq::empty(),
    }
}

/// The trees of the option items of `options`.
pub open spec fn item_trees(options: Seq<Seq<u8>>) -> Seq<Tree> {
    options.map_values(|o: Seq<u8>| option_item(o)->Node_0)
}

/// The nodes among the elements of the options are the items, one for
/// each option, and the values of the items are the options.
proof fn lemma_option_items(options: Seq<Seq<u8>>)
    ensures
        child_nodes(option_elems(options)) == item_trees(options),
        of_kind(item_trees(options), SyntaxKind::OPTION_ITEM.raw()) == item_trees(options),
        item_values(item_trees(options)) == options,
    decreases options.len(),
{
    let kind = SyntaxKind::OPTION_ITEM.raw();
    reveal(Seq::filter);
    if options.len() == 0 {
        lemma_children_of_one(space_token());
        assert(item_trees(options) =~= Seq::<Tree>::empty());
        assert(item_values(item_trees(options)) =~= options);
    } else {
        let last = option_item(options.last());
        let tree = last->Node_0;
        let before = options.drop_last();
        lemma_option_items(before);
        lemma_children_of_one(last);
        lemma_children_of_one(space_token());
        assert(item_trees(options).drop_last() =~= item_trees(before));
        assert(item_trees(options).last() == tree);
        assert(item_trees(options) =~= item_trees(before).push(tree));
        if options.len() == 1 {
            assert(item_trees(before) =~= Seq::<Tree>::empty());
            assert(option_elems(options) =~= seq![last]);
        } else {
            let elems = option_elems(before);
            assert(option_elems(options) =~= elems + seq![space_token()] + seq![last]);
            lemma_child_nodes_append(elems, seq![space_token()]);
            lemma_child_nodes_append(elems + seq![space_token()], seq![last]);
            assert(child_nodes(option_elems(options)) =~= item_trees(before).push(tree));
        }
        // the value of the last item
        let inside = seq![Elem::Token(SyntaxKind::OPTION.raw(), options.last())];
        assert(tree.children == inside);
        lemma_children_of_one(inside[0]);
        lemma_of_kind_one(
            tree,
            (SyntaxKind::OPTION.raw(), options.last()),
            SyntaxKind::OPTION.raw(),
        );
        assert(first_token_text(tree, SyntaxKind::OPTION.raw()) == Some(options.last()));
        assert(item_values(item_trees(options)) =~= options);
    }
}

/// The entry that the editor builds for a patch holds a patch with the
/// name and the options that it was built from.
pub proof fn lemma_built_entry(name: Seq<u8>, options: Seq<Seq<u8>>)
    ensures
        patch_of(built(name, options)) is Some,
        name_of(built(name, options)) == Some(name),
        patch_options(patch_of(built(name, options)).unwrap()) == options,
{
    let entry = patch_entry_tree(name, options);
    let patch = entry.children[0]->Node_0;
    let none = Seq::<Tree>::empty();
    let name_token = Elem::Token(SyntaxKind::PATCH_NAME.raw(), name);
    let end_token = Elem::Token(SyntaxKind::NEWLINE.raw(), seq![0x0au8]);
    let head = seq![name_token];
    let tail = seq![end_token];
    // the patch entry below the series entry
    assert(entry.children =~= seq![Elem::Node(patch)]);
    lemma_children_of_one(Elem::Node(patch));
    lemma_of_kind_one(patch, (0u16, Seq::empty()), SyntaxKind::PATCH_ENTRY.raw());
    assert(first_child(entry, SyntaxKind::PATCH_ENTRY.raw()) == Some(patch));
    assert(patch_of(built(name, options)) == Some(patch));
    lemma_children_of_one(name_token);
    lemma_children_of_one(end_token);
    lemma_children_of_one(space_token());
    lemma_of_kind_one(patch, (SyntaxKind::PATCH_NAME.raw(), name), SyntaxKind::PATCH_NAME.raw());
    lemma_of_kind_one(
        patch,
        (SyntaxKind::NEWLINE.raw(), seq![0x0au8]),
        SyntaxKind::PATCH_NAME.raw(),
    );
    lemma_of_kind_one(patch, (SyntaxKind::SPACE.raw(), seq![0x20u8]), SyntaxKind::PATCH_NAME.raw());
    let names = token_is(SyntaxKind::PATCH_NAME.raw());
    let are_options = tree_is(SyntaxKind::OPTIONS.raw());
    if options.len() > 0 {
        let all = Tree { kind: SyntaxKind::OPTIONS.raw(), children: option_elems(options) };
        let middle = seq![space_token(), Elem::Node(all)];
        assert(patch.children =~= head + middle + tail);
        assert(middle =~= seq![space_token()] + seq![Elem::Node(all)]);
        lemma_children_of_one(Elem::Node(all));
        lemma_child_tokens_append(seq![space_token()], seq![Elem::Node(all)]);
        lemma_child_nodes_append(seq![space_token()], seq![Elem::Node(all)]);
        lemma_child_tokens_append(head, middle);
        lemma_child_tokens_append(head + middle, tail);
        lemma_child_nodes_append(head, middle);
        lemma_child_nodes_append(head + middle, tail);
        // the name
        Seq::filter_distributes_over_add(child_tokens(head), child_tokens(middle), names);
        Seq::filter_distributes_over_add(
            child_tokens(head) + child_tokens(middle),
            child_tokens(tail),
            names,
        );
        assert(tokens_of_kind(child_tokens(patch.children), SyntaxKind::PATCH_NAME.raw())[0] == (
            SyntaxKind::PATCH_NAME.raw(),
            name,
        ));
        // the options
        assert(child_nodes(patch.children) =~= seq![all]);
        lemma_of_kind_one(all, (0u16, Seq::empty()), SyntaxKind::OPTIONS.raw());
        assert(first_child(patch, SyntaxKind::OPTIONS.raw()) == Some(all));
        lemma_option_items(options);
    } else {
        assert(patch.children =~= head + tail);
        lemma_child_tokens_append(head, tail);
        lemma_child_nodes_append(head, tail);
        Seq::filter_distributes_over_add(child_tokens(head), child_tokens(tail), names);
        assert(tokens_of_kind(child_tokens(patch.children), SyntaxKind::PATCH_NAME.raw())[0] == (
            SyntaxKind::PATCH_NAME.raw(),
            name,
        ));
        assert(child_nodes(patch.children) =~= none);
        lemma_of_kind_one(patch, (0u16, Seq::empty()), SyntaxKind::OPTIONS.raw());
        assert(first_child(patch, SyntaxKind::OPTIONS.raw()) is None);
        assert(options =~= Seq::<Seq<u8>>::empty());
    }
}

/// In a series of entries that the editor has built, every element holds
/// a patch: the patch with an index stands at that index, and a name is
/// found where the list of patches has it.
proof fn lemma_built_slots(patches: Seq<PatchLine>, index: int, name: Seq<u8>, from: int)
    requires
        0 <= from <= patches.len(),
    ensures
        patch_slot(patch_entries_of(patches), index, from) == clipped(
            if index < 0 {
                from
            } else {
                from + index
            },
            patches.len() as int,
        ),
        find_name(patch_entries_of(patches), name, from) == index_of(patches, name, from),
    decreases patches.len() - from,
{
    if from < patches.len() {
        lemma_built_entry(patches[from].0, patches[from].1);
        lemma_built_slots(patches, index, name, from + 1);
        lemma_built_slots(patches, index - 1, name, from + 1);
    }
}

/// A series of entries that the editor has built holds as many patches
/// as it has entries.
proof fn lemma_built_count(patches: Seq<PatchLine>)
    ensures
        patch_count(patch_entries_of(patches)) == patches.len(),
        child_nodes(patch_entries_of(patches)).len() == patches.len(),
        of_kind(child_nodes(patch_entries_of(patches)), SyntaxKind::SERIES_ENTRY.raw())
            == child_nodes(patch_entries_of(patches)),
    decreases patches.len(),
{
    reveal(Seq::filter);
    let entries = patch_entries_of(patches);
    if patches.len() > 0 {
        let last = patches.last();
        let before = patch_entries_of(patches.drop_last());
        lemma_built_count(patches.drop_last());
        lemma_built_entry(last.0, last.1);
        assert(entries.drop_last() =~= before);
        assert(entries.last() == built(last.0, last.1));
        let trees = child_nodes(entries);
        let tree = patch_entry_tree(last.0, last.1);
        assert(trees == child_nodes(before).push(tree));
        assert(trees.drop_last() =~= child_nodes(before));
        assert(trees.last() == tree);
        let kept = of_kind(trees, SyntaxKind::SERIES_ENTRY.raw());
        assert(kept =~= trees);
        assert(kept.drop_last() =~= of_kind(child_nodes(before), SyntaxKind::SERIES_ENTRY.raw()));
    } else {
        assert(entries =~= Seq::<Elem>::empty());
        lemma_children_of_one(space_token());
        lemma_of_kind_one(
            patch_entry_tree(Seq::empty(), Seq::empty()),
            (0u16, Seq::empty()),
            SyntaxKind::SERIES_ENTRY.raw(),
        );
    }
}

/// Nothing is left of a series of entries that the editor has built when
/// its patches are taken out.
proof fn lemma_built_cleared(patches: Seq<PatchLine>)
    ensures
        without_patches(patch_entries_of(patches)) == Seq::<Elem>::empty(),
    decreases patches.len(),
{
    reveal(Seq::filter);
    let entries = patch_entries_of(patches);
    if patches.len() > 0 {
        let last = patches.last();
        lemma_built_cleared(patches.drop_last());
        lemma_built_entry(last.0, last.1);
        assert(entries.drop_last() =~= patch_entries_of(patches.drop_last()));
        assert(entries.last() == built(last.0, last.1));
    } else {
        assert(entries =~= Seq::<Elem>::empty());
    }
}

/// An edit of a series of entries that the editor has built leaves the
/// entries that the editor builds for the edited list of patches.
pub proof fn lemma_edit_of_built(patches: Seq<PatchLine>, edit: Edit)
    ensures
        edited(patch_entries_of(patches), edit) == patch_entries_of(applied(patches, edit)),
{
    let entries = patch_entries_of(patches);
    let len = patches.len() as int;
    match edit {
        Edit::Insert(index, name, options) => {
            lemma_built_slots(patches, index, name, 0);
            let at = clipped(index, len);
            assert(entries.insert(at, built(name, options)) =~= patch_entries_of(
                patches.insert(at, (name, options)),
            ));
        },
        Edit::Push(name, options) => {
            lemma_built_count(patches);
            lemma_built_slots(patches, len, name, 0);
            assert(entries.insert(len, built(name, options)) =~= patch_entries_of(
                patches.push((name, options)),
            ));
        },
        Edit::Prepend(name, options) => {
            lemma_built_slots(patches, 0, name, 0);
            assert(entries.insert(0, built(name, options)) =~= patch_entries_of(
                patches.insert(0, (name, options)),
            ));
        },
        Edit::Remove(name) => {
            lemma_built_slots(patches, 0, name, 0);
            let at = index_of(patches, name, 0);
            if at < len {
                lemma_index_of(patches, name, 0);
                assert(entries.remove(at) =~= patch_entries_of(patches.remove(at)));
            }
        },
        Edit::SetOptions(name, options) => {
            lemma_built_slots(patches, 0, name, 0);
            let at = index_of(patches, name, 0);
            if at < len {
                lemma_index_of(patches, name, 0);
                assert(entries.update(at, built(name, options)) =~= patch_entries_of(
                    patches.update(at, (name, options)),
                ));
            }
        },
        Edit::Rename(old_name, new_name) => {
            lemma_built_slots(patches, 0, old_name, 0);
            let at = index_of(patches, old_name, 0);
            if at < len {
                lemma_index_of(patches, old_name, 0);
                lemma_built_entry(patches[at].0, patches[at].1);
                assert(entries.update(at, built(new_name, patches[at].1)) =~= patch_entries_of(
                    patches.update(at, (new_name, patches[at].1)),
                ));
            }
        },
        Edit::MoveTo(name, index) => {
            lemma_built_slots(patches, 0, name, 0);
            let at = index_of(patches, name, 0);
            if at < len {
                lemma_index_of(patches, name, 0);
                lemma_built_entry(patches[at].0, patches[at].1);
                let rest = patches.remove(at);
                assert(entries.remove(at) =~= patch_entries_of(rest));
                lemma_built_slots(rest, index, name, 0);
                let to = clipped(index, rest.len() as int);
                assert(patch_entries_of(rest).insert(to, built(name, patches[at].1))
                    =~= patch_entries_of(rest.insert(to, patches[at])));
            }
        },
        Edit::Clear => {
            lemma_built_cleared(patches);
            assert(patch_entries_of(Seq::<PatchLine>::empty()) =~= Seq::<Elem>::empty());
        },
    }
}

/// A name that is found is found within the list, at a patch that has
/// it.
proof fn lemma_index_of(patches: Seq<PatchLine>, name: Seq<u8>, from: int)
    requires
        0 <= from <= patches.len(),
    ensures
        from <= index_of(patches, name, from) <= patches.len(),
        index_of(patches, name, from) < patches.len() ==> patches[index_of(
            patches,
            name,
            from,
        )].0 == name,
    decreases patches.len() - from,
{
    if from < patches.len() {
        lemma_index_of(patches, name, from + 1);
    }
}

/// A patch as a series holds it: its name, if it has one, and its
/// options.
pub type HeldPatch = (Option<Seq<u8>>, Seq<Seq<u8>>);

/// The patch that an element below a root holds, if it holds one.
pub open spec fn listed(e: Elem) -> Seq<HeldPatch> {
    match patch_of(e) {
        Some(patch) => seq![(patch_name(patch), patch_options(patch))],
        None => Seq::empty(),
    }
}

/// The patches that the elements below a root hold, in order.
pub open spec fn listing(children: Seq<Elem>) -> Seq<HeldPatch>
    decreases children.len(),
{
    if children.len() == 0 {
        Seq::empty()
    } else {
        listing(children.drop_last()) + listed(children.last())
    }
}

/// The patches of a series, as its patch entries show them.
pub open spec fn shown_patches(patches: Seq<Tree>) -> Seq<HeldPatch> {
    patches.map_values(|t: Tree| (patch_name(t), patch_options(t)))
}

/// The patches of two runs of elements are those of the first and those
/// of the second.
pub proof fn lemma_listing_append(a: Seq<Elem>, b: Seq<Elem>)
    ensures
        listing(a + b) == listing(a) + listing(b),
    decreases b.len(),
{
    if b.len() == 0 {
        assert(a + b =~= a);
        assert(listing(a) + listing(b) =~= listing(a));
    } else {
        lemma_listing_append(a, b.drop_last());
        assert((a + b).drop_last() =~= a + b.drop_last());
        assert((a + b).last() == b.last());
        assert(listing(a) + (listing(b.drop_last()) + listed(b.last())) =~= (listing(a) + listing(
            b.drop_last(),
        )) + listed(b.last()));
    }
}

/// The patches of one element.
proof fn lemma_listing_one(e: Elem)
    ensures
        listing(seq![e]) == listed(e),
{
    assert(seq![e].drop_last() =~= Seq::<Elem>::empty());
    assert(listing(seq![e].drop_last()) =~= Seq::<HeldPatch>::empty());
    assert(listing(seq![e]) =~= listed(e));
}

/// The patch entries of a series show the patches that its elements hold.
pub proof fn lemma_listing_is_shown(children: Seq<Elem>)
    ensures
        listing(children) == shown_patches(
            first_children(
                of_kind(child_nodes(children), SyntaxKind::SERIES_ENTRY.raw()),
                SyntaxKind::PATCH_ENTRY.raw(),
            ),
        ),
    decreases children.len(),
{
    reveal(Seq::filter);
    let entries = SyntaxKind::SERIES_ENTRY.raw();
    let patches = SyntaxKind::PATCH_ENTRY.raw();
    if children.len() > 0 {
        let before = children.drop_last();
        lemma_listing_is_shown(before);
        let kept = of_kind(child_nodes(before), entries);
        match children.last() {
            Elem::Token(_, _) => {
                assert(listing(children) =~= listing(before));
            },
            Elem::Node(tree) => {
                let nodes = child_nodes(children);
                assert(nodes == child_nodes(before).push(tree));
                assert(nodes.drop_last() =~= child_nodes(before));
                assert(nodes.last() == tree);
                if tree.kind == entries {
                    let all = of_kind(nodes, entries);
                    assert(all == kept.push(tree));
                    assert(all.drop_last() =~= kept);
                    assert(all.last() == tree);
                    match first_child(tree, patches) {
                        Some(patch) => {
                            assert(shown_patches(first_children(kept, patches).push(patch))
                                =~= shown_patches(first_children(kept, patches)) + seq![
                                (patch_name(patch), patch_options(patch)),
                            ]);
                        },
                        None => {
                            assert(listing(children) =~= listing(before));
                        },
                    }
                } else {
                    assert(of_kind(nodes, entries) == kept);
                    assert(listing(children) =~= listing(before));
                }
            },
        }
    } else {
        lemma_children_of_one(space_token());
        lemma_of_kind_one(
            patch_entry_tree(Seq::empty(), Seq::empty()),
            (0u16, Seq::empty()),
            entries,
        );
        assert(shown_patches(Seq::<Tree>::empty()) =~= Seq::<HeldPatch>::empty());
    }
}

/// The element that holds the patch with an index stands behind as many
/// patches as the index says, or behind all patches where there are fewer.
pub proof fn lemma_slot_counts(children: Seq<Elem>, index: int, from: int)
    requires
        0 <= from <= children.len(),
    ensures
        from <= patch_slot(children, index, from) <= children.len(),
        listing(children.subrange(from, patch_slot(children, index, from))).len() == clipped(
            index,
            listing(children.subrange(from, children.len() as int)).len() as int,
        ),
    decreases children.len() - from,
{
    let len = children.len() as int;
    let slot = patch_slot(children, index, from);
    if from >= len {
        assert(children.subrange(from, len) =~= Seq::<Elem>::empty());
    } else {
        let one = seq![children[from]];
        lemma_listing_one(children[from]);
        assert(children.subrange(from, len) =~= one + children.subrange(from + 1, len));
        lemma_listing_append(one, children.subrange(from + 1, len));
        if patch_of(children[from]) is Some && index <= 0 {
            assert(children.subrange(from, from) =~= Seq::<Elem>::empty());
        } else {
            let next = if patch_of(children[from]) is Some {
                index - 1
            } else {
                index
            };
            lemma_slot_counts(children, next, from + 1);
            assert(children.subrange(from, slot) =~= one + children.subrange(from + 1, slot));
            lemma_listing_append(one, children.subrange(from + 1, slot));
        }
    }
}

/// A patch that is put into a series, whatever the series holds, comes to
/// stand in the list of its patches at the index that was given, or at the
/// end where the list is shorter; the other patches keep their order, and the
/// text of the series is the old text with the line of the patch put in.
pub proof fn lemma_insert_into_any(
    children: Seq<Elem>,
    index: int,
    name: Seq<u8>,
    options: Seq<Seq<u8>>,
)
    ensures
        listing(edited(children, Edit::Insert(index, name, options))) == listing(children).insert(
            clipped(index, listing(children).len() as int),
            (Some(name), options),
        ),
        elems_text(edited(children, Edit::Insert(index, name, options))) == elems_text(
            children.subrange(0, patch_slot(children, index, 0)),
        ) + patch_line(name, options) + elems_text(
            children.subrange(patch_slot(children, index, 0), children.len() as int),
        ),
        elems_text(children) == elems_text(children.subrange(0, patch_slot(children, index, 0)))
            + elems_text(
            children.subrange(patch_slot(children, index, 0), children.len() as int),
        ),
{
    let len = children.len() as int;
    let slot = patch_slot(children, index, 0);
    lemma_slot_counts(children, index, 0);
    let head = children.subrange(0, slot);
    let tail = children.subrange(slot, len);
    let entry = built(name, options);
    lemma_built_entry(name, options);
    lemma_listing_one(entry);
    assert(children =~= head + tail);
    assert(children.subrange(0, len) =~= children);
    assert(children.insert(slot, entry) =~= head + seq![entry] + tail);
    lemma_listing_append(head, tail);
    lemma_listing_append(head, seq![entry]);
    lemma_listing_append(head + seq![entry], tail);
    assert(listing(head) + seq![(Some(name), options)] + listing(tail) =~= (listing(head)
        + listing(tail)).insert(listing(head).len() as int, (Some(name), options)));
    lemma_elems_text_append(head, tail);
    lemma_elems_text_append(head, seq![entry]);
    lemma_elems_text_append(head + seq![entry], tail);
    lemma_patch_entry_text(name, options);
    assert(seq![entry].drop_last() =~= Seq::<Elem>::empty());
    assert(elems_text(seq![entry].drop_last()) =~= Seq::<u8>::empty());
    assert(seq![entry].last() == entry);
    assert(crate::edit::green::elem_text(entry) == patch_entry_tree(name, options).text());
    assert(elems_text(seq![entry]) =~= patch_line(name, options));
}

/// What a run of edits makes of the elements below the root of a series.
pub open spec fn edited_all(children: Seq<Elem>, edits: Seq<Edit>) -> Seq<Elem>
    decreases edits.len(),
{
    if edits.len() == 0 {
        children
    } else {
        edited(edited_all(children, edits.drop_last()), edits.last())
    }
}

/// What a run of edits makes of the patches that a caller has in mind.
pub open spec fn applied_all(patches: Seq<PatchLine>, edits: Seq<Edit>) -> Seq<PatchLine>
    decreases edits.len(),
{
    if edits.len() == 0 {
        patches
    } else {
        applied(applied_all(patches, edits.drop_last()), edits.last())
    }
}

/// The patches as entries of a builder.
pub open spec fn as_builder_entries(patches: Seq<PatchLine>) -> Seq<BuilderEntryView> {
    patches.map_values(|p: (Seq<u8>, Seq<Seq<u8>>)| BuilderEntryView::Patch(p.0, p.1))
}

/// The builder writes the lines of the patches.
proof fn lemma_builder_writes_lines(patches: Seq<PatchLine>)
    ensures
        builder_text(as_builder_entries(patches)) == patch_lines(patches),
    decreases patches.len(),
{
    if patches.len() > 0 {
        lemma_builder_writes_lines(patches.drop_last());
        assert(as_builder_entries(patches).drop_last() =~= as_builder_entries(
            patches.drop_last(),
        ));
    }
}

/// A series that starts empty and is filled by edits holds the entries
/// that the editor builds for the patches that the edits leave, and is
/// written as the builder writes these patches.
pub proof fn lemma_edits_replay(edits: Seq<Edit>)
    ensures
        edited_all(Seq::empty(), edits) == patch_entries_of(applied_all(Seq::empty(), edits)),
        elems_text(edited_all(Seq::empty(), edits)) == builder_text(
            as_builder_entries(applied_all(Seq::empty(), edits)),
        ),
    decreases edits.len(),
{
    let patches = applied_all(Seq::empty(), edits);
    if edits.len() == 0 {
        assert(patch_entries_of(Seq::<PatchLine>::empty()) =~= Seq::<Elem>::empty());
    } else {
        lemma_edits_replay(edits.drop_last());
        lemma_edit_of_built(applied_all(Seq::empty(), edits.drop_last()), edits.last());
    }
    lemma_series_of_entries_text(patches);
    lemma_builder_writes_lines(patches);
}

} // verus!
