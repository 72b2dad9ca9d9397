//! Which format a patch file is of, as its tree shows it.
use crate::edit::grammar::{
    format_occurs, item_format, item_step, items_step, lemma_item, patch_tree, span,
};
use crate::edit::green::{Elem, Tree};
use crate::edit::kind::SyntaxKind;
use crate::edit::lossless::DiffFormat;
use crate::edit::syntax::{child_nodes, lemma_child_nodes_append, of_kind, tree_is};
use vstd::prelude::*;

verus! {

/// The kind of node that stands for a format among the children of the
/// root.
pub open spec fn format_kind(format: DiffFormat) -> SyntaxKind {
    match format {
        DiffFormat::Unified => SyntaxKind::PATCH_FILE,
        DiffFormat::Context => SyntaxKind::CONTEXT_DIFF_FILE,
        DiffFormat::Ed => SyntaxKind::ED_COMMAND,
        DiffFormat::Normal => SyntaxKind::NORMAL_HUNK,
    }
}

/// Whether a node that stands for `format` is among the elements.
pub open spec fn shows(elems: Seq<Elem>, format: DiffFormat) -> bool {
    of_kind(child_nodes(elems), format_kind(format).raw()).len() > 0
}

/// The format that the children of a root show: unified where there is a
/// patch file, else context where there is a context diff file, else ed
/// where there is an ed command, else normal where there is a normal hunk.
pub open spec fn format_of(children: Seq<Elem>) -> Option<DiffFormat> {
    if shows(children, DiffFormat::Unified) {
        Some(DiffFormat::Unified)
    } else if shows(children, DiffFormat::Context) {
        Some(DiffFormat::Context)
    } else if shows(children, DiffFormat::Ed) {
        Some(DiffFormat::Ed)
    } else if shows(children, DiffFormat::Normal) {
        Some(DiffFormat::Normal)
    } else {
        None
    }
}

/// Tokens are no nodes.
pub proof fn lemma_span_has_no_nodes(tokens: Seq<(SyntaxKind, Seq<u8>)>, i: int, j: int)
    ensures
        child_nodes(span(tokens, i, j)) == Seq::<Tree>::empty(),
    decreases j - i,
{
    reveal(span);
    if i < j {
        lemma_span_has_no_nodes(tokens, i, j - 1);
        assert(span(tokens, i, j).drop_last() =~= span(tokens, i, j - 1));
    }
}

/// Two runs of elements show a format where one of them shows it.
pub proof fn lemma_shows_append(a: Seq<Elem>, b: Seq<Elem>, format: DiffFormat)
    ensures
        shows(a + b, format) == (shows(a, format) || shows(b, format)),
{
    lemma_child_nodes_append(a, b);
    Seq::filter_distributes_over_add(
        child_nodes(a),
        child_nodes(b),
        tree_is(format_kind(format).raw()),
    );
}

/// One node shows the format that its kind stands for, and no other.
pub proof fn lemma_node_shows(kind: SyntaxKind, children: Seq<Elem>, format: DiffFormat)
    ensures
        shows(seq![Elem::Node(Tree { kind: kind.raw(), children })], format) == (kind.raw()
            == format_kind(format).raw()),
{
    let tree = Tree { kind: kind.raw(), children };
    let one = seq![Elem::Node(tree)];
    let none = Seq::<Elem>::empty();
    assert(one.drop_last() =~= none);
    assert(one.last() == Elem::Node(tree));
    assert(child_nodes(none) =~= Seq::<Tree>::empty());
    assert(child_nodes(one) =~= seq![tree]);
    let is_format = tree_is(format_kind(format).raw());
    reveal(Seq::filter);
    assert(seq![tree].drop_last() =~= Seq::<Tree>::empty());
    assert(Seq::<Tree>::empty().filter(is_format) =~= Seq::<Tree>::empty());
    assert(seq![tree].last() == tree);
    assert(is_format(tree) == (kind.raw() == format_kind(format).raw()));
}

/// What stands at a token shows its format, and no other.
pub proof fn lemma_item_shows(tokens: Seq<(SyntaxKind, Seq<u8>)>, i: int, format: DiffFormat)
    requires
        0 <= i < tokens.len(),
    ensures
        shows(item_step(tokens, i).elems, format) == (item_format(tokens, i) == Some(format)),
{
    let step = item_step(tokens, i);
    match item_format(tokens, i) {
        Some(found) => {
            assert(step.elems.len() == 1 && step.elems[0] is Node);
            let tree = step.elems[0]->Node_0;
            assert(tree.kind == format_kind(found).raw());
            assert(step.elems =~= seq![Elem::Node(tree)]);
            lemma_node_shows(format_kind(found), tree.children, format);
        },
        None => {
            lemma_span_has_no_nodes(tokens, i, step.end);
            reveal(Seq::filter);
        },
    }
}

/// The children of the root show a format exactly where something of
/// that format stands in the patch file.
pub proof fn lemma_shows_what_occurs(
    tokens: Seq<(SyntaxKind, Seq<u8>)>,
    i: int,
    format: DiffFormat,
)
    requires
        0 <= i <= tokens.len(),
    ensures
        shows(items_step(tokens, i).elems, format) == format_occurs(tokens, i, format),
    decreases tokens.len() - i,
{
    if i < tokens.len() {
        lemma_item(tokens, i);
        let item = item_step(tokens, i);
        lemma_item_shows(tokens, i, format);
        lemma_shows_what_occurs(tokens, item.end, format);
        lemma_shows_append(item.elems, items_step(tokens, item.end).elems, format);
    } else {
        reveal(Seq::filter);
    }
}

/// The format of a patch file in which one format occurs and no other is
/// that format.
pub proof fn lemma_detects_the_one_format(tokens: Seq<(SyntaxKind, Seq<u8>)>, format: DiffFormat)
    requires
        format_occurs(tokens, 0, format),
        forall|other: DiffFormat| other != format ==> !format_occurs(tokens, 0, other),
    ensures
        format_of(patch_tree(tokens).children) == Some(format),
{
    lemma_shows_what_occurs(tokens, 0, DiffFormat::Unified);
    lemma_shows_what_occurs(tokens, 0, DiffFormat::Context);
    lemma_shows_what_occurs(tokens, 0, DiffFormat::Ed);
    lemma_shows_what_occurs(tokens, 0, DiffFormat::Normal);
}

/// A patch file in which none of the formats occurs has no format.
pub proof fn lemma_detects_no_format(tokens: Seq<(SyntaxKind, Seq<u8>)>)
    requires
        forall|format: DiffFormat| !format_occurs(tokens, 0, format),
    ensures
        format_of(patch_tree(tokens).children) is None,
{
    lemma_shows_what_occurs(tokens, 0, DiffFormat::Unified);
    lemma_shows_what_occurs(tokens, 0, DiffFormat::Context);
    lemma_shows_what_occurs(tokens, 0, DiffFormat::Ed);
    lemma_shows_what_occurs(tokens, 0, DiffFormat::Normal);
}

} // verus!
