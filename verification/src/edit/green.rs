//! The syntax tree of the `rowan` crate, as far as this crate uses it.
//!
//! Verus does not look into `rowan`. What this module states of it is taken
//! on trust from its source: the functions marked `external_body` below each
//! make one call into `rowan` and say what that call does to the tree model
//! defined here.
use vstd::prelude::*;
use vstd::string::StringSliceAdditionalSpecFns;

verus! {

/// A syntax tree as a mathematical value: a kind and the elements below it.
pub struct Tree {
    pub kind: u16,
    pub children: Seq<Elem>,
}

/// An element of a syntax tree: a tree of its own, or a token with its kind
/// and the bytes of its text.
pub enum Elem {
    Node(Tree),
    Token(u16, Seq<u8>),
}

/// The text of an element: the bytes of a token, or the texts of all
/// elements below a node, in order.
pub open spec fn elem_text(e: Elem) -> Seq<u8>
    decreases e, 0nat,
{
    match e {
        Elem::Token(_, text) => text,
        Elem::Node(tree) => elems_text(tree.children),
    }
}

/// The texts of the elements, one after another.
pub open spec fn elems_text(es: Seq<Elem>) -> Seq<u8>
    decreases es, 1nat,
{
    if es.len() == 0 {
        Seq::empty()
    } else {
        elems_text(es.drop_last()) + elem_text(es.last())
    }
}

impl Tree {
    /// The text that the tree covers.
    pub open spec fn text(self) -> Seq<u8> {
        elems_text(self.children)
    }
}

/// Adding an element adds its text.
pub proof fn lemma_elems_text_push(es: Seq<Elem>, e: Elem)
    ensures
        elems_text(es.push(e)) == elems_text(es) + elem_text(e),
{
    assert(es.push(e).drop_last() =~= es);
}

/// The text of two runs of elements is the text of the first followed by
/// the text of the second.
pub proof fn lemma_elems_text_append(a: Seq<Elem>, b: Seq<Elem>)
    ensures
        elems_text(a + b) == elems_text(a) + elems_text(b),
    decreases b.len(),
{
    if b.len() == 0 {
        assert(a + b =~= a);
        assert(elems_text(a) + elems_text(b) =~= elems_text(a));
    } else {
        lemma_elems_text_append(a, b.drop_last());
        assert((a + b).drop_last() =~= a + b.drop_last());
        assert((a + b).last() == b.last());
        assert(elems_text(a) + (elems_text(b.drop_last()) + elem_text(b.last())) =~= (elems_text(
            a,
        ) + elems_text(b.drop_last())) + elem_text(b.last()));
    }
}

/// Putting the elements from index `first` on below a node of their own
/// leaves the text as it is.
pub proof fn lemma_elems_text_wrap(es: Seq<Elem>, first: int, kind: u16)
    requires
        0 <= first <= es.len(),
    ensures
        elems_text(
            es.subrange(0, first).push(
                Elem::Node(Tree { kind, children: es.subrange(first, es.len() as int) }),
            ),
        ) == elems_text(es),
        elems_text(es.subrange(first, es.len() as int)).len() <= elems_text(es).len(),
{
    let head = es.subrange(0, first);
    let tail = es.subrange(first, es.len() as int);
    lemma_elems_text_push(head, Elem::Node(Tree { kind, children: tail }));
    lemma_elems_text_append(head, tail);
    assert(head + tail =~= es);
}

/// The open nodes of a builder fit its finished elements: each was opened
/// at a place that still exists, and none before the one outside it.
pub open spec fn stack_ok(children: Seq<Elem>, parents: Seq<(u16, nat)>) -> bool {
    &&& forall|i: int| 0 <= i < parents.len() ==> (#[trigger] parents[i]).1 <= children.len()
    &&& forall|i: int, j: int|
        0 <= i <= j < parents.len() ==> (#[trigger] parents[i]).1 <= (#[trigger] parents[j]).1
}

#[verifier::external_type_specification]
#[verifier::external_body]
pub struct ExGreenNode(rowan::GreenNode);

#[verifier::external_type_specification]
#[verifier::external_body]
pub struct ExGreenNodeBuilder<'cache>(rowan::GreenNodeBuilder<'cache>);

#[verifier::external_type_specification]
#[verifier::external_body]
pub struct ExCheckpoint(rowan::Checkpoint);

/// The tree that a green node holds.
pub uninterp spec fn node_tree(node: rowan::GreenNode) -> Tree;

/// The elements that a builder has finished and not yet put below a node.
pub uninterp spec fn builder_children(builder: rowan::GreenNodeBuilder<'static>) -> Seq<Elem>;

/// The nodes that a builder has open, outermost first: the kind of each,
/// and the number of finished elements that stood before it was opened.
pub uninterp spec fn builder_parents(builder: rowan::GreenNodeBuilder<'static>) -> Seq<(u16, nat)>;

/// The number of finished elements that a checkpoint stands behind.
pub uninterp spec fn checkpoint_index(checkpoint: rowan::Checkpoint) -> nat;

/// An element handed out of a green node: a node, or a token with its kind
/// and text.
pub enum GreenElement {
    Node(rowan::GreenNode),
    Token(u16, String),
}

impl View for GreenElement {
    type V = Elem;

    open spec fn view(&self) -> Elem {
        match self {
            GreenElement::Node(node) => Elem::Node(node_tree(*node)),
            GreenElement::Token(kind, text) => Elem::Token(*kind, vstd::utf8::encode_utf8(text@)),
        }
    }
}

/// The views of a sequence of elements.
pub open spec fn element_views(elements: Seq<GreenElement>) -> Seq<Elem> {
    elements.map_values(|e: GreenElement| e@)
}

/// `GreenNodeBuilder::new`: a builder with nothing finished and nothing
/// open.
#[verifier::external_body]
pub(crate) fn builder_new() -> (builder: rowan::GreenNodeBuilder<'static>)
    ensures
        builder_children(builder) == Seq::<Elem>::empty(),
        builder_parents(builder) == Seq::<(u16, nat)>::empty(),
{
    rowan::GreenNodeBuilder::new()
}

/// `GreenNodeBuilder::token`: a token of the given kind and text is added
/// behind the finished elements; the open nodes stay as they are.
#[verifier::external_body]
pub(crate) fn builder_token(builder: &mut rowan::GreenNodeBuilder<'static>, kind: u16, text: &str)
    ensures
        builder_children(*final(builder)) == builder_children(*old(builder)).push(
            Elem::Token(kind, text.spec_bytes()),
        ),
        builder_parents(*final(builder)) == builder_parents(*old(builder)),
{
    builder.token(rowan::SyntaxKind(kind), text)
}

/// `GreenNodeBuilder::start_node`: a node of the given kind is opened
/// behind the finished elements.
#[verifier::external_body]
pub(crate) fn builder_start_node(builder: &mut rowan::GreenNodeBuilder<'static>, kind: u16)
    ensures
        builder_children(*final(builder)) == builder_children(*old(builder)),
        builder_parents(*final(builder)) == builder_parents(*old(builder)).push(
            (kind, builder_children(*old(builder)).len()),
        ),
{
    builder.start_node(rowan::SyntaxKind(kind))
}

/// `GreenNodeBuilder::finish_node`: the innermost open node is closed. The
/// elements finished since it was opened become its children, and the node
/// takes their place. `rowan` panics where no node is open, and counts the
/// text of a node in 32 bits.
#[verifier::external_body]
pub(crate) fn builder_finish_node(builder: &mut rowan::GreenNodeBuilder<'static>)
    requires
        builder_parents(*old(builder)).len() > 0,
        builder_parents(*old(builder)).last().1 <= builder_children(*old(builder)).len(),
        elems_text(
            builder_children(*old(builder)).subrange(
                builder_parents(*old(builder)).last().1 as int,
                builder_children(*old(builder)).len() as int,
            ),
        ).len() <= u32::MAX,
    ensures
        builder_parents(*final(builder)) == builder_parents(*old(builder)).drop_last(),
        builder_children(*final(builder)) == builder_children(*old(builder)).subrange(
            0,
            builder_parents(*old(builder)).last().1 as int,
        ).push(
            Elem::Node(
                Tree {
                    kind: builder_parents(*old(builder)).last().0,
                    children: builder_children(*old(builder)).subrange(
                        builder_parents(*old(builder)).last().1 as int,
                        builder_children(*old(builder)).len() as int,
                    ),
                },
            ),
        ),
{
    builder.finish_node()
}

/// `GreenNodeBuilder::checkpoint`: a mark behind the elements finished so
/// far.
#[verifier::external_body]
pub(crate) fn builder_checkpoint(builder: &rowan::GreenNodeBuilder<'static>) -> (checkpoint:
    rowan::Checkpoint)
    ensures
        checkpoint_index(checkpoint) == builder_children(*builder).len(),
{
    builder.checkpoint()
}

/// `GreenNodeBuilder::start_node_at`: a node of the given kind is opened at
/// the checkpoint, so that the elements finished since then come to stand
/// below it. `rowan` panics where the checkpoint stands behind more elements
/// than there are, or before the place at which the innermost open node was
/// opened.
#[verifier::external_body]
pub(crate) fn builder_start_node_at(
    builder: &mut rowan::GreenNodeBuilder<'static>,
    checkpoint: rowan::Checkpoint,
    kind: u16,
)
    requires
        checkpoint_index(checkpoint) <= builder_children(*old(builder)).len(),
        builder_parents(*old(builder)).len() > 0 ==> builder_parents(*old(builder)).last().1
            <= checkpoint_index(checkpoint),
    ensures
        builder_children(*final(builder)) == builder_children(*old(builder)),
        builder_parents(*final(builder)) == builder_parents(*old(builder)).push(
            (kind, checkpoint_index(checkpoint)),
        ),
{
    builder.start_node_at(checkpoint, rowan::SyntaxKind(kind))
}

/// `GreenNodeBuilder::finish`: the one finished element, which must be a
/// node, is the tree. `rowan` panics on any other state.
#[verifier::external_body]
pub(crate) fn builder_finish(builder: rowan::GreenNodeBuilder<'static>) -> (node: rowan::GreenNode)
    requires
        builder_children(builder).len() == 1,
        builder_children(builder)[0] is Node,
    ensures
        Elem::Node(node_tree(node)) == builder_children(builder)[0],
{
    builder.finish()
}

/// `GreenNodeData::kind`: the kind of the node.
#[verifier::external_body]
pub(crate) fn node_kind(node: &rowan::GreenNode) -> (kind: u16)
    ensures
        kind == node_tree(*node).kind,
{
    node.kind().0
}

/// `GreenNodeData::children`: the elements below the node, in order, each
/// node as it is and each token as its kind and text.
#[verifier::external_body]
pub(crate) fn node_children(node: &rowan::GreenNode) -> (children: Vec<GreenElement>)
    ensures
        element_views(children@) == node_tree(*node).children,
{
    node.children().map(|child| match child {
        rowan::NodeOrToken::Node(n) => GreenElement::Node(n.to_owned()),
        rowan::NodeOrToken::Token(t) => GreenElement::Token(t.kind().0, t.text().to_string()),
    }).collect()
}

/// `GreenNodeData::splice_children`: a node of the same kind whose children
/// are those of `node` with the ones from index `from` up to index `to`
/// replaced by `with`. `rowan` panics where the range does not lie within
/// the children, and counts the text of a node in 32 bits.
#[verifier::external_body]
pub(crate) fn node_splice(
    node: &rowan::GreenNode,
    from: usize,
    to: usize,
    with: Vec<GreenElement>,
) -> (r: rowan::GreenNode)
    requires
        from <= to <= node_tree(*node).children.len(),
        elems_text(
            node_tree(*node).children.subrange(0, from as int) + element_views(with@)
                + node_tree(*node).children.subrange(
                to as int,
                node_tree(*node).children.len() as int,
            ),
        ).len() <= u32::MAX,
    ensures
        node_tree(r) == (Tree {
            kind: node_tree(*node).kind,
            children: node_tree(*node).children.subrange(0, from as int) + element_views(with@)
                + node_tree(*node).children.subrange(
                to as int,
                node_tree(*node).children.len() as int,
            ),
        }),
{
    node.splice_children(from..to, with.into_iter().map(|e| match e {
        GreenElement::Node(n) => rowan::NodeOrToken::Node(n),
        GreenElement::Token(kind, text) => rowan::NodeOrToken::Token(
            rowan::GreenToken::new(rowan::SyntaxKind(kind), &text),
        ),
    }))
}

/// `GreenNode::clone`: the same node once more.
pub assume_specification[ <rowan::GreenNode as Clone>::clone ](green: &rowan::GreenNode) -> (r:
    rowan::GreenNode)
    ensures
        r == *green,
;

} // verus!
