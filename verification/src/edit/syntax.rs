//! Nodes and tokens of a syntax tree, as the typed views read them.
use crate::edit::green::{
    elems_text, element_views, lemma_elems_text_push, node_children, node_kind, node_tree, Elem,
    GreenElement, Tree,
};
use crate::edit::parse::lemma_encode_append;
use vstd::prelude::*;
use vstd::string::StringExecFns;
use vstd::utf8::encode_utf8;

verus! {

/// A node of a syntax tree.
#[derive(Debug, Clone, PartialEq, Eq, Hash)]
pub struct SyntaxNode {
    green: rowan::GreenNode,
}

/// A token of a syntax tree: its kind and its text.
#[derive(Debug, Clone, PartialEq, Eq, Hash)]
pub struct SyntaxToken {
    kind: u16,
    text: String,
}

/// A node or a token.
#[derive(Debug, Clone, PartialEq, Eq, Hash)]
pub enum SyntaxElement {
    Node(SyntaxNode),
    Token(SyntaxToken),
}

impl View for SyntaxNode {
    type V = Tree;

    closed spec fn view(&self) -> Tree {
        node_tree(self.green)
    }
}

impl View for SyntaxToken {
    type V = (u16, Seq<u8>);

    closed spec fn view(&self) -> (u16, Seq<u8>) {
        (self.kind, encode_utf8(self.text@))
    }
}

impl View for SyntaxElement {
    type V = Elem;

    open spec fn view(&self) -> Elem {
        match self {
            SyntaxElement::Node(node) => Elem::Node(node@),
            SyntaxElement::Token(token) => Elem::Token(token@.0, token@.1),
        }
    }
}

/// The views of a sequence of elements.
pub open spec fn elements_view(elements: Seq<SyntaxElement>) -> Seq<Elem> {
    elements.map_values(|e: SyntaxElement| e@)
}

/// The views of a sequence of nodes.
pub open spec fn nodes_view(nodes: Seq<SyntaxNode>) -> Seq<Tree> {
    nodes.map_values(|n: SyntaxNode| n@)
}

/// The views of a sequence of tokens.
pub open spec fn tokens_view(tokens: Seq<SyntaxToken>) -> Seq<(u16, Seq<u8>)> {
    tokens.map_values(|t: SyntaxToken| t@)
}

/// The nodes among the elements, in order.
pub open spec fn child_nodes(elements: Seq<Elem>) -> Seq<Tree>
    decreases elements.len(),
{
    if elements.len() == 0 {
        Seq::empty()
    } else {
        match elements.last() {
            Elem::Node(tree) => child_nodes(elements.drop_last()).push(tree),
            Elem::Token(_, _) => child_nodes(elements.drop_last()),
        }
    }
}

/// The tokens among the elements, in order.
pub open spec fn child_tokens(elements: Seq<Elem>) -> Seq<(u16, Seq<u8>)>
    decreases elements.len(),
{
    if elements.len() == 0 {
        Seq::empty()
    } else {
        match elements.last() {
            Elem::Node(_) => child_tokens(elements.drop_last()),
            Elem::Token(kind, text) => child_tokens(elements.drop_last()).push((kind, text)),
        }
    }
}

/// Whether a tree is of kind `kind`.
pub open spec fn tree_is(kind: u16) -> spec_fn(Tree) -> bool {
    |t: Tree| t.kind == kind
}

/// Whether a token is of kind `kind`.
pub open spec fn token_is(kind: u16) -> spec_fn((u16, Seq<u8>)) -> bool {
    |t: (u16, Seq<u8>)| t.0 == kind
}

/// The trees of kind `kind` among `trees`, in order.
pub open spec fn of_kind(trees: Seq<Tree>, kind: u16) -> Seq<Tree> {
    trees.filter(tree_is(kind))
}

/// The tokens of kind `kind` among `tokens`, in order.
pub open spec fn tokens_of_kind(tokens: Seq<(u16, Seq<u8>)>, kind: u16) -> Seq<(u16, Seq<u8>)> {
    tokens.filter(token_is(kind))
}

/// The first of `items`, if there is one.
pub open spec fn first_of<T>(items: Seq<T>) -> Option<T> {
    if items.len() > 0 {
        Some(items[0])
    } else {
        None
    }
}

/// The nodes among two runs of elements are those of the first and those
/// of the second.
pub proof fn lemma_child_nodes_append(a: Seq<Elem>, b: Seq<Elem>)
    ensures
        child_nodes(a + b) == child_nodes(a) + child_nodes(b),
    decreases b.len(),
{
    if b.len() == 0 {
        assert(a + b =~= a);
        assert(child_nodes(a) + child_nodes(b) =~= child_nodes(a));
    } else {
        lemma_child_nodes_append(a, b.drop_last());
        assert((a + b).drop_last() =~= a + b.drop_last());
        assert((a + b).last() == b.last());
        match b.last() {
            Elem::Node(tree) => {
                assert(child_nodes(a) + child_nodes(b.drop_last()).push(tree) =~= (child_nodes(a)
                    + child_nodes(b.drop_last())).push(tree));
            },
            Elem::Token(_, _) => {},
        }
    }
}

/// The tokens among two runs of elements are those of the first and those
/// of the second.
pub proof fn lemma_child_tokens_append(a: Seq<Elem>, b: Seq<Elem>)
    ensures
        child_tokens(a + b) == child_tokens(a) + child_tokens(b),
    decreases b.len(),
{
    if b.len() == 0 {
        assert(a + b =~= a);
        assert(child_tokens(a) + child_tokens(b) =~= child_tokens(a));
    } else {
        lemma_child_tokens_append(a, b.drop_last());
        assert((a + b).drop_last() =~= a + b.drop_last());
        assert((a + b).last() == b.last());
        match b.last() {
            Elem::Node(_) => {},
            Elem::Token(kind, text) => {
                assert(child_tokens(a) + child_tokens(b.drop_last()).push((kind, text)) =~= (
                child_tokens(a) + child_tokens(b.drop_last())).push((kind, text)));
            },
        }
    }
}

/// The nodes and the tokens among no elements and among one element.
pub proof fn lemma_children_of_one(e: Elem)
    ensures
        child_nodes(Seq::<Elem>::empty()) == Seq::<Tree>::empty(),
        child_tokens(Seq::<Elem>::empty()) == Seq::<(u16, Seq<u8>)>::empty(),
        child_nodes(seq![e]) == match e {
            Elem::Node(tree) => seq![tree],
            Elem::Token(_, _) => Seq::<Tree>::empty(),
        },
        child_tokens(seq![e]) == match e {
            Elem::Node(_) => Seq::<(u16, Seq<u8>)>::empty(),
            Elem::Token(kind, text) => seq![(kind, text)],
        },
{
    let none = Seq::<Elem>::empty();
    assert(child_nodes(none) =~= Seq::<Tree>::empty());
    assert(child_tokens(none) =~= Seq::<(u16, Seq<u8>)>::empty());
    assert(seq![e].drop_last() =~= none);
    assert(seq![e].last() == e);
    match e {
        Elem::Node(tree) => {
            assert(child_nodes(seq![e]) =~= seq![tree]);
            assert(child_tokens(seq![e]) =~= Seq::<(u16, Seq<u8>)>::empty());
        },
        Elem::Token(kind, text) => {
            assert(child_nodes(seq![e]) =~= Seq::<Tree>::empty());
            assert(child_tokens(seq![e]) =~= seq![(kind, text)]);
        },
    }
}

/// The trees of a kind among no trees and among one tree, and the same
/// of tokens.
pub proof fn lemma_of_kind_one(tree: Tree, token: (u16, Seq<u8>), kind: u16)
    ensures
        of_kind(Seq::<Tree>::empty(), kind) == Seq::<Tree>::empty(),
        of_kind(seq![tree], kind) == if tree.kind == kind {
            seq![tree]
        } else {
            Seq::<Tree>::empty()
        },
        tokens_of_kind(Seq::<(u16, Seq<u8>)>::empty(), kind) == Seq::<(u16, Seq<u8>)>::empty(),
        tokens_of_kind(seq![token], kind) == if token.0 == kind {
            seq![token]
        } else {
            Seq::<(u16, Seq<u8>)>::empty()
        },
{
    reveal(Seq::filter);
    let no_trees = Seq::<Tree>::empty();
    let no_tokens = Seq::<(u16, Seq<u8>)>::empty();
    assert(no_trees.filter(tree_is(kind)) =~= no_trees);
    assert(no_tokens.filter(token_is(kind)) =~= no_tokens);
    assert(seq![tree].drop_last() =~= no_trees);
    assert(seq![tree].last() == tree);
    assert(seq![token].drop_last() =~= no_tokens);
    assert(seq![token].last() == token);
    assert(of_kind(seq![tree], kind) =~= if tree.kind == kind {
        seq![tree]
    } else {
        no_trees
    });
    assert(tokens_of_kind(seq![token], kind) =~= if token.0 == kind {
        seq![token]
    } else {
        no_tokens
    });
}

impl SyntaxToken {
    /// A token of the given kind and text.
    pub fn new(kind: u16, text: String) -> (r: Self)
        ensures
            r@ == (kind, encode_utf8(text@)),
    {
        SyntaxToken { kind, text }
    }

    /// The number that stands for the kind of the token.
    pub fn kind_raw(&self) -> (r: u16)
        ensures
            r == self@.0,
    {
        self.kind
    }

    /// The text of the token.
    pub fn text(&self) -> (r: &str)
        ensures
            encode_utf8(r@) == self@.1,
    {
        self.text.as_str()
    }
}

impl SyntaxElement {
    /// The number that stands for the kind of the element.
    pub fn kind_raw(&self) -> (r: u16)
        ensures
            r == match self@ {
                Elem::Node(tree) => tree.kind,
                Elem::Token(kind, _) => kind,
            },
    {
        match self {
            SyntaxElement::Node(node) => node.kind_raw(),
            SyntaxElement::Token(token) => token.kind_raw(),
        }
    }

    /// The element as a token, if it is one.
    pub fn into_token(self) -> (r: Option<SyntaxToken>)
        ensures
            match self {
                SyntaxElement::Token(token) => r == Some(token),
                SyntaxElement::Node(_) => r is None,
            },
    {
        match self {
            SyntaxElement::Token(token) => Some(token),
            SyntaxElement::Node(_) => None,
        }
    }

    /// The element as a node, if it is one.
    pub fn into_node(self) -> (r: Option<SyntaxNode>)
        ensures
            match self {
                SyntaxElement::Node(node) => r == Some(node),
                SyntaxElement::Token(_) => r is None,
            },
    {
        match self {
            SyntaxElement::Node(node) => Some(node),
            SyntaxElement::Token(_) => None,
        }
    }
}

/// Appends the text of `node` to `out`.
fn append_text(node: &rowan::GreenNode, out: &mut String)
    ensures
        encode_utf8(final(out)@) == encode_utf8(old(out)@) + node_tree(*node).text(),
    decreases node_tree(*node),
{
    let children = node_children(node);
    let ghost views = element_views(children@);
    let ghost start = encode_utf8(out@);
    let mut i: usize = 0;
    assert(start + elems_text(views.subrange(0, 0)) =~= start);
    while i < children.len()
        invariant
            i <= children.len(),
            views == element_views(children@),
            views == node_tree(*node).children,
            encode_utf8(out@) == start + elems_text(views.subrange(0, i as int)),
        decreases children.len() - i,
    {
        let ghost before = out@;
        proof {
            assert(views.subrange(0, i + 1) =~= views.subrange(0, i as int).push(views[i as int]));
            lemma_elems_text_push(views.subrange(0, i as int), views[i as int]);
            assert(views[i as int] == children@[i as int]@);
        }
        match &children[i] {
            GreenElement::Token(_, text) => {
                out.append(text.as_str());
                proof {
                    lemma_encode_append(before, text@);
                }
            },
            GreenElement::Node(child) => {
                assert(node_tree(*node).children[i as int] == Elem::Node(node_tree(*child)));
                append_text(child, out);
            },
        }
        assert(encode_utf8(out@) =~= start + elems_text(views.subrange(0, i + 1)));
        i += 1;
    }
    assert(views.subrange(0, views.len() as int) =~= views);
}

impl SyntaxNode {
    /// The node at the top of a tree.
    pub fn new_root(green: rowan::GreenNode) -> (r: Self)
        ensures
            r@ == node_tree(green),
    {
        SyntaxNode { green }
    }

    /// The green node that holds the tree.
    pub fn green(&self) -> (r: &rowan::GreenNode)
        ensures
            node_tree(*r) == self@,
    {
        &self.green
    }

    /// The same node once more.
    pub fn clone(&self) -> (r: Self)
        ensures
            r@ == self@,
    {
        SyntaxNode { green: self.green.clone() }
    }

    /// The number that stands for the kind of the node.
    pub fn kind_raw(&self) -> (r: u16)
        ensures
            r == self@.kind,
    {
        node_kind(&self.green)
    }

    /// The elements below the node, in order.
    pub fn children_with_tokens(&self) -> (r: Vec<SyntaxElement>)
        ensures
            elements_view(r@) == self@.children,
    {
        let children = node_children(&self.green);
        let mut out: Vec<SyntaxElement> = Vec::new();
        let mut children = children;
        let ghost views = element_views(children@);
        let mut rest: Vec<GreenElement> = Vec::new();
        let n = children.len();
        // the elements are taken from the back and put in order again
        while children.len() > 0
            invariant
                children@.len() + rest@.len() == n,
                element_views(children@) + element_views(rest@).reverse() == views,
            decreases children.len(),
        {
            let ghost a = children@;
            let ghost b = rest@;
            let e = children.pop().unwrap();
            rest.push(e);
            assert(element_views(children@) + element_views(rest@).reverse() =~= element_views(a)
                + element_views(b).reverse());
        }
        assert(element_views(rest@).reverse() =~= views);
        while rest.len() > 0
            invariant
                rest@.len() + out@.len() == n,
                elements_view(out@) + element_views(rest@).reverse() == views,
            decreases rest.len(),
        {
            let ghost a = out@;
            let ghost b = rest@;
            let e = rest.pop().unwrap();
            let item = match e {
                GreenElement::Node(green) => SyntaxElement::Node(SyntaxNode { green }),
                GreenElement::Token(kind, text) => SyntaxElement::Token(SyntaxToken { kind, text }),
            };
            out.push(item);
            assert(elements_view(out@) + element_views(rest@).reverse() =~= elements_view(a)
                + element_views(b).reverse());
        }
        assert(elements_view(out@) =~= views);
        out
    }

    /// The nodes below the node, in order.
    pub fn children(&self) -> (r: Vec<SyntaxNode>)
        ensures
            nodes_view(r@) == child_nodes(self@.children),
    {
        let elements = self.children_with_tokens();
        let ghost views = elements_view(elements@);
        let mut out: Vec<SyntaxNode> = Vec::new();
        let mut i: usize = 0;
        assert(nodes_view(out@) =~= child_nodes(views.subrange(0, 0)));
        while i < elements.len()
            invariant
                i <= elements.len(),
                views == elements_view(elements@),
                nodes_view(out@) == child_nodes(views.subrange(0, i as int)),
            decreases elements.len() - i,
        {
            let ghost before = out@;
            proof {
                assert(views.subrange(0, i + 1).drop_last() =~= views.subrange(0, i as int));
                assert(views.subrange(0, i + 1).last() == elements@[i as int]@);
            }
            match &elements[i] {
                SyntaxElement::Node(node) => {
                    out.push(node.clone());
                    assert(nodes_view(out@) =~= nodes_view(before).push(node@));
                },
                SyntaxElement::Token(_) => {},
            }
            i += 1;
        }
        assert(views.subrange(0, views.len() as int) =~= views);
        out
    }

    /// The tokens below the node, in order.
    pub fn tokens(&self) -> (r: Vec<SyntaxToken>)
        ensures
            tokens_view(r@) == child_tokens(self@.children),
    {
        let elements = self.children_with_tokens();
        let ghost views = elements_view(elements@);
        let mut out: Vec<SyntaxToken> = Vec::new();
        let mut i: usize = 0;
        assert(tokens_view(out@) =~= child_tokens(views.subrange(0, 0)));
        while i < elements.len()
            invariant
                i <= elements.len(),
                views == elements_view(elements@),
                tokens_view(out@) == child_tokens(views.subrange(0, i as int)),
            decreases elements.len() - i,
        {
            let ghost before = out@;
            proof {
                assert(views.subrange(0, i + 1).drop_last() =~= views.subrange(0, i as int));
                assert(views.subrange(0, i + 1).last() == elements@[i as int]@);
            }
            match &elements[i] {
                SyntaxElement::Token(token) => {
                    let copy = SyntaxToken { kind: token.kind, text: token.text.clone() };
                    out.push(copy);
                    assert(tokens_view(out@) =~= tokens_view(before).push(token@));
                },
                SyntaxElement::Node(_) => {},
            }
            i += 1;
        }
        assert(views.subrange(0, views.len() as int) =~= views);
        out
    }

    /// The nodes of kind `kind` below the node, in order.
    pub fn children_of_kind(&self, kind: u16) -> (r: Vec<SyntaxNode>)
        ensures
            nodes_view(r@) == of_kind(child_nodes(self@.children), kind),
            forall|i: int| 0 <= i < r@.len() ==> (#[trigger] r@[i])@.kind == kind,
    {
        let nodes = self.children();
        let ghost views = nodes_view(nodes@);
        let ghost pred = tree_is(kind);
        let mut out: Vec<SyntaxNode> = Vec::new();
        let mut i: usize = 0;
        assert(nodes_view(out@) =~= views.subrange(0, 0).filter(pred));
        while i < nodes.len()
            invariant
                i <= nodes.len(),
                views == nodes_view(nodes@),
                pred == tree_is(kind),
                nodes_view(out@) == views.subrange(0, i as int).filter(pred),
            decreases nodes.len() - i,
        {
            let ghost before = out@;
            proof {
                let done = views.subrange(0, i as int);
                assert(views.subrange(0, i + 1) =~= done.push(views[i as int]));
                done.lemma_filter_push(views[i as int], pred);
            }
            if nodes[i].kind_raw() == kind {
                out.push(nodes[i].clone());
                assert(nodes_view(out@) =~= nodes_view(before).push(nodes@[i as int]@));
            }
            i += 1;
        }
        assert(views.subrange(0, views.len() as int) =~= views);
        proof {
            views.filter_lemma(pred);
            assert forall|i: int| 0 <= i < out@.len() implies (#[trigger] out@[i])@.kind
                == kind by {
                assert(nodes_view(out@)[i] == out@[i]@);
                assert(pred(views.filter(pred)[i]));
            }
        }
        out
    }

    /// The first node of kind `kind` below the node.
    pub fn child_of_kind(&self, kind: u16) -> (r: Option<SyntaxNode>)
        ensures
            match first_of(of_kind(child_nodes(self@.children), kind)) {
                Some(tree) => r is Some && r.unwrap()@ == tree,
                None => r is None,
            },
    {
        let mut found = self.children_of_kind(kind);
        if found.len() > 0 {
            let ghost first = found@[0]@;
            let node = found.swap_remove(0);
            Some(node)
        } else {
            None
        }
    }

    /// The tokens of kind `kind` below the node, in order.
    pub fn tokens_of_kind(&self, kind: u16) -> (r: Vec<SyntaxToken>)
        ensures
            tokens_view(r@) == tokens_of_kind(child_tokens(self@.children), kind),
    {
        let tokens = self.tokens();
        let ghost views = tokens_view(tokens@);
        let ghost pred = token_is(kind);
        let mut out: Vec<SyntaxToken> = Vec::new();
        let mut i: usize = 0;
        assert(tokens_view(out@) =~= views.subrange(0, 0).filter(pred));
        while i < tokens.len()
            invariant
                i <= tokens.len(),
                views == tokens_view(tokens@),
                pred == token_is(kind),
                tokens_view(out@) == views.subrange(0, i as int).filter(pred),
            decreases tokens.len() - i,
        {
            let ghost before = out@;
            proof {
                let done = views.subrange(0, i as int);
                assert(views.subrange(0, i + 1) =~= done.push(views[i as int]));
                done.lemma_filter_push(views[i as int], pred);
            }
            if tokens[i].kind == kind {
                let copy = SyntaxToken { kind: tokens[i].kind, text: tokens[i].text.clone() };
                out.push(copy);
                assert(tokens_view(out@) =~= tokens_view(before).push(tokens@[i as int]@));
            }
            i += 1;
        }
        assert(views.subrange(0, views.len() as int) =~= views);
        out
    }

    /// The text that the node covers.
    pub fn text(&self) -> (r: String)
        ensures
            encode_utf8(r@) == self@.text(),
    {
        let mut out = String::new();
        assert(encode_utf8(out@) =~= Seq::<u8>::empty());
        append_text(&self.green, &mut out);
        assert(Seq::<u8>::empty() + self@.text() =~= self@.text());
        out
    }
}

} // verus!
