//! The result of parsing a text into a syntax tree, and the typed views of
//! its nodes.
use crate::edit::green::{node_tree, Tree};
use crate::edit::syntax::{child_nodes, nodes_view, of_kind, SyntaxNode};
use crate::text::{join_lines, joined_lines, string_views};
use std::marker::PhantomData;
use vstd::prelude::*;

verus! {

/// A range of a text, in bytes from its start.
#[derive(Debug, Clone, Copy, PartialEq, Eq, Hash, Structural)]
pub struct TextRange {
    /// The index of the first byte.
    pub start: u32,
    /// The index behind the last byte.
    pub end: u32,
}

/// Parse error containing a list of error messages
#[derive(Debug, Clone, PartialEq, Eq, Hash)]
pub struct ParseError(pub Vec<String>);

impl ParseError {
    /// The errors in words: the messages, each on a line of its own.
    pub fn message(&self) -> (r: String)
        ensures
            r@ == joined_lines(string_views(self.0@)),
    {
        join_lines(self.0.as_slice())
    }
}

/// Parse error with position information
#[derive(Debug, Clone, PartialEq, Eq)]
pub struct PositionedParseError {
    /// The error message
    pub message: String,
    /// The position in the source text where the error occurred
    pub position: TextRange,
}

/// A typed view of the nodes of one kind.
pub trait AstNode: Sized {
    /// The number that stands for the kind of node that the view reads.
    spec fn raw_kind() -> u16;

    /// The tree below the node.
    spec fn tree(&self) -> Tree;

    /// Whether a node of kind `kind` can be read through this view.
    fn can_cast(kind: u16) -> (r: bool)
        ensures
            r == (kind == Self::raw_kind()),
    ;

    /// The view of `syntax`, if the node is of the kind that the view
    /// reads.
    fn cast(syntax: SyntaxNode) -> (r: Option<Self>)
        ensures
            r is Some <==> syntax@.kind == Self::raw_kind(),
            r is Some ==> r.unwrap().tree() == syntax@,
    ;

    /// The node that the view reads.
    fn syntax(&self) -> (r: &SyntaxNode)
        ensures
            r@ == self.tree(),
    ;
}

/// The trees below a sequence of views.
pub open spec fn view_trees<T: AstNode>(views: Seq<T>) -> Seq<Tree> {
    views.map_values(|v: T| v.tree())
}

/// The views of nodes that are all of the kind that the view reads.
pub fn cast_all<T: AstNode>(nodes: Vec<SyntaxNode>) -> (r: Vec<T>)
    requires
        forall|i: int| 0 <= i < nodes@.len() ==> (#[trigger] nodes@[i])@.kind == T::raw_kind(),
    ensures
        view_trees(r@) == nodes_view(nodes@),
{
    let ghost all = nodes_view(nodes@);
    let mut nodes = nodes;
    let mut reversed: Vec<T> = Vec::new();
    while nodes.len() > 0
        invariant
            forall|i: int| 0 <= i < nodes@.len() ==> (#[trigger] nodes@[i])@.kind == T::raw_kind(),
            nodes_view(nodes@) + view_trees(reversed@).reverse() == all,
        decreases nodes.len(),
    {
        let ghost a = nodes@;
        let ghost b = reversed@;
        let node = nodes.pop().unwrap();
        assert(node == a[a.len() - 1]);
        let view = T::cast(node).unwrap();
        reversed.push(view);
        assert(nodes_view(nodes@) + view_trees(reversed@).reverse() =~= nodes_view(a)
            + view_trees(b).reverse());
    }
    let mut out: Vec<T> = Vec::new();
    assert(view_trees(reversed@).reverse() =~= all);
    while reversed.len() > 0
        invariant
            view_trees(out@) + view_trees(reversed@).reverse() == all,
        decreases reversed.len(),
    {
        let ghost a = out@;
        let ghost b = reversed@;
        let view = reversed.pop().unwrap();
        out.push(view);
        assert(view_trees(out@) + view_trees(reversed@).reverse() =~= view_trees(a) + view_trees(
            b,
        ).reverse());
    }
    assert(view_trees(out@) =~= all);
    out
}

/// The views of the nodes of kind `kind` below `node`, in order.
pub fn children_as<T: AstNode>(node: &SyntaxNode, kind: u16) -> (r: Vec<T>)
    requires
        kind == T::raw_kind(),
    ensures
        view_trees(r@) == of_kind(child_nodes(node@.children), kind),
{
    cast_all(node.children_of_kind(kind))
}

/// The view of the node of kind `kind` that is number `n` among its kind
/// below `node`, counted from 0.
pub fn nth_child_as<T: AstNode>(node: &SyntaxNode, kind: u16, n: usize) -> (r: Option<T>)
    requires
        kind == T::raw_kind(),
    ensures
        match nth_of(of_kind(child_nodes(node@.children), kind), n as int) {
            Some(tree) => r is Some && r.unwrap().tree() == tree,
            None => r is None,
        },
{
    let mut found = node.children_of_kind(kind);
    if n < found.len() {
        let picked = found.swap_remove(n);
        T::cast(picked)
    } else {
        None
    }
}

/// The view of the first node of kind `kind` below `node`.
pub fn child_as<T: AstNode>(node: &SyntaxNode, kind: u16) -> (r: Option<T>)
    requires
        kind == T::raw_kind(),
    ensures
        match nth_of(of_kind(child_nodes(node@.children), kind), 0) {
            Some(tree) => r is Some && r.unwrap().tree() == tree,
            None => r is None,
        },
{
    nth_child_as(node, kind, 0)
}

/// Item `n` of `items`, if there is one.
pub open spec fn nth_of<T>(items: Seq<T>, n: int) -> Option<T> {
    if 0 <= n < items.len() {
        Some(items[n])
    } else {
        None
    }
}

/// Parse result containing a syntax tree and any parse errors
#[derive(Debug, PartialEq, Eq)]
pub struct Parse<T> {
    green: rowan::GreenNode,
    errors: Vec<String>,
    positioned_errors: Vec<PositionedParseError>,
    _ty: PhantomData<T>,
}

/// Copies of the messages.
fn copy_messages(messages: &Vec<String>) -> (r: Vec<String>)
    ensures
        r@ == messages@,
{
    let mut r: Vec<String> = Vec::new();
    let mut i: usize = 0;
    while i < messages.len()
        invariant
            i <= messages.len(),
            r@ == messages@.subrange(0, i as int),
        decreases messages.len() - i,
    {
        r.push(messages[i].clone());
        assert(messages@.subrange(0, i + 1) =~= messages@.subrange(0, i as int).push(
            messages@[i as int],
        ));
        i += 1;
    }
    assert(messages@.subrange(0, messages@.len() as int) =~= messages@);
    r
}

impl<T> Parse<T> {
    /// The tree that was parsed.
    pub closed spec fn root(&self) -> Tree {
        node_tree(self.green)
    }

    /// The messages of the errors without a position.
    pub closed spec fn messages(&self) -> Seq<String> {
        self.errors@
    }

    /// The errors with a position.
    pub closed spec fn positioned(&self) -> Seq<PositionedParseError> {
        self.positioned_errors@
    }

    /// No error of either kind was recorded.
    pub open spec fn is_ok(&self) -> bool {
        self.messages().len() == 0 && self.positioned().len() == 0
    }

    /// Create a new parse result
    pub fn new(green: rowan::GreenNode, errors: Vec<String>) -> (r: Self)
        ensures
            r.root() == node_tree(green),
            r.messages() == errors@,
            r.positioned().len() == 0,
    {
        Parse { green, errors, positioned_errors: Vec::new(), _ty: PhantomData }
    }

    /// Create a new parse result with positioned errors
    pub fn new_with_positioned_errors(
        green: rowan::GreenNode,
        errors: Vec<String>,
        positioned_errors: Vec<PositionedParseError>,
    ) -> (r: Self)
        ensures
            r.root() == node_tree(green),
            r.messages() == errors@,
            r.positioned() == positioned_errors@,
    {
        Parse { green, errors, positioned_errors, _ty: PhantomData }
    }

    /// Get the green node (thread-safe representation)
    pub fn green(&self) -> (r: &rowan::GreenNode)
        ensures
            node_tree(*r) == self.root(),
    {
        &self.green
    }

    /// Get the syntax errors
    pub fn errors(&self) -> (r: &[String])
        ensures
            r@ == self.messages(),
    {
        self.errors.as_slice()
    }

    /// Get parse errors with position information
    pub fn positioned_errors(&self) -> (r: &[PositionedParseError])
        ensures
            r@ == self.positioned(),
    {
        self.positioned_errors.as_slice()
    }

    /// Get parse errors as strings
    pub fn error_messages(&self) -> (r: Vec<String>)
        ensures
            r@.len() == self.positioned().len(),
            forall|i: int| 0 <= i < r@.len() ==> r@[i] == (#[trigger] self.positioned()[i]).message,
    {
        let mut r: Vec<String> = Vec::new();
        let mut i: usize = 0;
        while i < self.positioned_errors.len()
            invariant
                i <= self.positioned_errors.len(),
                r@.len() == i,
                forall|k: int|
                    0 <= k < i ==> r@[k] == (#[trigger] self.positioned_errors@[k]).message,
            decreases self.positioned_errors.len() - i,
        {
            r.push(self.positioned_errors[i].message.clone());
            i += 1;
        }
        r
    }

    /// Check if parsing succeeded without errors
    pub fn ok(&self) -> (r: bool)
        ensures
            r == self.is_ok(),
    {
        self.errors.len() == 0 && self.positioned_errors.len() == 0
    }

    /// Get the syntax node
    pub fn syntax_node(&self) -> (r: SyntaxNode)
        ensures
            r@ == self.root(),
    {
        SyntaxNode::new_root(self.green.clone())
    }
}

impl<T: AstNode> Parse<T> {
    /// Convert to a Result, returning the tree if there are no errors
    pub fn to_result(self) -> (r: Result<T, ParseError>)
        requires
            self.is_ok() ==> self.root().kind == T::raw_kind(),
        ensures
            match r {
                Ok(t) => self.is_ok() && t.tree() == self.root(),
                Err(e) => !self.is_ok() && e.0@.len() == self.messages().len()
                    + self.positioned().len() && e.0@.subrange(0, self.messages().len() as int)
                    == self.messages() && forall|i: int|
                    0 <= i < self.positioned().len() ==> e.0@[self.messages().len() + i] == (
                    #[trigger] self.positioned()[i]).message,
            },
    {
        if self.errors.len() == 0 && self.positioned_errors.len() == 0 {
            let node = SyntaxNode::new_root(self.green);
            Ok(T::cast(node).unwrap())
        } else {
            let mut all_errors = copy_messages(&self.errors);
            let mut more = self.error_messages();
            let ghost first = all_errors@;
            all_errors.append(&mut more);
            assert(all_errors@.subrange(0, first.len() as int) =~= first);
            Err(ParseError(all_errors))
        }
    }

    /// Get the parsed syntax tree; there must be no errors
    pub fn tree(&self) -> (r: T)
        requires
            self.is_ok(),
            self.root().kind == T::raw_kind(),
        ensures
            r.tree() == self.root(),
    {
        let node = SyntaxNode::new_root(self.green.clone());
        T::cast(node).unwrap()
    }

    /// Cast this parse result to a different AST node type
    pub fn cast<U: AstNode>(self) -> (r: Option<Parse<U>>)
        ensures
            r is Some <==> self.root().kind == U::raw_kind(),
            r is Some ==> r.unwrap().root() == self.root() && r.unwrap().messages()
                == self.messages() && r.unwrap().positioned() == self.positioned(),
    {
        let node = SyntaxNode::new_root(self.green.clone());
        if U::cast(node).is_none() {
            return None;
        }
        Some(
            Parse {
                green: self.green,
                errors: self.errors,
                positioned_errors: self.positioned_errors,
                _ty: PhantomData,
            },
        )
    }
}

} // verus!
