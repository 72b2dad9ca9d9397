//! Building a syntax tree from tokens, with nodes opened and closed around
//! them.
use crate::edit::green::{
    builder_checkpoint, builder_children, builder_finish, builder_finish_node, builder_new,
    builder_parents, builder_start_node, builder_start_node_at, builder_token, checkpoint_index,
    elem_text, elems_text, lemma_elems_text_push, lemma_elems_text_wrap, node_tree, stack_ok, Elem,
    Tree,
};
use vstd::prelude::*;
use vstd::string::StringSliceAdditionalSpecFns;

verus! {

/// What a step of a parser adds to the node that is open: the elements, and
/// the index of the token behind the last one read.
pub struct Step {
    pub elems: Seq<Elem>,
    pub end: int,
}

/// A step that reads nothing.
pub open spec fn no_step(i: int) -> Step {
    Step { elems: Seq::empty(), end: i }
}

/// Two steps, one after the other.
pub open spec fn chain(first: Step, next: Step) -> Step {
    Step { elems: first.elems + next.elems, end: next.end }
}

/// A builder of syntax trees that keeps to what `rowan` asks of its callers:
/// a node is closed only while one is open, and a tree never covers more
/// text than 32 bits count.
pub struct TreeBuilder {
    inner: rowan::GreenNodeBuilder<'static>,
}

impl TreeBuilder {
    /// The elements that are finished and stand below no finished node.
    pub closed spec fn children(&self) -> Seq<Elem> {
        builder_children(self.inner)
    }

    /// The open nodes, outermost first: the kind of each, and the number
    /// of finished elements that stood before it was opened.
    pub closed spec fn parents(&self) -> Seq<(u16, nat)> {
        builder_parents(self.inner)
    }

    /// The text of all tokens added so far.
    pub open spec fn text(&self) -> Seq<u8> {
        elems_text(self.children())
    }

    /// The open nodes fit the finished elements, and the text can be
    /// counted in 32 bits.
    pub open spec fn wf(&self) -> bool {
        &&& stack_ok(self.children(), self.parents())
        &&& self.text().len() <= u32::MAX
    }

    /// A builder with nothing in it.
    pub fn new() -> (r: Self)
        ensures
            r.wf(),
            r.children() == Seq::<Elem>::empty(),
            r.parents() == Seq::<(u16, nat)>::empty(),
            r.text() == Seq::<u8>::empty(),
    {
        TreeBuilder { inner: builder_new() }
    }

    /// Adds a token.
    pub fn token(&mut self, kind: u16, text: &str)
        requires
            old(self).wf(),
            old(self).text().len() + text.spec_bytes().len() <= u32::MAX,
        ensures
            final(self).wf(),
            final(self).children() == old(self).children().push(
                Elem::Token(kind, text.spec_bytes()),
            ),
            final(self).parents() == old(self).parents(),
            final(self).text() == old(self).text() + text.spec_bytes(),
    {
        proof {
            lemma_elems_text_push(self.children(), Elem::Token(kind, text.spec_bytes()));
        }
        builder_token(&mut self.inner, kind, text);
    }

    /// Opens a node behind the finished elements.
    pub fn start_node(&mut self, kind: u16)
        requires
            old(self).wf(),
        ensures
            final(self).wf(),
            final(self).children() == old(self).children(),
            final(self).parents() == old(self).parents().push(
                (kind, old(self).children().len()),
            ),
    {
        builder_start_node(&mut self.inner, kind);
    }

    /// A mark behind the finished elements.
    pub fn checkpoint(&self) -> (c: rowan::Checkpoint)
        requires
            self.wf(),
        ensures
            checkpoint_index(c) == self.children().len(),
            self.parents().len() > 0 ==> self.parents().last().1 <= checkpoint_index(c),
    {
        builder_checkpoint(&self.inner)
    }

    /// Opens a node at a mark, around the elements finished since then.
    pub fn start_node_at(&mut self, checkpoint: rowan::Checkpoint, kind: u16)
        requires
            old(self).wf(),
            checkpoint_index(checkpoint) <= old(self).children().len(),
            old(self).parents().len() > 0 ==> old(self).parents().last().1 <= checkpoint_index(
                checkpoint,
            ),
        ensures
            final(self).wf(),
            final(self).children() == old(self).children(),
            final(self).parents() == old(self).parents().push(
                (kind, checkpoint_index(checkpoint)),
            ),
    {
        builder_start_node_at(&mut self.inner, checkpoint, kind);
    }

    /// Closes the innermost open node: the elements finished since it was
    /// opened become its children.
    pub fn finish_node(&mut self)
        requires
            old(self).wf(),
            old(self).parents().len() > 0,
        ensures
            final(self).wf(),
            final(self).parents() == old(self).parents().drop_last(),
            final(self).children() == old(self).children().subrange(
                0,
                old(self).parents().last().1 as int,
            ).push(
                Elem::Node(
                    Tree {
                        kind: old(self).parents().last().0,
                        children: old(self).children().subrange(
                            old(self).parents().last().1 as int,
                            old(self).children().len() as int,
                        ),
                    },
                ),
            ),
            final(self).children().len() == old(self).parents().last().1 + 1,
            final(self).text() == old(self).text(),
    {
        proof {
            let parents = self.parents();
            assert(parents[parents.len() - 1].1 <= self.children().len());
            lemma_elems_text_wrap(self.children(), parents.last().1 as int, parents.last().0);
            assert forall|i: int| 0 <= i < parents.drop_last().len() implies (
            #[trigger] parents.drop_last()[i]).1 <= parents.last().1 + 1 by {
                assert(parents[i].1 <= parents[parents.len() - 1].1);
            }
        }
        builder_finish_node(&mut self.inner);
    }

    /// The tree, once all nodes are closed around one root.
    pub fn finish(self) -> (node: rowan::GreenNode)
        requires
            self.children().len() == 1,
            self.children()[0] is Node,
        ensures
            Elem::Node(node_tree(node)) == self.children()[0],
            node_tree(node).text() == self.text(),
    {
        proof {
            let only = self.children();
            assert(only.drop_last() =~= Seq::<Elem>::empty());
            assert(elems_text(only.drop_last()) =~= Seq::<u8>::empty());
            assert(elems_text(only) =~= elem_text(only[0]));
        }
        builder_finish(self.inner)
    }
}

} // verus!
