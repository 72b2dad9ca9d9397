//! Where things stand in a series file: the range of bytes of a patch, and
//! the ranges of the tokens that the lexer could not read.
use crate::edit::green::{elem_text, elems_text, lemma_elems_text_append, Elem};
use crate::edit::quilt::editor::{patch_slot, slot_of_patch};
use crate::edit::quilt::lex::SyntaxKind;
use crate::edit::quilt::lossless::SeriesFile;
use crate::edit::syntax::{elements_view, SyntaxElement, SyntaxNode};
use crate::parse::{AstNode, PositionedParseError, TextRange};
use vstd::prelude::*;
use vstd::string::StringExecFns;

verus! {

/// The index at or behind `from` of the first element that is a node of
/// kind `kind`; the number of elements where there is none.
pub open spec fn node_index(children: Seq<Elem>, kind: u16, from: int) -> int
    decreases children.len() - from,
{
    if from < 0 || from >= children.len() {
        children.len() as int
    } else if children[from] is Node && children[from]->Node_0.kind == kind {
        from
    } else {
        node_index(children, kind, from + 1)
    }
}

/// The range of bytes of patch number `position` of a series, counted
/// from 0: the patch entry without the blanks before it; nothing where the
/// series has fewer patches.
pub open spec fn patch_range(children: Seq<Elem>, position: int) -> Option<(nat, nat)> {
    let slot = patch_slot(children, position, 0);
    if 0 <= slot < children.len() && children[slot] is Node {
        let inside = children[slot]->Node_0.children;
        let at = node_index(inside, SyntaxKind::PATCH_ENTRY.raw(), 0);
        if at < inside.len() {
            let start = elems_text(children.subrange(0, slot)).len() + elems_text(
                inside.subrange(0, at),
            ).len();
            Some((start, start + elem_text(inside[at]).len()))
        } else {
            None
        }
    } else {
        None
    }
}

/// The elements up to an index hold no more text than all elements, and
/// an element at an index comes behind them within that text.
pub proof fn lemma_text_within(children: Seq<Elem>, at: int)
    requires
        0 <= at <= children.len(),
    ensures
        elems_text(children.subrange(0, at)).len() <= elems_text(children).len(),
        at < children.len() ==> elems_text(children.subrange(0, at)).len() + elem_text(
            children[at],
        ).len() <= elems_text(children).len(),
{
    let head = children.subrange(0, at);
    let tail = children.subrange(at, children.len() as int);
    lemma_elems_text_append(head, tail);
    assert(head + tail =~= children);
    if at < children.len() {
        let one = seq![children[at]];
        let rest = children.subrange(at + 1, children.len() as int);
        lemma_elems_text_append(one, rest);
        assert(one + rest =~= tail);
        assert(one.drop_last() =~= Seq::<Elem>::empty());
        assert(elems_text(one.drop_last()) =~= Seq::<u8>::empty());
        assert(elems_text(one) =~= elem_text(children[at]));
    }
}

/// The length of the text of an element.
fn element_len(element: &SyntaxElement) -> (r: usize)
    ensures
        r == elem_text(element@).len(),
{
    match element {
        SyntaxElement::Token(token) => token.text().as_bytes().len(),
        SyntaxElement::Node(node) => node.text().as_str().as_bytes().len(),
    }
}

/// The length of the text of the first `n` elements.
fn text_len_before(elements: &Vec<SyntaxElement>, n: usize) -> (r: usize)
    requires
        n <= elements@.len(),
        elems_text(elements_view(elements@)).len() <= u32::MAX,
    ensures
        r == elems_text(elements_view(elements@).subrange(0, n as int)).len(),
        r <= elems_text(elements_view(elements@)).len(),
{
    let ghost views = elements_view(elements@);
    let mut total: usize = 0;
    let mut i: usize = 0;
    assert(elems_text(views.subrange(0, 0)) =~= Seq::<u8>::empty());
    while i < n
        invariant
            i <= n <= elements@.len(),
            views == elements_view(elements@),
            elems_text(views).len() <= u32::MAX,
            total == elems_text(views.subrange(0, i as int)).len(),
        decreases n - i,
    {
        proof {
            lemma_text_within(views, i as int);
            assert(views.subrange(0, i + 1).drop_last() =~= views.subrange(0, i as int));
            assert(views.subrange(0, i + 1).last() == views[i as int]);
            assert(views[i as int] == elements@[i as int]@);
        }
        total = total + element_len(&elements[i]);
        i += 1;
    }
    proof {
        lemma_text_within(views, n as int);
    }
    total
}

/// Get the line range for the patch entry at a position, counted over the
/// patches of the series from 0
pub fn get_patch_line_range(series: &SeriesFile, position: usize) -> (r: Option<TextRange>)
    requires
        series.tree().text().len() <= u32::MAX,
    ensures
        match patch_range(series.tree().children, position as int) {
            Some((start, end)) => r == Some(TextRange { start: start as u32, end: end as u32 })
                && start <= end <= u32::MAX,
            None => r is None,
        },
{
    let elements = series.syntax().children_with_tokens();
    let ghost children = elements_view(elements@);
    let slot = slot_of_patch(&elements, position);
    if slot >= elements.len() {
        return None;
    }
    assert(children[slot as int] == elements@[slot as int]@);
    let entry = match &elements[slot] {
        SyntaxElement::Node(node) => node,
        SyntaxElement::Token(_) => {
            return None;
        },
    };
    let inside = entry.children_with_tokens();
    let ghost within = elements_view(inside@);
    let mut at: usize = 0;
    while at < inside.len()
        invariant
            at <= inside.len(),
            within == elements_view(inside@),
            node_index(within, SyntaxKind::PATCH_ENTRY.raw(), 0) == node_index(
                within,
                SyntaxKind::PATCH_ENTRY.raw(),
                at as int,
            ),
        ensures
            at <= inside.len(),
            at == node_index(within, SyntaxKind::PATCH_ENTRY.raw(), 0),
        decreases inside.len() - at,
    {
        assert(within[at as int] == inside@[at as int]@);
        let found = match &inside[at] {
            SyntaxElement::Node(node) => node.kind_raw() == SyntaxKind::PATCH_ENTRY.to_raw(),
            SyntaxElement::Token(_) => false,
        };
        if found {
            break ;
        }
        at += 1;
    }
    if at >= inside.len() {
        return None;
    }
    proof {
        lemma_text_within(children, slot as int);
        lemma_text_within(within, at as int);
        assert(within[at as int] == inside@[at as int]@);
        assert(elem_text(children[slot as int]) == elems_text(within));
    }
    let before = text_len_before(&elements, slot);
    let lead = text_len_before(&inside, at);
    let len = element_len(&inside[at]);
    let start = before + lead;
    let end = start + len;
    Some(TextRange { start: start as u32, end: end as u32 })
}

/// The ranges of the `ERROR` tokens of an element that starts at byte
/// `offset`, in the order of the text.
pub open spec fn elem_errors(e: Elem, offset: nat) -> Seq<(nat, nat)>
    decreases e, 0nat,
{
    match e {
        Elem::Token(kind, text) => if kind == SyntaxKind::ERROR.raw() {
            seq![(offset, offset + text.len())]
        } else {
            Seq::empty()
        },
        Elem::Node(tree) => elems_errors(tree.children, offset),
    }
}

/// The ranges of the `ERROR` tokens of elements that start at byte
/// `offset`, in the order of the text.
pub open spec fn elems_errors(es: Seq<Elem>, offset: nat) -> Seq<(nat, nat)>
    decreases es, 1nat,
{
    if es.len() == 0 {
        Seq::empty()
    } else {
        elems_errors(es.drop_last(), offset) + elem_errors(
            es.last(),
            offset + elems_text(es.drop_last()).len(),
        )
    }
}

/// An error as a mathematical value: its message and its range.
pub open spec fn error_view(e: PositionedParseError) -> (Seq<char>, (nat, nat)) {
    (e.message@, (e.position.start as nat, e.position.end as nat))
}

/// The views of a sequence of errors.
pub open spec fn error_views(errors: Seq<PositionedParseError>) -> Seq<(Seq<char>, (nat, nat))> {
    errors.map_values(|e: PositionedParseError| error_view(e))
}

/// The errors that report the tokens at the given ranges.
pub open spec fn invalid_tokens(ranges: Seq<(nat, nat)>) -> Seq<(Seq<char>, (nat, nat))> {
    ranges.map_values(|r: (nat, nat)| ("Invalid token"@, r))
}

/// Appends an error for every `ERROR` token below `node`, which starts at
/// byte `offset`.
fn collect_errors(node: &SyntaxNode, offset: usize, out: &mut Vec<PositionedParseError>)
    requires
        offset + node@.text().len() <= u32::MAX,
    ensures
        error_views(final(out)@) == error_views(old(out)@) + invalid_tokens(
            elems_errors(node@.children, offset as nat),
        ),
    decreases node@,
{
    let elements = node.children_with_tokens();
    let ghost views = elements_view(elements@);
    let ghost start = error_views(out@);
    let mut at: usize = offset;
    let mut i: usize = 0;
    proof {
        assert(views.subrange(0, 0) =~= Seq::<Elem>::empty());
        assert(elems_text(views.subrange(0, 0)) =~= Seq::<u8>::empty());
        assert(start + invalid_tokens(elems_errors(views.subrange(0, 0), offset as nat))
            =~= start);
    }
    while i < elements.len()
        invariant
            i <= elements.len(),
            views == elements_view(elements@),
            views == node@.children,
            offset + elems_text(views).len() <= u32::MAX,
            at == offset + elems_text(views.subrange(0, i as int)).len(),
            error_views(out@) == start + invalid_tokens(
                elems_errors(views.subrange(0, i as int), offset as nat),
            ),
        decreases elements.len() - i,
    {
        let ghost before = out@;
        let ghost done = elems_errors(views.subrange(0, i as int), offset as nat);
        proof {
            lemma_text_within(views, i as int);
            assert(views.subrange(0, i + 1).drop_last() =~= views.subrange(0, i as int));
            assert(views.subrange(0, i + 1).last() == views[i as int]);
            assert(views[i as int] == elements@[i as int]@);
            assert(elems_errors(views.subrange(0, i + 1), offset as nat) == done + elem_errors(
                views[i as int],
                at as nat,
            ));
        }
        let len = element_len(&elements[i]);
        match &elements[i] {
            SyntaxElement::Token(token) => {
                if token.kind_raw() == SyntaxKind::ERROR.to_raw() {
                    let error = PositionedParseError {
                        message: String::from_str("Invalid token"),
                        position: TextRange { start: at as u32, end: (at + len) as u32 },
                    };
                    out.push(error);
                    proof {
                        let range = (at as nat, (at + len) as nat);
                        assert(elem_errors(views[i as int], at as nat) =~= seq![range]);
                        assert(error_views(out@) =~= error_views(before).push(error_view(error)));
                        assert(invalid_tokens(done + seq![range]) =~= invalid_tokens(done).push(
                            ("Invalid token"@, range),
                        ));
                        assert(start + invalid_tokens(done).push(("Invalid token"@, range)) =~= (
                        start + invalid_tokens(done)).push(("Invalid token"@, range)));
                    }
                } else {
                    assert(elem_errors(views[i as int], at as nat) =~= Seq::<(nat, nat)>::empty());
                    assert(done + Seq::<(nat, nat)>::empty() =~= done);
                }
            },
            SyntaxElement::Node(child) => {
                assert(node@.children[i as int] == Elem::Node(child@));
                collect_errors(child, at, out);
                proof {
                    let more = elems_errors(child@.children, at as nat);
                    assert(elem_errors(views[i as int], at as nat) == more);
                    assert(invalid_tokens(done + more) =~= invalid_tokens(done) + invalid_tokens(
                        more,
                    ));
                    assert(start + invalid_tokens(done) + invalid_tokens(more) =~= start + (
                    invalid_tokens(done) + invalid_tokens(more)));
                }
            },
        }
        at = at + len;
        i += 1;
    }
    assert(views.subrange(0, views.len() as int) =~= views);
}

impl SeriesFile {
    /// Get parse errors from the syntax tree
    ///
    /// There is an error for every `ERROR` token of the tree, with the
    /// range of the token, in the order of the text.
    pub fn errors(&self) -> (r: Vec<PositionedParseError>)
        requires
            self.tree().text().len() <= u32::MAX,
        ensures
            error_views(r@) == invalid_tokens(elems_errors(self.tree().children, 0)),
    {
        let mut errors: Vec<PositionedParseError> = Vec::new();
        proof {
            assert(error_views(errors@) =~= Seq::empty());
            assert(Seq::<(Seq<char>, (nat, nat))>::empty() + invalid_tokens(
                elems_errors(self.tree().children, 0),
            ) =~= invalid_tokens(elems_errors(self.tree().children, 0)));
        }
        collect_errors(self.syntax(), 0, &mut errors);
        errors
    }
}

} // verus!
