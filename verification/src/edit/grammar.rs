//! The grammar of patch files: the tree that the tokens of a patch file
//! make.
//!
//! Every function here says what one rule of the grammar makes of the
//! tokens from an index on: the elements that it adds to the node that is
//! open, and the index of the first token that it leaves.
use crate::bytes::has_prefix;
use crate::edit::builder::{chain, no_step, Step};
use crate::edit::green::{Elem, Tree};
use crate::edit::kind::SyntaxKind;
use crate::edit::lossless::DiffFormat;
use crate::edit::parse::{
    at_marker, ed_command_spec, hunk_end_spec, hunk_separator_spec, is_command_letter, kind_at,
    lemma_run_end, normal_diff_spec, peek_spec, run_end, section_end_spec, section_header_spec,
    text_between, Class, ATS, DASHES, PLUSES, STARS,
};
use vstd::prelude::*;

verus! {

/// Token `i` as an element of the tree.
pub open spec fn token_elem(tokens: Seq<(SyntaxKind, Seq<u8>)>, i: int) -> Elem {
    Elem::Token(tokens[i].0.raw(), tokens[i].1)
}

/// The tokens from index `from` up to index `to` as elements of the tree.
#[verifier::opaque]
pub open spec fn span(tokens: Seq<(SyntaxKind, Seq<u8>)>, from: int, to: int) -> Seq<Elem> {
    if to <= from {
        Seq::empty()
    } else {
        Seq::new((to - from) as nat, |k: int| token_elem(tokens, from + k))
    }
}

/// Two spans that meet make one.
pub proof fn lemma_span_join(tokens: Seq<(SyntaxKind, Seq<u8>)>, i: int, j: int, k: int)
    requires
        i <= j <= k,
    ensures
        span(tokens, i, j) + span(tokens, j, k) == span(tokens, i, k),
{
    reveal(span);
    assert(span(tokens, i, j) + span(tokens, j, k) =~= span(tokens, i, k));
}

/// A span that goes on where a span behind some elements ends extends
/// that span.
pub proof fn lemma_span_extend(
    front: Seq<Elem>,
    tokens: Seq<(SyntaxKind, Seq<u8>)>,
    i: int,
    j: int,
    k: int,
)
    requires
        i <= j <= k,
    ensures
        front + span(tokens, i, j) + span(tokens, j, k) == front + span(tokens, i, k),
{
    lemma_span_join(tokens, i, j, k);
    assert(front + span(tokens, i, j) + span(tokens, j, k) =~= front + (span(tokens, i, j) + span(
        tokens,
        j,
        k,
    )));
}

/// Elements added one group after another are the groups put together,
/// added at once.
pub proof fn lemma_groups(front: Seq<Elem>, a: Seq<Elem>, b: Seq<Elem>, c: Seq<Elem>, d: Seq<Elem>)
    ensures
        front + Seq::<Elem>::empty() == front,
        Seq::<Elem>::empty() + a == a,
        front + a + b == front + (a + b),
        front + a + b + c == front + (a + b + c),
        front + a + b + c + d == front + (a + b + c + d),
{
    assert(front + Seq::<Elem>::empty() =~= front);
    assert(Seq::<Elem>::empty() + a =~= a);
    assert(front + a + b =~= front + (a + b));
    assert(front + a + b + c =~= front + (a + b + c));
    assert(front + a + b + c + d =~= front + (a + b + c + d));
}

/// A span from an index up to the same index is empty, and one up to the
/// next index holds one token.
pub proof fn lemma_span_short(tokens: Seq<(SyntaxKind, Seq<u8>)>, i: int)
    ensures
        span(tokens, i, i) == Seq::<Elem>::empty(),
        span(tokens, i, i + 1) == seq![token_elem(tokens, i)],
{
    reveal(span);
    assert(span(tokens, i, i + 1) =~= seq![token_elem(tokens, i)]);
}

/// The step that leaves the tokens from index `i` up to index `end` as
/// they are.
pub open spec fn plain(tokens: Seq<(SyntaxKind, Seq<u8>)>, i: int, end: int) -> Step {
    Step { elems: span(tokens, i, end), end }
}

/// The index `n` tokens behind index `i`, or the end of the tokens if
/// fewer are left.
pub open spec fn ahead(tokens: Seq<(SyntaxKind, Seq<u8>)>, i: int, n: int) -> int {
    if i + n <= tokens.len() {
        i + n
    } else {
        tokens.len() as int
    }
}

/// A node of kind `kind` with the children `children`.
pub open spec fn node(kind: SyntaxKind, children: Seq<Elem>) -> Elem {
    Elem::Node(Tree { kind: kind.raw(), children })
}

/// The step that puts `children` into a node of kind `kind` and ends at
/// `end`.
pub open spec fn wrapped(kind: SyntaxKind, children: Seq<Elem>, end: int) -> Step {
    Step { elems: seq![node(kind, children)], end }
}

/// The index behind the line that token `i` stands in: behind its
/// `NEWLINE`, or at the end of the tokens.
pub open spec fn line_end(tokens: Seq<(SyntaxKind, Seq<u8>)>, i: int) -> int {
    let end = run_end(tokens, i, Class::InLine);
    if kind_at(tokens, end) == Some(SyntaxKind::NEWLINE) {
        end + 1
    } else {
        end
    }
}

/// A line ends behind its start, unless no token is left.
pub proof fn lemma_line_end(tokens: Seq<(SyntaxKind, Seq<u8>)>, i: int)
    requires
        0 <= i <= tokens.len(),
    ensures
        i <= line_end(tokens, i) <= tokens.len(),
        i < tokens.len() ==> i < line_end(tokens, i),
{
    lemma_run_end(tokens, i, Class::InLine);
    if i < tokens.len() {
        lemma_run_end(tokens, i + 1, Class::InLine);
    }
}

/// The tokens of a run belong to its class.
pub proof fn lemma_run_holds(tokens: Seq<(SyntaxKind, Seq<u8>)>, i: int, class: Class, k: int)
    requires
        0 <= i <= k < run_end(tokens, i, class),
    ensures
        k < tokens.len(),
        class.holds(tokens[k].0),
    decreases k - i,
{
    if i < k {
        lemma_run_holds(tokens, i + 1, class, k);
    }
}

/// A line ends where it ends from any token further on that no `NEWLINE`
/// stands before.
pub proof fn lemma_line_end_from(tokens: Seq<(SyntaxKind, Seq<u8>)>, i: int, j: int)
    requires
        0 <= i <= j <= tokens.len(),
        forall|k: int| i <= k < j ==> (#[trigger] tokens[k]).0 != SyntaxKind::NEWLINE,
    ensures
        line_end(tokens, i) == line_end(tokens, j),
    decreases j - i,
{
    if i < j {
        lemma_line_end_from(tokens, i + 1, j);
        assert(tokens[i].0 != SyntaxKind::NEWLINE);
    }
}

/// A line ends where it ends from behind a run of tokens of a class that
/// does not hold `NEWLINE`.
pub proof fn lemma_line_end_run(tokens: Seq<(SyntaxKind, Seq<u8>)>, i: int, class: Class)
    requires
        0 <= i <= tokens.len(),
        !class.holds(SyntaxKind::NEWLINE),
    ensures
        line_end(tokens, i) == line_end(tokens, run_end(tokens, i, class)),
{
    lemma_run_end(tokens, i, class);
    let j = run_end(tokens, i, class);
    assert forall|k: int| i <= k < j implies (#[trigger] tokens[k]).0 != SyntaxKind::NEWLINE by {
        lemma_run_holds(tokens, i, class, k);
    }
    lemma_line_end_from(tokens, i, j);
}

/// The path of a header: the run of tokens of class `class` from token
/// `i` on becomes one `PATH` token, if the run is not empty.
pub open spec fn path_step(tokens: Seq<(SyntaxKind, Seq<u8>)>, i: int, class: Class) -> Step {
    let end = run_end(tokens, i, class);
    if end > i {
        Step {
            elems: seq![Elem::Token(SyntaxKind::PATH.raw(), text_between(tokens, i, end))],
            end,
        }
    } else {
        no_step(i)
    }
}

/// A header line in a node of kind `kind`: three tokens of the marker,
/// blanks, the path, and the rest of the line.
pub open spec fn header_step(
    tokens: Seq<(SyntaxKind, Seq<u8>)>,
    i: int,
    kind: SyntaxKind,
    class: Class,
) -> Step {
    let blanks = run_end(tokens, ahead(tokens, i, 3), Class::Blank);
    let path = path_step(tokens, blanks, class);
    let end = line_end(tokens, path.end);
    wrapped(kind, span(tokens, i, blanks) + path.elems + span(tokens, path.end, end), end)
}

/// The index behind a range that starts at token `i`: behind the sign, a
/// number, and a comma with a number.
pub open spec fn range_end(tokens: Seq<(SyntaxKind, Seq<u8>)>, i: int) -> int {
    let sign = ahead(tokens, i, 1);
    let first = if kind_at(tokens, sign) == Some(SyntaxKind::NUMBER) {
        sign + 1
    } else {
        sign
    };
    if kind_at(tokens, first) != Some(SyntaxKind::COMMA) {
        first
    } else if kind_at(tokens, first + 1) == Some(SyntaxKind::NUMBER) {
        first + 2
    } else {
        first + 1
    }
}

/// A range in a node of its own.
pub open spec fn range_step(tokens: Seq<(SyntaxKind, Seq<u8>)>, i: int) -> Step {
    wrapped(SyntaxKind::HUNK_RANGE, span(tokens, i, range_end(tokens, i)), range_end(tokens, i))
}

/// A range, if token `i` is of kind `sign`, behind the blanks before it.
pub open spec fn signed_range_step(
    tokens: Seq<(SyntaxKind, Seq<u8>)>,
    i: int,
    sign: SyntaxKind,
) -> Step {
    let blanks = run_end(tokens, i, Class::Blank);
    if kind_at(tokens, blanks) == Some(sign) {
        Step {
            elems: span(tokens, i, blanks) + range_step(tokens, blanks).elems,
            end: range_end(tokens, blanks),
        }
    } else {
        Step { elems: span(tokens, i, blanks), end: blanks }
    }
}

/// The index behind what closes the header of a hunk: behind blanks, two
/// tokens of a marker if an `AT` token starts it, and the rest of the line.
pub open spec fn closing_end(tokens: Seq<(SyntaxKind, Seq<u8>)>, i: int) -> int {
    let blanks = run_end(tokens, i, Class::Blank);
    let closed = if kind_at(tokens, blanks) == Some(SyntaxKind::AT) {
        ahead(tokens, blanks, 2)
    } else {
        blanks
    };
    line_end(tokens, closed)
}

/// The header of a hunk of a unified diff: two tokens of the marker, the
/// two ranges with their signs as far as they are there, two tokens of the
/// closing marker if an `AT` token starts it, and the rest of the line.
pub open spec fn hunk_header_step(tokens: Seq<(SyntaxKind, Seq<u8>)>, i: int) -> Step {
    let old_range = signed_range_step(tokens, ahead(tokens, i, 2), SyntaxKind::MINUS);
    let new_range = signed_range_step(tokens, old_range.end, SyntaxKind::PLUS);
    let end = closing_end(tokens, new_range.end);
    wrapped(
        SyntaxKind::HUNK_HEADER,
        span(tokens, i, ahead(tokens, i, 2)) + old_range.elems + new_range.elems + span(
            tokens,
            new_range.end,
            end,
        ),
        end,
    )
}

/// The kind of the node of a line that starts with a token of kind
/// `first`. An exclamation mark makes a line of its own kind in a context
/// diff only.
pub open spec fn line_kind(first: Option<SyntaxKind>, context_diff: bool) -> SyntaxKind {
    if first == Some(SyntaxKind::PLUS) {
        SyntaxKind::ADD_LINE
    } else if first == Some(SyntaxKind::MINUS) {
        SyntaxKind::DELETE_LINE
    } else if first == Some(SyntaxKind::EXCLAMATION) && context_diff {
        SyntaxKind::CONTEXT_CHANGE_LINE
    } else {
        SyntaxKind::CONTEXT_LINE
    }
}

/// A line of a hunk in a node of its kind.
pub open spec fn line_step(tokens: Seq<(SyntaxKind, Seq<u8>)>, i: int, context_diff: bool) -> Step {
    wrapped(
        line_kind(kind_at(tokens, i), context_diff),
        span(tokens, i, line_end(tokens, i)),
        line_end(tokens, i),
    )
}

/// Where the lines of a hunk end: at the end of the tokens, and in a
/// context diff where a section ends, in a unified diff where a hunk ends.
pub open spec fn lines_stop(tokens: Seq<(SyntaxKind, Seq<u8>)>, i: int, context_diff: bool) -> bool {
    i < 0 || i >= tokens.len() || if context_diff {
        section_end_spec(tokens, i)
    } else {
        hunk_end_spec(tokens, i)
    }
}

/// The lines of a hunk from token `i` on.
pub open spec fn lines_step(tokens: Seq<(SyntaxKind, Seq<u8>)>, i: int, context_diff: bool) -> Step
    decreases tokens.len() - i,
{
    if lines_stop(tokens, i, context_diff) {
        no_step(i)
    } else {
        proof {
            lemma_line_end(tokens, i);
        }
        chain(
            line_step(tokens, i, context_diff),
            lines_step(tokens, line_end(tokens, i), context_diff),
        )
    }
}

/// The index behind the lines from token `i` on that stand before the
/// next hunk or file.
pub open spec fn skipped_end(tokens: Seq<(SyntaxKind, Seq<u8>)>, i: int) -> int
    decreases tokens.len() - i,
{
    if lines_stop(tokens, i, false) {
        i
    } else {
        proof {
            lemma_line_end(tokens, i);
        }
        skipped_end(tokens, line_end(tokens, i))
    }
}

/// Whether the header of a hunk at token `i` has a range: behind two
/// tokens and blanks stand a sign and a number.
pub open spec fn has_range(tokens: Seq<(SyntaxKind, Seq<u8>)>, i: int) -> bool {
    let sign = run_end(tokens, i + 2, Class::Blank);
    &&& i + 2 <= tokens.len()
    &&& kind_at(tokens, sign) == Some(SyntaxKind::MINUS) || kind_at(tokens, sign) == Some(
        SyntaxKind::PLUS,
    )
    &&& kind_at(tokens, sign + 1) == Some(SyntaxKind::NUMBER)
}

/// A hunk of a unified diff: its header and its lines in a node. A header
/// without a range makes no hunk: its line and the lines up to the next hunk
/// or file are kept in an `ERROR` node.
pub open spec fn hunk_step(tokens: Seq<(SyntaxKind, Seq<u8>)>, i: int) -> Step {
    if has_range(tokens, i) {
        let header = hunk_header_step(tokens, i);
        let lines = lines_step(tokens, header.end, false);
        wrapped(SyntaxKind::HUNK, header.elems + lines.elems, lines.end)
    } else {
                let end = skipped_end(tokens, line_end(tokens, i));
        wrapped(SyntaxKind::ERROR, span(tokens, i, end), end)
    }
}

/// The steps of this grammar end within the tokens, at or behind their
/// start.
pub open spec fn within(tokens: Seq<(SyntaxKind, Seq<u8>)>, i: int, end: int) -> bool {
    i <= end <= tokens.len()
}

/// As `within`, and the step reads a token if one is left.
pub open spec fn moves(tokens: Seq<(SyntaxKind, Seq<u8>)>, i: int, end: int) -> bool {
    within(tokens, i, end) && (i < tokens.len() ==> i < end)
}

/// Where the steps of a line, a header and a range end.
pub proof fn lemma_line_steps(tokens: Seq<(SyntaxKind, Seq<u8>)>, i: int)
    requires
        0 <= i <= tokens.len(),
    ensures
        forall|kind: SyntaxKind, class: Class|
            moves(tokens, i, #[trigger] header_step(tokens, i, kind, class).end),
        moves(tokens, i, range_end(tokens, i)),
        forall|sign: SyntaxKind| within(tokens, i, #[trigger] signed_range_step(tokens, i, sign).end),
        moves(tokens, i, hunk_header_step(tokens, i).end),
{
    assert forall|kind: SyntaxKind, class: Class|
        moves(tokens, i, #[trigger] header_step(tokens, i, kind, class).end) by {
        let blanks = run_end(tokens, ahead(tokens, i, 3), Class::Blank);
        lemma_run_end(tokens, ahead(tokens, i, 3), Class::Blank);
        lemma_run_end(tokens, blanks, class);
        lemma_line_end(tokens, path_step(tokens, blanks, class).end);
    }
    lemma_run_end(tokens, i, Class::Blank);
    let a = ahead(tokens, i, 2);
    lemma_run_end(tokens, a, Class::Blank);
    let o = signed_range_step(tokens, a, SyntaxKind::MINUS);
    lemma_run_end(tokens, o.end, Class::Blank);
    let n = signed_range_step(tokens, o.end, SyntaxKind::PLUS);
    lemma_run_end(tokens, n.end, Class::Blank);
    let blanks = run_end(tokens, n.end, Class::Blank);
    lemma_line_end(tokens, blanks);
    lemma_line_end(tokens, ahead(tokens, blanks, 2));
}

/// Where the lines of a hunk end.
pub proof fn lemma_lines(tokens: Seq<(SyntaxKind, Seq<u8>)>, i: int, context_diff: bool)
    requires
        0 <= i <= tokens.len(),
    ensures
        within(tokens, i, lines_step(tokens, i, context_diff).end),
        within(tokens, i, skipped_end(tokens, i)),
        lines_stop(tokens, lines_step(tokens, i, context_diff).end, context_diff),
        lines_stop(tokens, skipped_end(tokens, i), false),
    decreases tokens.len() - i,
{
    lemma_line_end(tokens, i);
    if i < tokens.len() {
        lemma_lines(tokens, line_end(tokens, i), context_diff);
    }
}

/// A hunk reads a token if one is left.
pub proof fn lemma_hunk(tokens: Seq<(SyntaxKind, Seq<u8>)>, i: int)
    requires
        0 <= i <= tokens.len(),
    ensures
        moves(tokens, i, hunk_step(tokens, i).end),
{
    lemma_line_steps(tokens, i);
    lemma_line_end(tokens, i);
    lemma_lines(tokens, hunk_header_step(tokens, i).end, false);
    lemma_lines(tokens, line_end(tokens, i), false);
}

/// The hunks of a file of a unified diff: one for every `@@` at the start
/// of what is left.
pub open spec fn hunks_step(tokens: Seq<(SyntaxKind, Seq<u8>)>, i: int) -> Step
    decreases tokens.len() - i,
{
    if 0 <= i && at_marker(tokens, i, SyntaxKind::AT, ATS@) {
        proof {
            lemma_hunk(tokens, i);
        }
        chain(hunk_step(tokens, i), hunks_step(tokens, hunk_step(tokens, i).end))
    } else {
        no_step(i)
    }
}

/// The header at token `i`, if the marker `marker` starts there.
pub open spec fn marked_header_step(
    tokens: Seq<(SyntaxKind, Seq<u8>)>,
    i: int,
    first: SyntaxKind,
    marker: Seq<u8>,
    kind: SyntaxKind,
    class: Class,
) -> Step {
    if at_marker(tokens, i, first, marker) {
        header_step(tokens, i, kind, class)
    } else {
        no_step(i)
    }
}

/// The patch of one file of a unified diff in a node: the header of the
/// old file and that of the new file, as far as they are there, and the
/// hunks.
pub open spec fn patch_file_step(tokens: Seq<(SyntaxKind, Seq<u8>)>, i: int) -> Step {
    let old_file = marked_header_step(
        tokens,
        i,
        SyntaxKind::MINUS,
        DASHES@,
        SyntaxKind::OLD_FILE,
        Class::Path,
    );
    let new_file = marked_header_step(
        tokens,
        old_file.end,
        SyntaxKind::PLUS,
        PLUSES@,
        SyntaxKind::NEW_FILE,
        Class::Path,
    );
    let hunks = hunks_step(tokens, new_file.end);
    wrapped(SyntaxKind::PATCH_FILE, old_file.elems + new_file.elems + hunks.elems, hunks.end)
}

/// A section of a context hunk in a node of kind `kind`: three tokens of
/// the marker, blanks, the range, the rest of the line, and the lines of the
/// section.
pub open spec fn section_step(tokens: Seq<(SyntaxKind, Seq<u8>)>, i: int, kind: SyntaxKind) -> Step {
    let blanks = run_end(tokens, ahead(tokens, i, 3), Class::Blank);
    let range = range_step(tokens, blanks);
    let head = line_end(tokens, range.end);
    let lines = lines_step(tokens, head, true);
    wrapped(
        kind,
        span(tokens, i, blanks) + range.elems + span(tokens, range.end, head) + lines.elems,
        lines.end,
    )
}

/// The two sections of a context hunk, as far as they are there: the old
/// one behind `***`, the new one behind `---`.
pub open spec fn sections_step(tokens: Seq<(SyntaxKind, Seq<u8>)>, i: int) -> Step {
    let old_section = if at_marker(tokens, i, SyntaxKind::STAR, STARS@) {
        section_step(tokens, i, SyntaxKind::CONTEXT_OLD_SECTION)
    } else {
        no_step(i)
    };
    let new_section = if at_marker(tokens, old_section.end, SyntaxKind::MINUS, DASHES@) {
        section_step(tokens, old_section.end, SyntaxKind::CONTEXT_NEW_SECTION)
    } else {
        no_step(old_section.end)
    };
    chain(old_section, new_section)
}

/// A context hunk in a node: the line of stars in a node of its own, and
/// the two sections.
pub open spec fn context_hunk_step(tokens: Seq<(SyntaxKind, Seq<u8>)>, i: int) -> Step {
    let head = line_end(tokens, run_end(tokens, i, Class::Star));
    let sections = sections_step(tokens, head);
    wrapped(
        SyntaxKind::CONTEXT_HUNK,
        seq![node(SyntaxKind::CONTEXT_HUNK_HEADER, span(tokens, i, head))] + sections.elems,
        sections.end,
    )
}

/// A context hunk that no line of stars introduces.
pub open spec fn bare_context_hunk_step(tokens: Seq<(SyntaxKind, Seq<u8>)>, i: int) -> Step {
    let sections = sections_step(tokens, i);
    wrapped(SyntaxKind::CONTEXT_HUNK, sections.elems, sections.end)
}

/// Where the steps of a context hunk end.
pub proof fn lemma_context_steps(tokens: Seq<(SyntaxKind, Seq<u8>)>, i: int)
    requires
        0 <= i <= tokens.len(),
    ensures
        forall|kind: SyntaxKind| moves(tokens, i, #[trigger] section_step(tokens, i, kind).end),
        within(tokens, i, sections_step(tokens, i).end),
        at_marker(tokens, i, SyntaxKind::STAR, STARS@) ==> i < sections_step(tokens, i).end,
        moves(tokens, i, context_hunk_step(tokens, i).end),
{
    lemma_section(tokens, i);
    let first = section_step(tokens, i, SyntaxKind::CONTEXT_OLD_SECTION).end;
    lemma_section(tokens, first);
    lemma_run_end(tokens, i, Class::Star);
    let head = line_end(tokens, run_end(tokens, i, Class::Star));
    lemma_line_end(tokens, run_end(tokens, i, Class::Star));
    lemma_section(tokens, head);
    let second = section_step(tokens, head, SyntaxKind::CONTEXT_OLD_SECTION).end;
    lemma_section(tokens, second);
}

/// A section reads a token if one is left.
pub proof fn lemma_section(tokens: Seq<(SyntaxKind, Seq<u8>)>, i: int)
    requires
        0 <= i <= tokens.len(),
    ensures
        forall|kind: SyntaxKind| moves(tokens, i, #[trigger] section_step(tokens, i, kind).end),
{
    let blanks = run_end(tokens, ahead(tokens, i, 3), Class::Blank);
    lemma_run_end(tokens, ahead(tokens, i, 3), Class::Blank);
    lemma_line_steps(tokens, blanks);
    lemma_line_end(tokens, range_end(tokens, blanks));
    lemma_lines(tokens, line_end(tokens, range_end(tokens, blanks)), true);
}

/// The hunks of a file of a context diff: one for every line of stars at
/// the start of what is left.
pub open spec fn context_hunks_step(tokens: Seq<(SyntaxKind, Seq<u8>)>, i: int) -> Step
    decreases tokens.len() - i,
{
    if 0 <= i && kind_at(tokens, i) == Some(SyntaxKind::STAR) && hunk_separator_spec(tokens, i) {
        proof {
            lemma_context_steps(tokens, i);
        }
        chain(
            context_hunk_step(tokens, i),
            context_hunks_step(tokens, context_hunk_step(tokens, i).end),
        )
    } else {
        no_step(i)
    }
}

/// The patch of one file of a context diff in a node: the header of the
/// old file and that of the new file, as far as they are there, and the
/// hunks.
pub open spec fn context_file_step(tokens: Seq<(SyntaxKind, Seq<u8>)>, i: int) -> Step {
    let old_file = marked_header_step(
        tokens,
        i,
        SyntaxKind::STAR,
        STARS@,
        SyntaxKind::CONTEXT_OLD_FILE,
        Class::ContextPath,
    );
    let new_file = marked_header_step(
        tokens,
        old_file.end,
        SyntaxKind::MINUS,
        DASHES@,
        SyntaxKind::CONTEXT_NEW_FILE,
        Class::ContextPath,
    );
    let hunks = context_hunks_step(tokens, new_file.end);
    wrapped(
        SyntaxKind::CONTEXT_DIFF_FILE,
        old_file.elems + new_file.elems + hunks.elems,
        hunks.end,
    )
}

/// The lines that an ed command adds, each in a node, up to the line of a
/// single dot, which stays as it is.
pub open spec fn ed_lines_step(tokens: Seq<(SyntaxKind, Seq<u8>)>, i: int) -> Step
    decreases tokens.len() - i,
{
    if i < 0 || i >= tokens.len() {
        no_step(i)
    } else if kind_at(tokens, i) == Some(SyntaxKind::DOT) && kind_at(tokens, i + 1) == Some(
        SyntaxKind::NEWLINE,
    ) {
        Step { elems: span(tokens, i, i + 2), end: i + 2 }
    } else {
        proof {
            lemma_line_end(tokens, i);
        }
        chain(
            wrapped(
                SyntaxKind::ED_CONTENT_LINE,
                span(tokens, i, line_end(tokens, i)),
                line_end(tokens, i),
            ),
            ed_lines_step(tokens, line_end(tokens, i)),
        )
    }
}

/// An ed command in a node: the line of the command in a node of the
/// kind of its letter, for `a` and `c` with the lines to add.
pub open spec fn ed_command_step(tokens: Seq<(SyntaxKind, Seq<u8>)>, i: int) -> Step {
    let letter = kind_at(tokens, run_end(tokens, i, Class::Range));
    let head = line_end(tokens, i);
    let lines = ed_lines_step(tokens, head);
    if letter == Some(SyntaxKind::LETTER_A) {
        wrapped(
            SyntaxKind::ED_COMMAND,
            seq![node(SyntaxKind::ED_ADD_COMMAND, span(tokens, i, head) + lines.elems)],
            lines.end,
        )
    } else if letter == Some(SyntaxKind::LETTER_C) {
        wrapped(
            SyntaxKind::ED_COMMAND,
            seq![node(SyntaxKind::ED_CHANGE_COMMAND, span(tokens, i, head) + lines.elems)],
            lines.end,
        )
    } else if letter == Some(SyntaxKind::LETTER_D) {
        wrapped(
            SyntaxKind::ED_COMMAND,
            seq![node(SyntaxKind::ED_DELETE_COMMAND, span(tokens, i, head))],
            head,
        )
    } else {
        wrapped(SyntaxKind::ED_COMMAND, span(tokens, i, head), head)
    }
}

/// The lines of a normal diff that start with a token of kind `lead`,
/// each in a node of kind `line`.
pub open spec fn marked_lines_step(
    tokens: Seq<(SyntaxKind, Seq<u8>)>,
    i: int,
    lead: SyntaxKind,
    line: SyntaxKind,
) -> Step
    decreases tokens.len() - i,
{
    if 0 <= i && kind_at(tokens, i) == Some(lead) {
        proof {
            lemma_line_end(tokens, i);
        }
        chain(
            wrapped(line, span(tokens, i, line_end(tokens, i)), line_end(tokens, i)),
            marked_lines_step(tokens, line_end(tokens, i), lead, line),
        )
    } else {
        no_step(i)
    }
}

/// The lines of one side of a normal diff in a node of kind `kind`, if
/// there are any.
pub open spec fn side_step(
    tokens: Seq<(SyntaxKind, Seq<u8>)>,
    i: int,
    lead: SyntaxKind,
    kind: SyntaxKind,
    line: SyntaxKind,
) -> Step {
    if kind_at(tokens, i) == Some(lead) {
        wrapped(
            kind,
            marked_lines_step(tokens, i, lead, line).elems,
            marked_lines_step(tokens, i, lead, line).end,
        )
    } else {
        no_step(i)
    }
}

/// The line of three dashes between the two sides of a normal diff, in a
/// node of its own, if it is there.
pub open spec fn separator_step(tokens: Seq<(SyntaxKind, Seq<u8>)>, i: int) -> Step {
    if at_marker(tokens, i, SyntaxKind::MINUS, DASHES@) {
        let end = line_end(tokens, ahead(tokens, i, 3));
        wrapped(SyntaxKind::NORMAL_SEPARATOR, span(tokens, i, end), end)
    } else {
        no_step(i)
    }
}

/// The index behind the line of the command of a normal diff: behind a
/// range, a letter, a range, and the rest of the line.
pub open spec fn change_end(tokens: Seq<(SyntaxKind, Seq<u8>)>, i: int) -> int {
    let letter = run_end(tokens, i, Class::Range);
    let second = if is_command_letter(kind_at(tokens, letter)) {
        letter + 1
    } else {
        letter
    };
    line_end(tokens, run_end(tokens, second, Class::Range))
}

/// A hunk of a normal diff in a node: the line of the command in a node
/// of its own, the old lines, the separator and the new lines, as far as
/// they are there.
pub open spec fn normal_hunk_step(tokens: Seq<(SyntaxKind, Seq<u8>)>, i: int) -> Step {
    let head = change_end(tokens, i);
    let old_lines = side_step(
        tokens,
        head,
        SyntaxKind::LESS_THAN,
        SyntaxKind::NORMAL_OLD_LINES,
        SyntaxKind::DELETE_LINE,
    );
    let separator = separator_step(tokens, old_lines.end);
    let new_lines = side_step(
        tokens,
        separator.end,
        SyntaxKind::GREATER_THAN,
        SyntaxKind::NORMAL_NEW_LINES,
        SyntaxKind::ADD_LINE,
    );
    wrapped(
        SyntaxKind::NORMAL_HUNK,
        seq![node(SyntaxKind::NORMAL_CHANGE_COMMAND, span(tokens, i, head))] + old_lines.elems
            + separator.elems + new_lines.elems,
        new_lines.end,
    )
}

/// Whether the token three tokens behind the marker at token `i` starts
/// with `>`: then the marker is the separator of a normal diff.
pub open spec fn new_lines_ahead(tokens: Seq<(SyntaxKind, Seq<u8>)>, i: int) -> bool {
    match peek_spec(tokens, i, 3) {
        Some(text) => has_prefix(text, seq![0x3eu8]),
        None => false,
    }
}

/// Whether a file of a unified diff starts at token `i`: with `+++`, or
/// with `---` where that is neither the separator of a normal diff nor the
/// line of a section of a context hunk.
pub open spec fn unified_file_at(tokens: Seq<(SyntaxKind, Seq<u8>)>, i: int) -> bool {
    ||| at_marker(tokens, i, SyntaxKind::MINUS, DASHES@) && !new_lines_ahead(tokens, i)
        && !section_header_spec(tokens, i, SyntaxKind::MINUS, DASHES@, Class::Minus)
    ||| at_marker(tokens, i, SyntaxKind::PLUS, PLUSES@)
}

/// The format of what stands at token `i` of a patch file: a context
/// diff behind `***`, a unified diff where one of its files starts, a normal
/// diff or an ed script at the line of a command of theirs; none where the
/// line belongs to none of them.
pub open spec fn item_format(tokens: Seq<(SyntaxKind, Seq<u8>)>, i: int) -> Option<DiffFormat> {
    if at_marker(tokens, i, SyntaxKind::STAR, STARS@) {
        Some(DiffFormat::Context)
    } else if unified_file_at(tokens, i) {
        Some(DiffFormat::Unified)
    } else if normal_diff_spec(tokens, i) {
        Some(DiffFormat::Normal)
    } else if ed_command_spec(tokens, i) {
        Some(DiffFormat::Ed)
    } else {
        None
    }
}

/// What stands at token `i` of a patch file: a file of a context diff,
/// which is a lone hunk where the line is that of a section; a file of a
/// unified diff; a hunk of a normal diff; an ed command; or a line that
/// belongs to none of them and stays as it is.
pub open spec fn item_step(tokens: Seq<(SyntaxKind, Seq<u8>)>, i: int) -> Step {
    match item_format(tokens, i) {
        Some(DiffFormat::Context) => if section_header_spec(
            tokens,
            i,
            SyntaxKind::STAR,
            STARS@,
            Class::Star,
        ) {
            wrapped(
                SyntaxKind::CONTEXT_DIFF_FILE,
                bare_context_hunk_step(tokens, i).elems,
                bare_context_hunk_step(tokens, i).end,
            )
        } else {
            context_file_step(tokens, i)
        },
        Some(DiffFormat::Unified) => patch_file_step(tokens, i),
        Some(DiffFormat::Normal) => normal_hunk_step(tokens, i),
        Some(DiffFormat::Ed) => ed_command_step(tokens, i),
        None => plain(tokens, i, line_end(tokens, i)),
    }
}

/// Where the hunks and the lines of an ed command end.
pub proof fn lemma_runs_of_steps(tokens: Seq<(SyntaxKind, Seq<u8>)>, i: int)
    requires
        0 <= i <= tokens.len(),
    ensures
        within(tokens, i, hunks_step(tokens, i).end),
        within(tokens, i, context_hunks_step(tokens, i).end),
        within(tokens, i, ed_lines_step(tokens, i).end),
    decreases tokens.len() - i,
{
    lemma_hunk(tokens, i);
    lemma_context_steps(tokens, i);
    lemma_line_end(tokens, i);
    if i < tokens.len() {
        lemma_runs_of_steps(tokens, hunk_step(tokens, i).end);
        lemma_runs_of_steps(tokens, context_hunk_step(tokens, i).end);
        lemma_runs_of_steps(tokens, line_end(tokens, i));
    }
}

/// Where the lines of one side of a normal diff end.
pub proof fn lemma_marked_lines(
    tokens: Seq<(SyntaxKind, Seq<u8>)>,
    i: int,
    lead: SyntaxKind,
    line: SyntaxKind,
)
    requires
        0 <= i <= tokens.len(),
    ensures
        within(tokens, i, marked_lines_step(tokens, i, lead, line).end),
    decreases tokens.len() - i,
{
    lemma_line_end(tokens, i);
    if i < tokens.len() {
        lemma_marked_lines(tokens, line_end(tokens, i), lead, line);
    }
}

/// Where a hunk of a normal diff ends.
pub proof fn lemma_normal_hunk(tokens: Seq<(SyntaxKind, Seq<u8>)>, i: int)
    requires
        0 <= i <= tokens.len(),
    ensures
        moves(tokens, i, change_end(tokens, i)),
        moves(tokens, i, normal_hunk_step(tokens, i).end),
{
    lemma_run_end(tokens, i, Class::Range);
    let letter = run_end(tokens, i, Class::Range);
    let second = if is_command_letter(kind_at(tokens, letter)) {
        letter + 1
    } else {
        letter
    };
    lemma_run_end(tokens, second, Class::Range);
    lemma_line_end(tokens, run_end(tokens, second, Class::Range));
    let head = change_end(tokens, i);
    lemma_marked_lines(tokens, head, SyntaxKind::LESS_THAN, SyntaxKind::DELETE_LINE);
    let old_lines = side_step(
        tokens,
        head,
        SyntaxKind::LESS_THAN,
        SyntaxKind::NORMAL_OLD_LINES,
        SyntaxKind::DELETE_LINE,
    );
    lemma_line_end(tokens, ahead(tokens, old_lines.end, 3));
    let separator = separator_step(tokens, old_lines.end);
    lemma_marked_lines(tokens, separator.end, SyntaxKind::GREATER_THAN, SyntaxKind::ADD_LINE);
}

/// What stands at a token reads that token.
pub proof fn lemma_item(tokens: Seq<(SyntaxKind, Seq<u8>)>, i: int)
    requires
        0 <= i < tokens.len(),
    ensures
        i < item_step(tokens, i).end <= tokens.len(),
{
    lemma_line_end(tokens, i);
    lemma_line_steps(tokens, i);
    lemma_context_steps(tokens, i);
    lemma_normal_hunk(tokens, i);
    // a file of a unified diff
    let old_file = marked_header_step(
        tokens,
        i,
        SyntaxKind::MINUS,
        DASHES@,
        SyntaxKind::OLD_FILE,
        Class::Path,
    );
    lemma_line_steps(tokens, old_file.end);
    let new_file = marked_header_step(
        tokens,
        old_file.end,
        SyntaxKind::PLUS,
        PLUSES@,
        SyntaxKind::NEW_FILE,
        Class::Path,
    );
    lemma_runs_of_steps(tokens, new_file.end);
    // a file of a context diff
    let old_context = marked_header_step(
        tokens,
        i,
        SyntaxKind::STAR,
        STARS@,
        SyntaxKind::CONTEXT_OLD_FILE,
        Class::ContextPath,
    );
    lemma_line_steps(tokens, old_context.end);
    let new_context = marked_header_step(
        tokens,
        old_context.end,
        SyntaxKind::MINUS,
        DASHES@,
        SyntaxKind::CONTEXT_NEW_FILE,
        Class::ContextPath,
    );
    lemma_runs_of_steps(tokens, new_context.end);
    // an ed command
    lemma_runs_of_steps(tokens, line_end(tokens, i));
}

/// The children of the root from token `i` on.
pub open spec fn items_step(tokens: Seq<(SyntaxKind, Seq<u8>)>, i: int) -> Step
    decreases tokens.len() - i,
{
    if i < 0 || i >= tokens.len() {
        no_step(i)
    } else {
        proof {
            lemma_item(tokens, i);
        }
        chain(item_step(tokens, i), items_step(tokens, item_step(tokens, i).end))
    }
}

/// Whether something of the format `format` stands in a patch file at
/// token `i` or behind it.
pub open spec fn format_occurs(
    tokens: Seq<(SyntaxKind, Seq<u8>)>,
    i: int,
    format: DiffFormat,
) -> bool
    decreases tokens.len() - i,
{
    if i < 0 || i >= tokens.len() {
        false
    } else {
        proof {
            lemma_item(tokens, i);
        }
        item_format(tokens, i) == Some(format) || format_occurs(
            tokens,
            item_step(tokens, i).end,
            format,
        )
    }
}

/// The tree of a patch file with the given tokens.
pub open spec fn patch_tree(tokens: Seq<(SyntaxKind, Seq<u8>)>) -> Tree {
    Tree { kind: SyntaxKind::ROOT.raw(), children: items_step(tokens, 0).elems }
}

} // verus!
