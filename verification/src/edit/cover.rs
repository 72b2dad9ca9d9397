//! The tree of a patch file covers its tokens.
//!
//! Every rule of the grammar puts the tokens that it reads into the tree,
//! each once and in order. So the text of the tree of a patch file is the
//! text of its tokens, and these are the bytes of the file.
use crate::bytes::concat;
use crate::edit::builder::{chain, no_step, Step};
use crate::edit::grammar::{
    ahead, bare_context_hunk_step, change_end, closing_end, context_file_step, context_hunk_step,
    context_hunks_step, ed_command_step, ed_lines_step, has_range, header_step, hunk_header_step,
    hunk_step, hunks_step, item_format, item_step, items_step, lemma_context_steps, lemma_hunk,
    lemma_item, lemma_line_end, lemma_line_steps, lemma_lines, lemma_normal_hunk, line_end,
    line_step, lines_step, lines_stop, marked_header_step, marked_lines_step, node,
    normal_hunk_step, patch_file_step, patch_tree, path_step, plain, range_end, range_step,
    section_step, sections_step, separator_step, side_step, signed_range_step, skipped_end, span,
    token_elem, wrapped,
};
use crate::edit::green::{elem_text, elems_text, lemma_elems_text_append, Elem};
use crate::edit::kind::SyntaxKind;
use crate::edit::lex::{lemma_lex_round_trip, token_texts, tokens_of};
use crate::edit::lossless::DiffFormat;
use crate::edit::parse::{
    at_marker, kind_at, lemma_run_end, lemma_text_upto_all, run_end, text_between, text_upto,
    Class, ATS, DASHES, PLUSES, STARS,
};
use vstd::prelude::*;

verus! {

/// A step covers the tokens that it reads: it ends within the tokens, at
/// or behind its start, and the text of its elements is the text of the
/// tokens from its start up to its end.
pub open spec fn covered(tokens: Seq<(SyntaxKind, Seq<u8>)>, i: int, step: Step) -> bool {
    0 <= i <= step.end <= tokens.len() && elems_text(step.elems) == text_between(
        tokens,
        i,
        step.end,
    )
}

/// The text between two tokens is the text up to a token between them,
/// followed by the text from there on.
pub proof fn lemma_between_join(tokens: Seq<(SyntaxKind, Seq<u8>)>, i: int, j: int, k: int)
    requires
        0 <= i <= j <= k <= tokens.len(),
    ensures
        text_between(tokens, i, j) + text_between(tokens, j, k) == text_between(tokens, i, k),
    decreases k - j,
{
    if j < k {
        lemma_between_join(tokens, i, j, k - 1);
        assert(text_between(tokens, i, j) + (text_between(tokens, j, k - 1) + tokens[k - 1].1)
            =~= (text_between(tokens, i, j) + text_between(tokens, j, k - 1)) + tokens[k - 1].1);
    } else {
        assert(text_between(tokens, i, j) + text_between(tokens, j, k) =~= text_between(
            tokens,
            i,
            j,
        ));
    }
}

/// The text between the first token and another is the text up to that
/// token.
pub proof fn lemma_between_from_start(tokens: Seq<(SyntaxKind, Seq<u8>)>, n: int)
    requires
        0 <= n <= tokens.len(),
    ensures
        text_between(tokens, 0, n) == text_upto(tokens, n),
    decreases n,
{
    if n > 0 {
        lemma_between_from_start(tokens, n - 1);
    }
}

/// Tokens that stay as they are cover themselves.
pub proof fn lemma_plain(tokens: Seq<(SyntaxKind, Seq<u8>)>, i: int, j: int)
    requires
        0 <= i <= j <= tokens.len(),
    ensures
        covered(tokens, i, plain(tokens, i, j)),
    decreases j - i,
{
    reveal(span);
    let all = span(tokens, i, j);
    if i < j {
        lemma_plain(tokens, i, j - 1);
        assert(all.len() == j - i);
        assert(all.drop_last() =~= span(tokens, i, j - 1));
        assert(all.last() == token_elem(tokens, j - 1));
        assert(elem_text(all.last()) == tokens[j - 1].1);
        assert(elems_text(all) == elems_text(all.drop_last()) + elem_text(all.last()));
    } else {
        assert(all =~= Seq::<Elem>::empty());
        assert(elems_text(all) =~= Seq::<u8>::empty());
    }
}

/// A node covers what its children cover.
pub proof fn lemma_wrapped(
    tokens: Seq<(SyntaxKind, Seq<u8>)>,
    i: int,
    kind: SyntaxKind,
    inner: Step,
)
    requires
        covered(tokens, i, inner),
    ensures
        covered(tokens, i, wrapped(kind, inner.elems, inner.end)),
{
    let one = seq![node(kind, inner.elems)];
    assert(one.drop_last() =~= Seq::<Elem>::empty());
    assert(elems_text(one.drop_last()) =~= Seq::<u8>::empty());
    assert(elems_text(one) =~= elem_text(one.last()));
}

/// Two steps, one after the other, cover what the first and the second
/// cover.
pub proof fn lemma_chain(tokens: Seq<(SyntaxKind, Seq<u8>)>, i: int, first: Step, next: Step)
    requires
        covered(tokens, i, first),
        covered(tokens, first.end, next),
    ensures
        covered(tokens, i, chain(first, next)),
{
    lemma_elems_text_append(first.elems, next.elems);
    lemma_between_join(tokens, i, first.end, next.end);
}

/// A step that reads nothing covers nothing.
pub proof fn lemma_no_step(tokens: Seq<(SyntaxKind, Seq<u8>)>, i: int)
    requires
        0 <= i <= tokens.len(),
    ensures
        covered(tokens, i, no_step(i)),
{
}

/// The steps of a header line cover their tokens.
pub proof fn lemma_header_covers(tokens: Seq<(SyntaxKind, Seq<u8>)>, i: int)
    requires
        0 <= i <= tokens.len(),
    ensures
        forall|class: Class| covered(tokens, i, #[trigger] path_step(tokens, i, class)),
        forall|kind: SyntaxKind, class: Class|
            covered(tokens, i, #[trigger] header_step(tokens, i, kind, class)),
        forall|first: SyntaxKind, marker: Seq<u8>, kind: SyntaxKind, class: Class|
            covered(tokens, i, #[trigger] marked_header_step(tokens, i, first, marker, kind, class)),
{
    assert forall|class: Class| covered(tokens, i, #[trigger] path_step(tokens, i, class)) by {
        lemma_path(tokens, i, class);
    }
    assert forall|kind: SyntaxKind, class: Class|
        covered(tokens, i, #[trigger] header_step(tokens, i, kind, class)) by {
        let blanks = run_end(tokens, ahead(tokens, i, 3), Class::Blank);
        lemma_run_end(tokens, ahead(tokens, i, 3), Class::Blank);
        lemma_plain(tokens, i, blanks);
        let path = path_step(tokens, blanks, class);
        lemma_path(tokens, blanks, class);
        let end = line_end(tokens, path.end);
        lemma_line_end(tokens, path.end);
        lemma_plain(tokens, path.end, end);
        let head = chain(plain(tokens, i, blanks), path);
        lemma_chain(tokens, i, plain(tokens, i, blanks), path);
        lemma_chain(tokens, i, head, plain(tokens, path.end, end));
        lemma_wrapped(tokens, i, kind, chain(head, plain(tokens, path.end, end)));
    }
}

/// The path of a header covers its tokens.
proof fn lemma_path(tokens: Seq<(SyntaxKind, Seq<u8>)>, i: int, class: Class)
    requires
        0 <= i <= tokens.len(),
    ensures
        covered(tokens, i, path_step(tokens, i, class)),
{
    let end = run_end(tokens, i, class);
    lemma_run_end(tokens, i, class);
    if end > i {
        let one = seq![Elem::Token(SyntaxKind::PATH.raw(), text_between(tokens, i, end))];
        assert(one.drop_last() =~= Seq::<Elem>::empty());
        assert(elems_text(one.drop_last()) =~= Seq::<u8>::empty());
        assert(elems_text(one) =~= elem_text(one.last()));
    }
}

/// The steps of the header of a hunk cover their tokens.
pub proof fn lemma_hunk_header_covers(tokens: Seq<(SyntaxKind, Seq<u8>)>, i: int)
    requires
        0 <= i <= tokens.len(),
    ensures
        covered(tokens, i, range_step(tokens, i)),
        forall|sign: SyntaxKind| covered(tokens, i, #[trigger] signed_range_step(tokens, i, sign)),
        covered(tokens, i, hunk_header_step(tokens, i)),
{
    lemma_range(tokens, i);
    assert forall|sign: SyntaxKind|
        covered(tokens, i, #[trigger] signed_range_step(tokens, i, sign)) by {
        lemma_signed_range(tokens, i, sign);
    }
    let first = ahead(tokens, i, 2);
    lemma_plain(tokens, i, first);
    let old_range = signed_range_step(tokens, first, SyntaxKind::MINUS);
    lemma_signed_range(tokens, first, SyntaxKind::MINUS);
    let new_range = signed_range_step(tokens, old_range.end, SyntaxKind::PLUS);
    lemma_signed_range(tokens, old_range.end, SyntaxKind::PLUS);
    let end = closing_end(tokens, new_range.end);
    let blanks = run_end(tokens, new_range.end, Class::Blank);
    lemma_run_end(tokens, new_range.end, Class::Blank);
    lemma_line_end(tokens, blanks);
    lemma_line_end(tokens, ahead(tokens, blanks, 2));
    lemma_plain(tokens, new_range.end, end);
    let a = chain(plain(tokens, i, first), old_range);
    lemma_chain(tokens, i, plain(tokens, i, first), old_range);
    let b = chain(a, new_range);
    lemma_chain(tokens, i, a, new_range);
    let c = chain(b, plain(tokens, new_range.end, end));
    lemma_chain(tokens, i, b, plain(tokens, new_range.end, end));
    lemma_wrapped(tokens, i, SyntaxKind::HUNK_HEADER, c);
}

/// A range covers its tokens.
proof fn lemma_range(tokens: Seq<(SyntaxKind, Seq<u8>)>, i: int)
    requires
        0 <= i <= tokens.len(),
    ensures
        covered(tokens, i, range_step(tokens, i)),
{
    lemma_line_steps(tokens, i);
    lemma_plain(tokens, i, range_end(tokens, i));
    lemma_wrapped(tokens, i, SyntaxKind::HUNK_RANGE, plain(tokens, i, range_end(tokens, i)));
}

/// Blanks and a range cover their tokens.
proof fn lemma_signed_range(tokens: Seq<(SyntaxKind, Seq<u8>)>, i: int, sign: SyntaxKind)
    requires
        0 <= i <= tokens.len(),
    ensures
        covered(tokens, i, signed_range_step(tokens, i, sign)),
{
    let blanks = run_end(tokens, i, Class::Blank);
    lemma_run_end(tokens, i, Class::Blank);
    lemma_plain(tokens, i, blanks);
    lemma_range(tokens, blanks);
    lemma_chain(tokens, i, plain(tokens, i, blanks), range_step(tokens, blanks));
}

/// The lines of a hunk cover their tokens.
pub proof fn lemma_lines_cover(tokens: Seq<(SyntaxKind, Seq<u8>)>, i: int, context_diff: bool)
    requires
        0 <= i <= tokens.len(),
    ensures
        covered(tokens, i, line_step(tokens, i, context_diff)),
        covered(tokens, i, lines_step(tokens, i, context_diff)),
        covered(tokens, i, plain(tokens, i, skipped_end(tokens, i))),
    decreases tokens.len() - i,
{
    let end = line_end(tokens, i);
    lemma_line_end(tokens, i);
    lemma_plain(tokens, i, end);
    lemma_wrapped(
        tokens,
        i,
        crate::edit::grammar::line_kind(kind_at(tokens, i), context_diff),
        plain(tokens, i, end),
    );
    lemma_lines(tokens, i, false);
    lemma_plain(tokens, i, skipped_end(tokens, i));
    if !lines_stop(tokens, i, context_diff) {
        lemma_lines_cover(tokens, end, context_diff);
        lemma_chain(
            tokens,
            i,
            line_step(tokens, i, context_diff),
            lines_step(tokens, end, context_diff),
        );
    }
}

/// A hunk of a unified diff covers its tokens.
pub proof fn lemma_hunk_covers(tokens: Seq<(SyntaxKind, Seq<u8>)>, i: int)
    requires
        0 <= i <= tokens.len(),
    ensures
        covered(tokens, i, hunk_step(tokens, i)),
{
    if has_range(tokens, i) {
        let header = hunk_header_step(tokens, i);
        lemma_hunk_header_covers(tokens, i);
        lemma_lines_cover(tokens, header.end, false);
        let lines = lines_step(tokens, header.end, false);
        lemma_chain(tokens, i, header, lines);
        lemma_wrapped(tokens, i, SyntaxKind::HUNK, chain(header, lines));
    } else {
        let head = line_end(tokens, i);
        lemma_line_end(tokens, i);
        lemma_lines(tokens, head, false);
        let end = skipped_end(tokens, head);
        lemma_plain(tokens, i, end);
        lemma_wrapped(tokens, i, SyntaxKind::ERROR, plain(tokens, i, end));
    }
}

/// The hunks of a file of a unified diff cover their tokens.
pub proof fn lemma_hunks_cover(tokens: Seq<(SyntaxKind, Seq<u8>)>, i: int)
    requires
        0 <= i <= tokens.len(),
    ensures
        covered(tokens, i, hunks_step(tokens, i)),
    decreases tokens.len() - i,
{
    if at_marker(tokens, i, SyntaxKind::AT, ATS@) {
        lemma_hunk(tokens, i);
        lemma_hunk_covers(tokens, i);
        let hunk = hunk_step(tokens, i);
        lemma_hunks_cover(tokens, hunk.end);
        lemma_chain(tokens, i, hunk, hunks_step(tokens, hunk.end));
    }
}

/// The patch of a file of a unified diff covers its tokens.
pub proof fn lemma_patch_file_covers(tokens: Seq<(SyntaxKind, Seq<u8>)>, i: int)
    requires
        0 <= i <= tokens.len(),
    ensures
        covered(tokens, i, patch_file_step(tokens, i)),
{
    let old_file = marked_header_step(
        tokens,
        i,
        SyntaxKind::MINUS,
        DASHES@,
        SyntaxKind::OLD_FILE,
        Class::Path,
    );
    lemma_header_covers(tokens, i);
    lemma_header_covers(tokens, old_file.end);
    let new_file = marked_header_step(
        tokens,
        old_file.end,
        SyntaxKind::PLUS,
        PLUSES@,
        SyntaxKind::NEW_FILE,
        Class::Path,
    );
    lemma_hunks_cover(tokens, new_file.end);
    let hunks = hunks_step(tokens, new_file.end);
    lemma_chain(tokens, i, old_file, new_file);
    lemma_chain(tokens, i, chain(old_file, new_file), hunks);
    lemma_wrapped(tokens, i, SyntaxKind::PATCH_FILE, chain(chain(old_file, new_file), hunks));
}

/// A section of a context hunk covers its tokens.
pub proof fn lemma_section_covers(tokens: Seq<(SyntaxKind, Seq<u8>)>, i: int, kind: SyntaxKind)
    requires
        0 <= i <= tokens.len(),
    ensures
        covered(tokens, i, section_step(tokens, i, kind)),
{
    let blanks = run_end(tokens, ahead(tokens, i, 3), Class::Blank);
    lemma_run_end(tokens, ahead(tokens, i, 3), Class::Blank);
    lemma_plain(tokens, i, blanks);
    let range = range_step(tokens, blanks);
    lemma_range(tokens, blanks);
    let head = line_end(tokens, range.end);
    lemma_line_end(tokens, range.end);
    lemma_plain(tokens, range.end, head);
    let lines = lines_step(tokens, head, true);
    lemma_lines_cover(tokens, head, true);
    let a = chain(plain(tokens, i, blanks), range);
    lemma_chain(tokens, i, plain(tokens, i, blanks), range);
    let b = chain(a, plain(tokens, range.end, head));
    lemma_chain(tokens, i, a, plain(tokens, range.end, head));
    lemma_chain(tokens, i, b, lines);
    lemma_wrapped(tokens, i, kind, chain(b, lines));
}

/// The sections of a context hunk, and the hunk, cover their tokens.
pub proof fn lemma_context_hunk_covers(tokens: Seq<(SyntaxKind, Seq<u8>)>, i: int)
    requires
        0 <= i <= tokens.len(),
    ensures
        covered(tokens, i, sections_step(tokens, i)),
        covered(tokens, i, bare_context_hunk_step(tokens, i)),
        covered(tokens, i, context_hunk_step(tokens, i)),
{
    lemma_sections(tokens, i);
    lemma_wrapped(tokens, i, SyntaxKind::CONTEXT_HUNK, sections_step(tokens, i));
    let stars = run_end(tokens, i, Class::Star);
    lemma_run_end(tokens, i, Class::Star);
    let head = line_end(tokens, stars);
    lemma_line_end(tokens, stars);
    lemma_plain(tokens, i, head);
    lemma_wrapped(tokens, i, SyntaxKind::CONTEXT_HUNK_HEADER, plain(tokens, i, head));
    let header = wrapped(SyntaxKind::CONTEXT_HUNK_HEADER, span(tokens, i, head), head);
    lemma_sections(tokens, head);
    let sections = sections_step(tokens, head);
    lemma_chain(tokens, i, header, sections);
    lemma_wrapped(tokens, i, SyntaxKind::CONTEXT_HUNK, chain(header, sections));
}

/// The sections of a context hunk cover their tokens.
proof fn lemma_sections(tokens: Seq<(SyntaxKind, Seq<u8>)>, i: int)
    requires
        0 <= i <= tokens.len(),
    ensures
        covered(tokens, i, sections_step(tokens, i)),
{
    let old_section = if at_marker(tokens, i, SyntaxKind::STAR, STARS@) {
        section_step(tokens, i, SyntaxKind::CONTEXT_OLD_SECTION)
    } else {
        no_step(i)
    };
    lemma_section_covers(tokens, i, SyntaxKind::CONTEXT_OLD_SECTION);
    let new_section = if at_marker(tokens, old_section.end, SyntaxKind::MINUS, DASHES@) {
        section_step(tokens, old_section.end, SyntaxKind::CONTEXT_NEW_SECTION)
    } else {
        no_step(old_section.end)
    };
    lemma_section_covers(tokens, old_section.end, SyntaxKind::CONTEXT_NEW_SECTION);
    lemma_chain(tokens, i, old_section, new_section);
}

/// The hunks of a file of a context diff cover their tokens.
pub proof fn lemma_context_hunks_cover(tokens: Seq<(SyntaxKind, Seq<u8>)>, i: int)
    requires
        0 <= i <= tokens.len(),
    ensures
        covered(tokens, i, context_hunks_step(tokens, i)),
    decreases tokens.len() - i,
{
    if kind_at(tokens, i) == Some(SyntaxKind::STAR) && crate::edit::parse::hunk_separator_spec(
        tokens,
        i,
    ) {
        lemma_context_steps(tokens, i);
        lemma_context_hunk_covers(tokens, i);
        let hunk = context_hunk_step(tokens, i);
        lemma_context_hunks_cover(tokens, hunk.end);
        lemma_chain(tokens, i, hunk, context_hunks_step(tokens, hunk.end));
    }
}

/// The patch of a file of a context diff covers its tokens.
pub proof fn lemma_context_file_covers(tokens: Seq<(SyntaxKind, Seq<u8>)>, i: int)
    requires
        0 <= i <= tokens.len(),
    ensures
        covered(tokens, i, context_file_step(tokens, i)),
{
    let old_file = marked_header_step(
        tokens,
        i,
        SyntaxKind::STAR,
        STARS@,
        SyntaxKind::CONTEXT_OLD_FILE,
        Class::ContextPath,
    );
    lemma_header_covers(tokens, i);
    lemma_header_covers(tokens, old_file.end);
    let new_file = marked_header_step(
        tokens,
        old_file.end,
        SyntaxKind::MINUS,
        DASHES@,
        SyntaxKind::CONTEXT_NEW_FILE,
        Class::ContextPath,
    );
    lemma_context_hunks_cover(tokens, new_file.end);
    let hunks = context_hunks_step(tokens, new_file.end);
    lemma_chain(tokens, i, old_file, new_file);
    lemma_chain(tokens, i, chain(old_file, new_file), hunks);
    lemma_wrapped(
        tokens,
        i,
        SyntaxKind::CONTEXT_DIFF_FILE,
        chain(chain(old_file, new_file), hunks),
    );
}

/// The lines that an ed command adds cover their tokens.
pub proof fn lemma_ed_lines_cover(tokens: Seq<(SyntaxKind, Seq<u8>)>, i: int)
    requires
        0 <= i <= tokens.len(),
    ensures
        covered(tokens, i, ed_lines_step(tokens, i)),
    decreases tokens.len() - i,
{
    if i < tokens.len() {
        if kind_at(tokens, i) == Some(SyntaxKind::DOT) && kind_at(tokens, i + 1) == Some(
            SyntaxKind::NEWLINE,
        ) {
            lemma_plain(tokens, i, i + 2);
        } else {
            let end = line_end(tokens, i);
            lemma_line_end(tokens, i);
            lemma_plain(tokens, i, end);
            lemma_wrapped(tokens, i, SyntaxKind::ED_CONTENT_LINE, plain(tokens, i, end));
            lemma_ed_lines_cover(tokens, end);
            lemma_chain(
                tokens,
                i,
                wrapped(SyntaxKind::ED_CONTENT_LINE, span(tokens, i, end), end),
                ed_lines_step(tokens, end),
            );
        }
    }
}

/// An ed command covers its tokens.
pub proof fn lemma_ed_command_covers(tokens: Seq<(SyntaxKind, Seq<u8>)>, i: int)
    requires
        0 <= i <= tokens.len(),
    ensures
        covered(tokens, i, ed_command_step(tokens, i)),
{
    let letter = kind_at(tokens, run_end(tokens, i, Class::Range));
    let head = line_end(tokens, i);
    lemma_line_end(tokens, i);
    lemma_plain(tokens, i, head);
    let lines = ed_lines_step(tokens, head);
    lemma_ed_lines_cover(tokens, head);
    let whole = chain(plain(tokens, i, head), lines);
    lemma_chain(tokens, i, plain(tokens, i, head), lines);
    if letter == Some(SyntaxKind::LETTER_A) {
        lemma_wrapped(tokens, i, SyntaxKind::ED_ADD_COMMAND, whole);
        lemma_wrapped(
            tokens,
            i,
            SyntaxKind::ED_COMMAND,
            wrapped(SyntaxKind::ED_ADD_COMMAND, whole.elems, whole.end),
        );
    } else if letter == Some(SyntaxKind::LETTER_C) {
        lemma_wrapped(tokens, i, SyntaxKind::ED_CHANGE_COMMAND, whole);
        lemma_wrapped(
            tokens,
            i,
            SyntaxKind::ED_COMMAND,
            wrapped(SyntaxKind::ED_CHANGE_COMMAND, whole.elems, whole.end),
        );
    } else if letter == Some(SyntaxKind::LETTER_D) {
        lemma_wrapped(tokens, i, SyntaxKind::ED_DELETE_COMMAND, plain(tokens, i, head));
        lemma_wrapped(
            tokens,
            i,
            SyntaxKind::ED_COMMAND,
            wrapped(SyntaxKind::ED_DELETE_COMMAND, span(tokens, i, head), head),
        );
    } else {
        lemma_wrapped(tokens, i, SyntaxKind::ED_COMMAND, plain(tokens, i, head));
    }
}

/// The lines of one side of a normal diff cover their tokens.
pub proof fn lemma_side_covers(
    tokens: Seq<(SyntaxKind, Seq<u8>)>,
    i: int,
    lead: SyntaxKind,
    kind: SyntaxKind,
    line: SyntaxKind,
)
    requires
        0 <= i <= tokens.len(),
    ensures
        covered(tokens, i, marked_lines_step(tokens, i, lead, line)),
        covered(tokens, i, side_step(tokens, i, lead, kind, line)),
    decreases tokens.len() - i,
{
    if kind_at(tokens, i) == Some(lead) {
        let end = line_end(tokens, i);
        lemma_line_end(tokens, i);
        lemma_plain(tokens, i, end);
        lemma_wrapped(tokens, i, line, plain(tokens, i, end));
        lemma_side_covers(tokens, end, lead, kind, line);
        lemma_chain(
            tokens,
            i,
            wrapped(line, span(tokens, i, end), end),
            marked_lines_step(tokens, end, lead, line),
        );
        lemma_wrapped(tokens, i, kind, marked_lines_step(tokens, i, lead, line));
    }
}

/// A hunk of a normal diff covers its tokens.
pub proof fn lemma_normal_hunk_covers(tokens: Seq<(SyntaxKind, Seq<u8>)>, i: int)
    requires
        0 <= i <= tokens.len(),
    ensures
        covered(tokens, i, normal_hunk_step(tokens, i)),
{
    let head = change_end(tokens, i);
    lemma_normal_hunk(tokens, i);
    lemma_plain(tokens, i, head);
    lemma_wrapped(tokens, i, SyntaxKind::NORMAL_CHANGE_COMMAND, plain(tokens, i, head));
    let command = wrapped(SyntaxKind::NORMAL_CHANGE_COMMAND, span(tokens, i, head), head);
    let old_lines = side_step(
        tokens,
        head,
        SyntaxKind::LESS_THAN,
        SyntaxKind::NORMAL_OLD_LINES,
        SyntaxKind::DELETE_LINE,
    );
    lemma_side_covers(
        tokens,
        head,
        SyntaxKind::LESS_THAN,
        SyntaxKind::NORMAL_OLD_LINES,
        SyntaxKind::DELETE_LINE,
    );
    let separator = separator_step(tokens, old_lines.end);
    if at_marker(tokens, old_lines.end, SyntaxKind::MINUS, DASHES@) {
        let end = line_end(tokens, ahead(tokens, old_lines.end, 3));
        lemma_line_end(tokens, ahead(tokens, old_lines.end, 3));
        lemma_plain(tokens, old_lines.end, end);
        lemma_wrapped(
            tokens,
            old_lines.end,
            SyntaxKind::NORMAL_SEPARATOR,
            plain(tokens, old_lines.end, end),
        );
    }
    let new_lines = side_step(
        tokens,
        separator.end,
        SyntaxKind::GREATER_THAN,
        SyntaxKind::NORMAL_NEW_LINES,
        SyntaxKind::ADD_LINE,
    );
    lemma_side_covers(
        tokens,
        separator.end,
        SyntaxKind::GREATER_THAN,
        SyntaxKind::NORMAL_NEW_LINES,
        SyntaxKind::ADD_LINE,
    );
    let a = chain(command, old_lines);
    lemma_chain(tokens, i, command, old_lines);
    let b = chain(a, separator);
    lemma_chain(tokens, i, a, separator);
    lemma_chain(tokens, i, b, new_lines);
    lemma_wrapped(tokens, i, SyntaxKind::NORMAL_HUNK, chain(b, new_lines));
}

/// What stands at a token covers its tokens.
pub proof fn lemma_item_covers(tokens: Seq<(SyntaxKind, Seq<u8>)>, i: int)
    requires
        0 <= i <= tokens.len(),
    ensures
        covered(tokens, i, item_step(tokens, i)),
{
    match item_format(tokens, i) {
        Some(DiffFormat::Context) => {
            lemma_context_hunk_covers(tokens, i);
            lemma_wrapped(
                tokens,
                i,
                SyntaxKind::CONTEXT_DIFF_FILE,
                bare_context_hunk_step(tokens, i),
            );
            lemma_context_file_covers(tokens, i);
        },
        Some(DiffFormat::Unified) => {
            lemma_patch_file_covers(tokens, i);
        },
        Some(DiffFormat::Normal) => {
            lemma_normal_hunk_covers(tokens, i);
        },
        Some(DiffFormat::Ed) => {
            lemma_ed_command_covers(tokens, i);
        },
        None => {
            lemma_line_end(tokens, i);
            lemma_plain(tokens, i, line_end(tokens, i));
        },
    }
}

/// The children of the root cover the tokens from a token on.
pub proof fn lemma_items_cover(tokens: Seq<(SyntaxKind, Seq<u8>)>, i: int)
    requires
        0 <= i <= tokens.len(),
    ensures
        covered(tokens, i, items_step(tokens, i)),
        items_step(tokens, i).end == tokens.len(),
    decreases tokens.len() - i,
{
    if i < tokens.len() {
        lemma_item(tokens, i);
        lemma_item_covers(tokens, i);
        let item = item_step(tokens, i);
        lemma_items_cover(tokens, item.end);
        lemma_chain(tokens, i, item, items_step(tokens, item.end));
    }
}

/// The text of the tree of a patch file is the text of its tokens, one
/// after another.
pub proof fn lemma_tree_covers_tokens(tokens: Seq<(SyntaxKind, Seq<u8>)>)
    ensures
        patch_tree(tokens).text() == concat(token_texts(tokens)),
{
    lemma_items_cover(tokens, 0);
    lemma_between_from_start(tokens, tokens.len() as int);
    lemma_text_upto_all(tokens, tokens.len() as int);
    assert(token_texts(tokens).subrange(0, tokens.len() as int) =~= token_texts(tokens));
}

/// The tree of a patch file holds the bytes of the file, each once and in
/// order, whatever the bytes are.
pub proof fn lemma_round_trip(bytes: Seq<u8>)
    ensures
        patch_tree(tokens_of(bytes)).text() == bytes,
{
    lemma_tree_covers_tokens(tokens_of(bytes));
    lemma_lex_round_trip(bytes);
}

} // verus!
