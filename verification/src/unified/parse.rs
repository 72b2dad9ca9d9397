//! Reading the patch of one file from its lines.
use crate::bytes::{
    concat, equal, find_byte, first_index_from, has_prefix, has_suffix, lemma_concat_append,
    lemma_concat_one,
    lemma_first_index_from, lemma_first_index_is, slice_views, starts_with, to_vec, LF, TAB,
};
use crate::unified::hunk::{
    mod_count, orig_count, parse_header_spec, HeaderFault, Hunk, HunkView,
};
use crate::unified::line::{line_views, parse_line_spec, HunkLine, LineView, NO_NL};
use crate::unified::patch::{
    AnyPatchView, BinaryPatch, Error, ErrorView, PatchView, PlainOrBinaryPatch, UnifiedPatch,
};
use vstd::prelude::*;
use vstd::slice::slice_subrange;
use vstd::string::StringExecFns;

verus! {

/// What introduces the header line of the original file: `--- `.
pub const OLD_PREFIX: [u8; 4] = [0x2d, 0x2d, 0x2d, 0x20];

/// What introduces the header line of the modified file: `+++ `.
pub const NEW_PREFIX: [u8; 4] = [0x2b, 0x2b, 0x2b, 0x20];

/// What introduces the line that reports two binary files: `Binary files `.
pub const BINARY_PREFIX: [u8; 13] = [
    0x42, 0x69, 0x6e, 0x61, 0x72, 0x79, 0x20, 0x66, 0x69, 0x6c, 0x65, 0x73, 0x20,
];

/// What stands between the two names of binary files: ` and `.
pub const BINARY_AND: [u8; 5] = [0x20, 0x61, 0x6e, 0x64, 0x20];

/// What follows the two names of binary files: ` differ`.
pub const BINARY_DIFFER: [u8; 7] = [0x20, 0x64, 0x69, 0x66, 0x66, 0x65, 0x72];

/// The lines of `data`: each runs up to and including the next line feed,
/// the last one to the end of the data.
pub open spec fn split_lines(data: Seq<u8>) -> Seq<Seq<u8>>
    decreases data.len(),
{
    if data.len() == 0 {
        Seq::empty()
    } else {
        let n = first_index_from(data, LF, 0);
        if n < 0 || n >= data.len() {
            seq![data]
        } else {
            seq![data.subrange(0, n + 1)] + split_lines(data.subrange(n + 1, data.len() as int))
        }
    }
}

/// The lines of a text, put together again, are the text. No line is empty,
/// a line feed stands only at the end of a line, and every line but the last
/// ends in one.
pub proof fn lemma_split_lines(data: Seq<u8>)
    ensures
        concat(split_lines(data)) == data,
        forall|i: int| 0 <= i < split_lines(data).len() ==> (#[trigger] split_lines(data)[i]).len() > 0,
        forall|i: int, j: int|
            0 <= i < split_lines(data).len() && 0 <= j < split_lines(data)[i].len() - 1
                ==> (#[trigger] split_lines(data)[i][j]) != LF,
        forall|i: int|
            0 <= i < split_lines(data).len() - 1 ==> (#[trigger] split_lines(data)[i]).last() == LF,
    decreases data.len(),
{
    if data.len() == 0 {
    } else {
        let n = first_index_from(data, LF, 0);
        lemma_first_index_from(data, LF, 0);
        if n >= data.len() {
            lemma_concat_one(data);
        } else {
            let head = data.subrange(0, n + 1);
            let rest = data.subrange(n + 1, data.len() as int);
            lemma_split_lines(rest);
            lemma_concat_append(seq![head], split_lines(rest));
            lemma_concat_one(head);
            assert(head + rest =~= data);
            let all = split_lines(data);
            assert forall|i: int, j: int| 0 <= i < all.len() && 0 <= j < all[i].len() - 1 implies (
            #[trigger] all[i][j]) != LF by {
                if i == 0 {
                    assert(all[0][j] == data[j]);
                } else {
                    assert(all[i] == split_lines(rest)[i - 1]);
                }
            }
            assert forall|i: int| 0 <= i < all.len() - 1 implies (#[trigger] all[i]).last()
                == LF by {
                if i > 0 {
                    assert(all[i] == split_lines(rest)[i - 1]);
                }
            }
            assert forall|i: int| 0 <= i < all.len() implies (#[trigger] all[i]).len() > 0 by {
                if i > 0 {
                    assert(all[i] == split_lines(rest)[i - 1]);
                }
            }
        }
    }
}

/// A text has no more lines than bytes.
pub proof fn lemma_split_lines_count(data: Seq<u8>)
    ensures
        split_lines(data).len() <= data.len(),
    decreases data.len(),
{
    if data.len() > 0 {
        let n = first_index_from(data, LF, 0);
        lemma_first_index_from(data, LF, 0);
        if n < data.len() {
            lemma_split_lines_count(data.subrange(n + 1, data.len() as int));
        }
    }
}

/// Split lines but preserve trailing newlines
pub fn splitlines<'a>(data: &'a [u8]) -> (r: Vec<&'a [u8]>)
    ensures
        slice_views(r@) == split_lines(data@),
{
    let mut lines: Vec<&'a [u8]> = Vec::new();
    let mut start: usize = 0;
    proof {
        assert(data@.subrange(0, data@.len() as int) =~= data@);
        assert(slice_views(lines@) + split_lines(data@) =~= split_lines(data@));
    }
    while start < data.len()
        invariant
            start <= data.len(),
            split_lines(data@) == slice_views(lines@) + split_lines(
                data@.subrange(start as int, data@.len() as int),
            ),
        decreases data.len() - start,
    {
        let n = find_byte(data, LF, start);
        let end = if n < data.len() {
            n + 1
        } else {
            n
        };
        let line = slice_subrange(data, start, end);
        proof {
            let rest = data@.subrange(start as int, data@.len() as int);
            lemma_first_index_from(data@, LF, start as int);
            lemma_first_index_is(rest, LF, 0, n - start);
            if n < data.len() {
                assert(rest.subrange(0, n - start + 1) =~= line@);
                assert(rest.subrange(n - start + 1, rest.len() as int) =~= data@.subrange(
                    end as int,
                    data@.len() as int,
                ));
            } else {
                assert(rest =~= line@);
                assert(split_lines(data@.subrange(end as int, data@.len() as int)) =~= Seq::<
                    Seq<u8>,
                >::empty());
            }
            assert(slice_views(lines@.push(line)) =~= slice_views(lines@) + seq![line@]);
            assert(slice_views(lines@) + (seq![line@] + split_lines(
                data@.subrange(end as int, data@.len() as int),
            )) =~= slice_views(lines@) + seq![line@] + split_lines(
                data@.subrange(end as int, data@.len() as int),
            ));
        }
        lines.push(line);
        start = end;
    }
    assert(slice_views(lines@) + Seq::<Seq<u8>>::empty() =~= slice_views(lines@));
    lines
}

/// The lines without the no-newline markers: a marker takes the final line
/// feed off the line before it. `None` where a marker has no line before it,
/// or where that line does not end in a line feed.
pub open spec fn fold_markers(lines: Seq<Seq<u8>>) -> Option<Seq<Seq<u8>>>
    decreases lines.len(),
{
    if lines.len() == 0 {
        Some(Seq::empty())
    } else {
        match fold_markers(lines.drop_last()) {
            None => None,
            Some(done) => if lines.last() == NO_NL@ {
                if done.len() > 0 && has_suffix(done.last(), seq![LF]) {
                    Some(done.drop_last().push(done.last().drop_last()))
                } else {
                    None
                }
            } else {
                Some(done.push(lines.last()))
            },
        }
    }
}

/// The lines that a reader has in hand who folds the markers while
/// reading: all lines, folded, where every marker can be folded; else the
/// folded lines before the first marker that cannot be folded, without the
/// last of them, which the reader still holds back for a marker.
pub open spec fn available(lines: Seq<Seq<u8>>) -> Seq<Seq<u8>>
    decreases lines.len(),
{
    if lines.len() == 0 {
        Seq::empty()
    } else {
        match fold_markers(lines.drop_last()) {
            None => available(lines.drop_last()),
            Some(done) => match fold_markers(lines) {
                Some(folded) => folded,
                None => if done.len() > 0 {
                    done.drop_last()
                } else {
                    done
                },
            },
        }
    }
}

/// Folds the no-newline markers into the lines before them as far as
/// that can be done, and says whether it could be done for all.
pub fn fold_available<'a>(lines: &[&'a [u8]]) -> (r: (Vec<&'a [u8]>, bool))
    ensures
        r.1 == (fold_markers(slice_views(lines@)) is Some),
        slice_views(r.0@) == available(slice_views(lines@)),
{
    let mut done: Vec<&'a [u8]> = Vec::new();
    let mut i: usize = 0;
    while i < lines.len()
        invariant
            i <= lines.len(),
            fold_markers(slice_views(lines@).subrange(0, i as int)) == Some(slice_views(done@)),
        decreases lines.len() - i,
    {
        let line = lines[i];
        proof {
            let next = slice_views(lines@).subrange(0, i + 1);
            assert(next.drop_last() =~= slice_views(lines@).subrange(0, i as int));
            assert(next.last() == line@);
        }
        if equal(line, NO_NL.as_slice()) {
            if done.len() == 0 {
                proof {
                    lemma_fold_markers_fails(slice_views(lines@), i + 1);
                    lemma_available_stays(slice_views(lines@), i + 1);
                }
                return (done, false);
            }
            let last = done[done.len() - 1];
            if last.len() == 0 || last[last.len() - 1] != LF {
                proof {
                    if last@.len() > 0 {
                        assert(last@.subrange(last@.len() - 1, last@.len() as int)[0]
                            == last@[last@.len() - 1]);
                    }
                    lemma_fold_markers_fails(slice_views(lines@), i + 1);
                    lemma_available_stays(slice_views(lines@), i + 1);
                }
                let ghost before = done@;
                done.pop();
                proof {
                    assert(slice_views(done@) =~= slice_views(before).drop_last());
                }
                return (done, false);
            }
            let stripped = slice_subrange(last, 0, last.len() - 1);
            let ghost before = done@;
            done.pop();
            done.push(stripped);
            proof {
                assert(last@.subrange(last@.len() - 1, last@.len() as int) =~= seq![LF]);
                assert(stripped@ =~= last@.drop_last());
                assert(slice_views(done@) =~= slice_views(before).drop_last().push(
                    slice_views(before).last().drop_last(),
                ));
            }
        } else {
            proof {
                assert(slice_views(done@.push(line)) =~= slice_views(done@).push(line@));
            }
            done.push(line);
        }
        i += 1;
    }
    assert(slice_views(lines@).subrange(0, lines@.len() as int) =~= slice_views(lines@));
    (done, true)
}

/// Folds the no-newline markers into the lines before them, where that can
/// be done.
pub fn try_lines_handle_nl<'a>(lines: &[&'a [u8]]) -> (r: Option<Vec<&'a [u8]>>)
    ensures
        match fold_markers(slice_views(lines@)) {
            Some(folded) => r is Some && slice_views(r.unwrap()@) == folded,
            None => r is None,
        },
{
    let (done, whole) = fold_available(lines);
    if whole {
        Some(done)
    } else {
        None
    }
}

/// What a reader has in hand before a marker that cannot be folded does
/// not depend on the lines behind that marker.
proof fn lemma_available_stays(lines: Seq<Seq<u8>>, n: int)
    requires
        0 < n <= lines.len(),
        fold_markers(lines.subrange(0, n)) is None,
    ensures
        available(lines) == available(lines.subrange(0, n)),
    decreases lines.len() - n,
{
    if n == lines.len() {
        assert(lines.subrange(0, n) =~= lines);
    } else {
        assert(lines.drop_last().subrange(0, n) =~= lines.subrange(0, n));
        lemma_fold_markers_fails(lines.drop_last(), n);
        lemma_available_stays(lines.drop_last(), n);
    }
}

/// Once a prefix of the lines cannot be folded, the whole cannot.
proof fn lemma_fold_markers_fails(lines: Seq<Seq<u8>>, n: int)
    requires
        0 <= n <= lines.len(),
        fold_markers(lines.subrange(0, n)) is None,
    ensures
        fold_markers(lines) is None,
    decreases lines.len() - n,
{
    if n == lines.len() {
        assert(lines.subrange(0, n) =~= lines);
    } else {
        assert(lines.subrange(0, n + 1).drop_last() =~= lines.subrange(0, n));
        lemma_fold_markers_fails(lines, n + 1);
    }
}

/// Iterate through a series of lines, ensuring that lines
/// that originally had no terminating newline are produced
/// without one.
pub fn iter_lines_handle_nl<'a>(lines: &[&'a [u8]]) -> (r: Vec<&'a [u8]>)
    requires
        fold_markers(slice_views(lines@)) is Some,
    ensures
        Some(slice_views(r@)) == fold_markers(slice_views(lines@)),
{
    match try_lines_handle_nl(lines) {
        Some(folded) => folded,
        None => Vec::new(),
    }
}

/// `pat` stands in `s` at index `i`.
pub open spec fn occurs_at(s: Seq<u8>, pat: Seq<u8>, i: int) -> bool {
    0 <= i && i + pat.len() <= s.len() && s.subrange(i, i + pat.len()) == pat
}

/// The last index between `lo` and `hi`, both included, at which `pat`
/// stands in `s`; -1 when there is none.
pub open spec fn last_occurrence(s: Seq<u8>, pat: Seq<u8>, lo: int, hi: int) -> int
    decreases hi - lo + 1,
{
    if hi < lo {
        -1
    } else if occurs_at(s, pat, hi) {
        hi
    } else {
        last_occurrence(s, pat, lo, hi - 1)
    }
}

/// The two names on a line `Binary files X and Y differ`: the line starts
/// with `Binary files `; `Y` ends before the last ` differ` of the first
/// line of the text, and `X` before the last ` and ` that leaves both names
/// at least one byte.
pub open spec fn binary_names(line: Seq<u8>) -> Option<(Seq<u8>, Seq<u8>)> {
    if !has_prefix(line, BINARY_PREFIX@) {
        None
    } else {
        let end = first_index_from(line, LF, 0);
        let d = last_occurrence(line, BINARY_DIFFER@, 20, end - 7);
        let a = last_occurrence(line, BINARY_AND@, 14, d - 6);
        if d < 0 || a < 0 {
            None
        } else {
            Some((line.subrange(13, a), line.subrange(a + 5, d)))
        }
    }
}

/// The last index between `lo` and `hi` at which `pat` stands in `s`.
fn find_last(s: &[u8], pat: &[u8], lo: usize, hi: usize) -> (r: Option<usize>)
    ensures
        match r {
            Some(i) => i == last_occurrence(s@, pat@, lo as int, hi as int) && lo <= i <= hi
                && i + pat@.len() <= s@.len(),
            None => last_occurrence(s@, pat@, lo as int, hi as int) == -1,
        },
{
    if hi < lo {
        return None;
    }
    let mut i: usize = hi;
    loop
        invariant
            lo <= i <= hi,
            last_occurrence(s@, pat@, lo as int, hi as int) == last_occurrence(
                s@,
                pat@,
                lo as int,
                i as int,
            ),
        decreases i - lo,
    {
        if pat.len() <= s.len() && i <= s.len() - pat.len() && equal(
            slice_subrange(s, i, i + pat.len()),
            pat,
        ) {
            assert(occurs_at(s@, pat@, i as int));
            return Some(i);
        }
        assert(!occurs_at(s@, pat@, i as int));
        if i == lo {
            assert(last_occurrence(s@, pat@, lo as int, i - 1) == -1);
            return None;
        }
        i -= 1;
    }
}

/// The names of two binary files as a line `Binary files X and Y differ`
/// reports them.
pub fn binary_file_names(line: &[u8]) -> (r: Option<(Vec<u8>, Vec<u8>)>)
    ensures
        match binary_names(line@) {
            Some((a, b)) => r is Some && r.unwrap().0@ == a && r.unwrap().1@ == b,
            None => r is None,
        },
{
    if !starts_with(line, BINARY_PREFIX.as_slice()) {
        return None;
    }
    let end = find_byte(line, LF, 0);
    if end < 27 {
        return None;
    }
    let d = match find_last(line, BINARY_DIFFER.as_slice(), 20, end - 7) {
        Some(d) => d,
        None => {
            return None;
        },
    };
    let a = match find_last(line, BINARY_AND.as_slice(), 14, d - 6) {
        Some(a) => a,
        None => {
            return None;
        },
    };
    Some((to_vec(slice_subrange(line, 13, a)), to_vec(slice_subrange(line, a + 5, d))))
}

/// A name and, behind the first tab, a timestamp.
pub open spec fn split_name(rest: Seq<u8>) -> (Seq<u8>, Option<Seq<u8>>) {
    let t = first_index_from(rest, TAB, 0);
    if t >= rest.len() {
        (rest, None)
    } else {
        (rest.subrange(0, t), Some(rest.subrange(t + 1, rest.len() as int)))
    }
}

/// The two file names of a patch, each with its timestamp if it has one.
pub type Names = ((Vec<u8>, Option<Vec<u8>>), (Vec<u8>, Option<Vec<u8>>));

/// `Names` as a mathematical value.
pub type NamesView = ((Seq<u8>, Option<Seq<u8>>), (Seq<u8>, Option<Seq<u8>>));

/// The view of the names of a patch.
pub open spec fn names_view(n: Names) -> NamesView {
    ((n.0.0@, crate::unified::patch::opt_view(n.0.1)), (n.1.0@, crate::unified::patch::opt_view(n.1.1)))
}

/// What the first two lines say of the files of a patch.
pub open spec fn patch_names_spec(lines: Seq<Seq<u8>>) -> Result<NamesView, ErrorView> {
    if lines.len() == 0 {
        Err(ErrorView::PatchSyntax("No input"@, Seq::empty()))
    } else if binary_names(lines[0]) is Some {
        Err(ErrorView::BinaryFiles(binary_names(lines[0]).unwrap().0, binary_names(lines[0]).unwrap().1))
    } else if !has_prefix(lines[0], OLD_PREFIX@) {
        Err(ErrorView::MalformedPatchHeader("No orig name"@, lines[0]))
    } else if !has_suffix(lines[0].subrange(4, lines[0].len() as int), seq![LF]) {
        Err(ErrorView::PatchSyntax("missing newline"@, lines[0]))
    } else if lines.len() == 1 {
        Err(ErrorView::PatchSyntax("No input"@, Seq::empty()))
    } else if !has_prefix(lines[1], NEW_PREFIX@) {
        Err(ErrorView::MalformedPatchHeader("No mod line"@, lines[1]))
    } else if !has_suffix(lines[1].subrange(4, lines[1].len() as int), seq![LF]) {
        Err(ErrorView::PatchSyntax("missing newline"@, lines[1].subrange(4, lines[1].len() as int)))
    } else {
        Ok(
            (
                split_name(lines[0].subrange(4, lines[0].len() - 1)),
                split_name(lines[1].subrange(4, lines[1].len() - 1)),
            ),
        )
    }
}

/// Splits what stands between the prefix and the newline of a header line.
fn split_header_name(rest: &[u8]) -> (r: (Vec<u8>, Option<Vec<u8>>))
    ensures
        (r.0@, crate::unified::patch::opt_view(r.1)) == split_name(rest@),
{
    let t = find_byte(rest, TAB, 0);
    if t >= rest.len() {
        (to_vec(rest), None)
    } else {
        (to_vec(slice_subrange(rest, 0, t)), Some(to_vec(slice_subrange(rest, t + 1, rest.len()))))
    }
}

/// Get the names of the files in a patch
pub fn get_patch_names(lines: &[&[u8]]) -> (r: Result<Names, Error>)
    ensures
        match patch_names_spec(slice_views(lines@)) {
            Ok(names) => r is Ok && names_view(r.unwrap()) == names,
            Err(e) => r is Err && r.unwrap_err()@ == e,
        },
{
    if lines.len() == 0 {
        return Err(Error::PatchSyntax("No input", Vec::new()));
    }
    let line = lines[0];
    if let Some((orig_name, mod_name)) = binary_file_names(line) {
        return Err(Error::BinaryFiles(orig_name, mod_name));
    }
    if !starts_with(line, OLD_PREFIX.as_slice()) {
        return Err(Error::MalformedPatchHeader("No orig name", to_vec(line)));
    }
    let rest = slice_subrange(line, 4, line.len());
    if rest.len() == 0 || rest[rest.len() - 1] != LF {
        proof {
            if rest@.len() > 0 {
                assert(rest@.subrange(rest@.len() - 1, rest@.len() as int)[0] == rest@[rest@.len()
                    - 1]);
            }
        }
        return Err(Error::PatchSyntax("missing newline", to_vec(line)));
    }
    assert(rest@.subrange(rest@.len() - 1, rest@.len() as int) =~= seq![LF]);
    let orig = split_header_name(slice_subrange(rest, 0, rest.len() - 1));
    assert(rest@.subrange(0, rest@.len() - 1) =~= line@.subrange(4, line@.len() - 1));
    if lines.len() == 1 {
        return Err(Error::PatchSyntax("No input", Vec::new()));
    }
    let line = lines[1];
    if !starts_with(line, NEW_PREFIX.as_slice()) {
        return Err(Error::MalformedPatchHeader("No mod line", to_vec(line)));
    }
    let rest = slice_subrange(line, 4, line.len());
    if rest.len() == 0 || rest[rest.len() - 1] != LF {
        proof {
            if rest@.len() > 0 {
                assert(rest@.subrange(rest@.len() - 1, rest@.len() as int)[0] == rest@[rest@.len()
                    - 1]);
            }
        }
        return Err(Error::PatchSyntax("missing newline", to_vec(rest)));
    }
    assert(rest@.subrange(rest@.len() - 1, rest@.len() as int) =~= seq![LF]);
    let modi = split_header_name(slice_subrange(rest, 0, rest.len() - 1));
    assert(rest@.subrange(0, rest@.len() - 1) =~= line@.subrange(4, line@.len() - 1));
    Ok((orig, modi))
}

/// How the lines of a hunk end.
pub enum Body {
    /// Both counts of the header were reached: the lines, and the index of
    /// the line behind them.
    Complete(Seq<LineView>, int),
    /// The text ended before the counts were reached.
    Truncated,
    /// A line that is no hunk line.
    Invalid(Seq<u8>),
}

/// Reads hunk lines from index `i` until `orig_left` lines of the original
/// file and `mod_left` lines of the modified file have been read. A line
/// that belongs to a file of which no line is left to read is no line of the
/// hunk.
pub open spec fn hunk_body(
    lines: Seq<Seq<u8>>,
    i: int,
    orig_left: int,
    mod_left: int,
    read: Seq<LineView>,
) -> Body
    decreases lines.len() - i,
{
    if orig_left <= 0 && mod_left <= 0 {
        Body::Complete(read, i)
    } else if i < 0 || i >= lines.len() {
        Body::Truncated
    } else {
        match parse_line_spec(lines[i]) {
            None => Body::Invalid(lines[i]),
            Some(l) => if (l.in_orig() && orig_left <= 0) || (l.in_mod() && mod_left <= 0) {
                Body::Invalid(lines[i])
            } else {
                hunk_body(
                lines,
                i + 1,
                orig_left - if l.in_orig() {
                    1int
                } else {
                    0int
                },
                mod_left - if l.in_mod() {
                    1int
                } else {
                    0int
                },
                read.push(l),
            )
            },
        }
    }
}

/// The lines of a hunk that is read to its end are as many as were still
/// to read, of either file.
pub proof fn lemma_hunk_body_counts(
    lines: Seq<Seq<u8>>,
    i: int,
    orig_left: int,
    mod_left: int,
    read: Seq<LineView>,
)
    requires
        0 <= i <= lines.len(),
        0 <= orig_left,
        0 <= mod_left,
    ensures
        match hunk_body(lines, i, orig_left, mod_left, read) {
            Body::Complete(all, _) => orig_count(all) == orig_count(read) + orig_left
                && mod_count(all) == mod_count(read) + mod_left,
            _ => true,
        },
    decreases lines.len() - i,
{
    if !(orig_left <= 0 && mod_left <= 0) && i < lines.len() {
        match parse_line_spec(lines[i]) {
            None => {},
            Some(l) => {
                if !((l.in_orig() && orig_left <= 0) || (l.in_mod() && mod_left <= 0)) {
                    assert(read.push(l).drop_last() =~= read);
                    lemma_hunk_body_counts(
                        lines,
                        i + 1,
                        orig_left - if l.in_orig() {
                            1int
                        } else {
                            0int
                        },
                        mod_left - if l.in_mod() {
                            1int
                        } else {
                            0int
                        },
                        read.push(l),
                    );
                }
            },
        }
    }
}

/// The lines of a hunk end at or behind the index at which they start.
pub proof fn lemma_hunk_body_end(
    lines: Seq<Seq<u8>>,
    i: int,
    orig_left: int,
    mod_left: int,
    read: Seq<LineView>,
)
    requires
        0 <= i <= lines.len(),
    ensures
        match hunk_body(lines, i, orig_left, mod_left, read) {
            Body::Complete(_, next) => i <= next <= lines.len(),
            _ => true,
        },
    decreases lines.len() - i,
{
    if !(orig_left <= 0 && mod_left <= 0) && i < lines.len() {
        match parse_line_spec(lines[i]) {
            None => {},
            Some(l) => {
                lemma_hunk_body_end(
                    lines,
                    i + 1,
                    orig_left - if l.in_orig() {
                        1int
                    } else {
                        0int
                    },
                    mod_left - if l.in_mod() {
                        1int
                    } else {
                        0int
                    },
                    read.push(l),
                );
            },
        }
    }
}

/// The hunks that the lines from index `i` hold. Lines that are a single
/// line feed are passed over between hunks; a hunk that the end of the text
/// cuts short is left out, and ends the reading.
pub open spec fn hunks_from(lines: Seq<Seq<u8>>, i: int) -> Result<Seq<HunkView>, ErrorView>
    decreases lines.len() - i,
{
    if i < 0 || i >= lines.len() {
        Ok(Seq::empty())
    } else if lines[i] == seq![LF] {
        hunks_from(lines, i + 1)
    } else {
        match parse_header_spec(lines[i]) {
            Err(fault) => Err(ErrorView::MalformedHunkHeader(fault.message(), lines[i])),
            Ok(h) => match hunk_body(
                lines,
                i + 1,
                h.orig_range as int,
                h.mod_range as int,
                Seq::empty(),
            ) {
                Body::Truncated => Ok(Seq::empty()),
                Body::Invalid(l) => Err(ErrorView::PatchSyntax("Invalid hunk line"@, l)),
                Body::Complete(read, next) => {
                    proof {
                        lemma_hunk_body_end(
                            lines,
                            i + 1,
                            h.orig_range as int,
                            h.mod_range as int,
                            Seq::empty(),
                        );
                    }
                    match hunks_from(lines, next) {
                        Err(e) => Err(e),
                        Ok(rest) => Ok(seq![HunkView { lines: read, ..h }] + rest),
                    }
                },
            },
        }
    }
}

/// Every hunk that is read has as many lines of either file as its header
/// counts.
pub proof fn lemma_hunks_well_formed(lines: Seq<Seq<u8>>, i: int)
    requires
        0 <= i <= lines.len(),
    ensures
        match hunks_from(lines, i) {
            Ok(hunks) => forall|k: int| 0 <= k < hunks.len() ==> (#[trigger] hunks[k]).well_formed(),
            Err(_) => true,
        },
    decreases lines.len() - i,
{
    if i < lines.len() {
        if lines[i] == seq![LF] {
            lemma_hunks_well_formed(lines, i + 1);
        } else {
            match parse_header_spec(lines[i]) {
                Err(_) => {},
                Ok(h) => {
                    let none = Seq::<LineView>::empty();
                    lemma_hunk_body_end(
                        lines,
                        i + 1,
                        h.orig_range as int,
                        h.mod_range as int,
                        none,
                    );
                    lemma_hunk_body_counts(
                        lines,
                        i + 1,
                        h.orig_range as int,
                        h.mod_range as int,
                        none,
                    );
                    match hunk_body(lines, i + 1, h.orig_range as int, h.mod_range as int, none) {
                        Body::Complete(read, next) => {
                            lemma_hunks_well_formed(lines, next);
                            match hunks_from(lines, next) {
                                Ok(rest) => {
                                    let first = HunkView { lines: read, ..h };
                                    let all = seq![first] + rest;
                                    assert(first.well_formed());
                                    assert forall|k: int| 0 <= k < all.len() implies (
                                    #[trigger] all[k]).well_formed() by {
                                        if k > 0 {
                                            assert(all[k] == rest[k - 1]);
                                        }
                                    }
                                },
                                Err(_) => {},
                            }
                        },
                        _ => {},
                    }
                },
            }
        }
    }
}

/// The hunks read so far, followed by what the rest of the lines holds.
pub open spec fn then_hunks(
    done: Seq<HunkView>,
    rest: Result<Seq<HunkView>, ErrorView>,
) -> Result<Seq<HunkView>, ErrorView> {
    match rest {
        Ok(hunks) => Ok(done + hunks),
        Err(e) => Err(e),
    }
}

/// Reads the hunks that the lines from index `start` hold.
#[verifier::rlimit(60)]
pub fn hunks_from_lines(lines: &[&[u8]], start: usize) -> (r: Result<Vec<Hunk>, Error>)
    ensures
        match hunks_from(slice_views(lines@), start as int) {
            Ok(hunks) => r is Ok && crate::unified::hunk::hunk_views(r.unwrap()@) == hunks,
            Err(e) => r is Err && r.unwrap_err()@ == e,
        },
{
    let ghost all = slice_views(lines@);
    let mut hunks: Vec<Hunk> = Vec::new();
    let mut i: usize = start;
    while i < lines.len()
        invariant
            all == slice_views(lines@),
            hunks_from(all, start as int) == then_hunks(
                crate::unified::hunk::hunk_views(hunks@),
                hunks_from(all, i as int),
            ),
        decreases lines.len() - i,
    {
        let line = lines[i];
        assert(all[i as int] == line@);
        if line.len() == 1 && line[0] == LF {
            assert(line@ =~= seq![LF]);
            i += 1;
            continue ;
        }
        let mut hunk = match Hunk::from_header(line) {
            Ok(hunk) => hunk,
            Err(e) => {
                return Err(Error::MalformedHunkHeader(String::from_str(e.0), e.1));
            },
        };
        let ghost header = hunk@;
        let mut orig_size: usize = 0;
        let mut mod_size: usize = 0;
        let mut j: usize = i + 1;
        assert(hunk@.lines.len() == 0);
        assert(hunk.lines@.len() == 0);
        assert(line_views(hunk.lines@) =~= Seq::empty());
        while orig_size < hunk.orig_range || mod_size < hunk.mod_range
            invariant
                all == slice_views(lines@),
                i < j <= lines.len(),
                all[i as int] != seq![LF],
                parse_header_spec(all[i as int]) == Ok::<HunkView, HeaderFault>(header),
                hunks_from(all, start as int) == then_hunks(
                    crate::unified::hunk::hunk_views(hunks@),
                    hunks_from(all, i as int),
                ),
                orig_size <= j - i - 1,
                mod_size <= j - i - 1,
                orig_size <= header.orig_range,
                mod_size <= header.mod_range,
                hunk@ == (HunkView { lines: line_views(hunk.lines@), ..header }),
                hunk_body(
                    all,
                    i + 1,
                    header.orig_range as int,
                    header.mod_range as int,
                    Seq::empty(),
                ) == hunk_body(
                    all,
                    j as int,
                    header.orig_range - orig_size,
                    header.mod_range - mod_size,
                    line_views(hunk.lines@),
                ),
            decreases lines.len() - j,
        {
            if j >= lines.len() {
                let ghost done = crate::unified::hunk::hunk_views(hunks@);
                assert(done + Seq::<HunkView>::empty() =~= done);
                return Ok(hunks);
            }
            let body_line = lines[j];
            assert(all[j as int] == body_line@);
            match HunkLine::parse_line(body_line) {
                Err(_) => {
                    return Err(Error::PatchSyntax("Invalid hunk line", to_vec(body_line)));
                },
                Ok(hunk_line) => {
                    let (in_orig, in_mod) = match &hunk_line {
                        HunkLine::RemoveLine(_) => (true, false),
                        HunkLine::InsertLine(_) => (false, true),
                        HunkLine::ContextLine(_) => (true, true),
                    };
                    if (in_orig && orig_size >= hunk.orig_range) || (in_mod && mod_size
                        >= hunk.mod_range) {
                        return Err(Error::PatchSyntax("Invalid hunk line", to_vec(body_line)));
                    }
                    match &hunk_line {
                        HunkLine::RemoveLine(_) => {
                            orig_size += 1;
                        },
                        HunkLine::InsertLine(_) => {
                            mod_size += 1;
                        },
                        HunkLine::ContextLine(_) => {
                            orig_size += 1;
                            mod_size += 1;
                        },
                    }
                    proof {
                        assert(line_views(hunk.lines@.push(hunk_line)) =~= line_views(
                            hunk.lines@,
                        ).push(hunk_line@));
                    }
                    hunk.lines.push(hunk_line);
                },
            }
            j += 1;
        }
        proof {
            let done = crate::unified::hunk::hunk_views(hunks@);
            let rest = hunks_from(all, j as int);
            assert(crate::unified::hunk::hunk_views(hunks@.push(hunk)) =~= done.push(hunk@));
            match rest {
                Ok(more) => {
                    assert(done + (seq![hunk@] + more) =~= done.push(hunk@) + more);
                },
                Err(_) => {},
            }
        }
        hunks.push(hunk);
        i = j;
    }
    proof {
        let done = crate::unified::hunk::hunk_views(hunks@);
        assert(done + Seq::<HunkView>::empty() =~= done);
    }
    Ok(hunks)
}

/// Iterate over the hunks in a patch
///
/// # Arguments
/// * `lines`: the lines of the patch behind its two header lines
pub fn iter_hunks(lines: &[&[u8]]) -> (r: Result<Vec<Hunk>, Error>)
    ensures
        match hunks_from(slice_views(lines@), 0) {
            Ok(hunks) => r is Ok && crate::unified::hunk::hunk_views(r.unwrap()@) == hunks,
            Err(e) => r is Err && r.unwrap_err()@ == e,
        },
        r is Ok ==> forall|k: int|
            0 <= k < r.unwrap()@.len() ==> (#[trigger] r.unwrap()@[k])@.well_formed(),
{
    proof {
        lemma_hunks_well_formed(slice_views(lines@), 0);
    }
    let r = hunks_from_lines(lines, 0);
    proof {
        if r is Ok {
            let views = crate::unified::hunk::hunk_views(r.unwrap()@);
            assert forall|k: int| 0 <= k < r.unwrap()@.len() implies (
            #[trigger] r.unwrap()@[k])@.well_formed() by {
                assert(views[k] == r.unwrap()@[k]@);
            }
        }
    }
    r
}

/// The reader of the header lines has run out of lines: there is none, or
/// there is one that is a sound header of the old file.
pub open spec fn names_ran_out(lines: Seq<Seq<u8>>) -> bool {
    lines.len() == 0 || (lines.len() == 1 && binary_names(lines[0]) is None && has_prefix(
        lines[0],
        OLD_PREFIX@,
    ) && has_suffix(lines[0].subrange(4, lines[0].len() as int), seq![LF]))
}

/// The error for a marker that cannot be folded.
pub open spec fn marker_fault() -> ErrorView {
    ErrorView::PatchSyntax("No newline indicator without previous line"@, NO_NL@)
}

/// What the lines of one file's patch say. The lines are read one after
/// another, with the markers folded: the first two name the files, the rest
/// holds the hunks. A marker that cannot be folded is a syntax error, unless
/// a line that is read before it has given another error.
pub open spec fn unified_patch_spec(lines: Seq<Seq<u8>>) -> Result<PatchView, ErrorView> {
    let whole = fold_markers(lines) is Some;
    let read = available(lines);
    if !whole && names_ran_out(read) {
        Err(marker_fault())
    } else {
        match patch_names_spec(read) {
            Err(e) => Err(e),
            Ok(names) => match hunks_from(read, 2) {
                Err(e) => Err(e),
                Ok(hunks) => if whole {
                    Ok(
                        PatchView {
                            orig_name: names.0.0,
                            orig_ts: names.0.1,
                            mod_name: names.1.0,
                            mod_ts: names.1.1,
                            hunks,
                        },
                    )
                } else {
                    Err(marker_fault())
                },
            },
        }
    }
}

/// As `unified_patch_spec`, but a line that reports two binary files makes
/// a binary patch, not an error.
pub open spec fn patch_spec(lines: Seq<Seq<u8>>) -> Result<AnyPatchView, ErrorView> {
    match unified_patch_spec(lines) {
        Ok(p) => Ok(AnyPatchView::Plain(p)),
        Err(ErrorView::BinaryFiles(a, b)) => Ok(AnyPatchView::Binary(a, b)),
        Err(e) => Err(e),
    }
}

impl UnifiedPatch {
    /// Parse a unified patch file
    ///
    /// # Arguments
    /// * `lines`: the lines of the patch
    pub fn parse_patch(lines: &[&[u8]]) -> (r: Result<Self, Error>)
        ensures
            match unified_patch_spec(slice_views(lines@)) {
                Ok(p) => r is Ok && r.unwrap()@ == p,
                Err(e) => r is Err && r.unwrap_err()@ == e,
            },
    {
        let (read, whole) = fold_available(lines);
        if !whole && Self::ran_out(read.as_slice()) {
            return Err(Self::marker_error());
        }
        let ((orig_name, orig_ts), (mod_name, mod_ts)) = match get_patch_names(read.as_slice()) {
            Ok(names) => names,
            Err(e) => {
                return Err(e);
            },
        };
        let mut patch = Self::new(orig_name, orig_ts, mod_name, mod_ts);
        match hunks_from_lines(read.as_slice(), 2) {
            Ok(hunks) => {
                if !whole {
                    return Err(Self::marker_error());
                }
                patch.hunks = hunks;
                Ok(patch)
            },
            Err(e) => Err(e),
        }
    }

    /// The error for a marker that cannot be folded.
    fn marker_error() -> (r: Error)
        ensures
            r@ == marker_fault(),
    {
        Error::PatchSyntax("No newline indicator without previous line", to_vec(NO_NL.as_slice()))
    }

    /// Whether the reader of the header lines has run out of lines.
    fn ran_out(lines: &[&[u8]]) -> (r: bool)
        ensures
            r == names_ran_out(slice_views(lines@)),
    {
        if lines.len() == 0 {
            return true;
        }
        if lines.len() > 1 {
            return false;
        }
        let line = lines[0];
        if binary_file_names(line).is_some() {
            return false;
        }
        if !starts_with(line, OLD_PREFIX.as_slice()) {
            return false;
        }
        let rest = slice_subrange(line, 4, line.len());
        proof {
            if rest@.len() > 0 {
                assert(rest@.subrange(rest@.len() - 1, rest@.len() as int)[0] == rest@[rest@.len()
                    - 1]);
                if rest@[rest@.len() - 1] == LF {
                    assert(rest@.subrange(rest@.len() - 1, rest@.len() as int) =~= seq![LF]);
                }
            }
        }
        rest.len() > 0 && rest[rest.len() - 1] == LF
    }
}

/// Parse a patch file
///
/// # Arguments
/// * `lines`: the lines of the patch
pub fn parse_patch(lines: &[&[u8]]) -> (r: Result<PlainOrBinaryPatch, Error>)
    ensures
        match patch_spec(slice_views(lines@)) {
            Ok(p) => r is Ok && r.unwrap()@ == p,
            Err(e) => r is Err && r.unwrap_err()@ == e,
        },
{
    match UnifiedPatch::parse_patch(lines) {
        Ok(patch) => Ok(PlainOrBinaryPatch::Plain(patch)),
        Err(Error::BinaryFiles(orig_name, mod_name)) => Ok(
            PlainOrBinaryPatch::Binary(BinaryPatch(orig_name, mod_name)),
        ),
        Err(e) => Err(e),
    }
}

} // verus!
