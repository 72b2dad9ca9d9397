//! Exact application of hunks to the lines of a file.
use crate::bytes::{concat, concat_vecs, equal, own_lines, to_vec, vec_views};
use crate::text::{decimal_chars, push_decimal, push_quoted, quoted_bytes};
use crate::unified::hunk::{hunk_views, mod_count, orig_count, Hunk, HunkView};
use crate::unified::line::{HunkLine, LineView};
use crate::unified::parse::{lemma_split_lines_count, split_lines, splitlines};
use crate::unified::patch::{BinaryPatch, PlainOrBinaryPatch, UnifiedPatch};
use crate::{ApplyError, ApplyFault, ContentPatch, SingleFilePatch};
use vstd::prelude::*;
use vstd::string::StringExecFns;

verus! {

/// Conflict applying a patch
#[derive(Debug, PartialEq, Eq)]
pub struct PatchConflict {
    /// The number of the line of the original file, counted from 1
    pub line_no: usize,
    /// The line found in the original file; empty where the file has ended
    pub orig_line: Vec<u8>,
    /// The line that the patch expects there
    pub patch_line: Vec<u8>,
}

/// A conflict as a mathematical value.
pub struct ConflictView {
    pub line_no: int,
    pub orig_line: Seq<u8>,
    pub patch_line: Seq<u8>,
}

impl View for PatchConflict {
    type V = ConflictView;

    open spec fn view(&self) -> ConflictView {
        ConflictView {
            line_no: self.line_no as int,
            orig_line: self.orig_line@,
            patch_line: self.patch_line@,
        }
    }
}

/// The text that reports a conflict: the number of the line, the line of
/// the original file and the line of the patch, both read as UTF-8 and
/// quoted.
pub open spec fn conflict_text(line_no: int, orig_line: Seq<u8>, patch_line: Seq<u8>) -> Seq<
    char,
> {
    "Patch conflict at orig line "@ + decimal_chars(line_no as nat) + ": orig: "@ + quoted_bytes(
        orig_line,
    ) + ", patch: "@ + quoted_bytes(patch_line)
}

impl PatchConflict {
    /// The conflict in words.
    pub fn message(&self) -> (r: String)
        ensures
            r@ == conflict_text(self@.line_no, self@.orig_line, self@.patch_line),
    {
        let mut text = String::from_str("Patch conflict at orig line ");
        push_decimal(&mut text, self.line_no as u64);
        text.append(": orig: ");
        push_quoted(&mut text, self.orig_line.as_slice());
        text.append(", patch: ");
        push_quoted(&mut text, self.patch_line.as_slice());
        text
    }
}

/// Applies the lines of a hunk from index `k` on, with `at` lines of the
/// original file consumed and `out` written so far. A context line and a
/// removal must equal the next original line and consume it; a context line
/// and an insertion are written. Gives the lines consumed and the output, or
/// the first conflict.
pub open spec fn apply_lines(
    orig: Seq<Seq<u8>>,
    at: int,
    lines: Seq<LineView>,
    k: int,
    out: Seq<Seq<u8>>,
) -> Result<(int, Seq<Seq<u8>>), ConflictView>
    decreases lines.len() - k,
{
    if k < 0 || k >= lines.len() {
        Ok((at, out))
    } else {
        match lines[k] {
            LineView::Insert(p) => apply_lines(orig, at, lines, k + 1, out.push(p)),
            other => if at < 0 || at >= orig.len() {
                Err(
                    ConflictView {
                        line_no: at + 1,
                        orig_line: Seq::empty(),
                        patch_line: other.payload(),
                    },
                )
            } else if orig[at] != other.payload() {
                Err(
                    ConflictView {
                        line_no: at + 1,
                        orig_line: orig[at],
                        patch_line: other.payload(),
                    },
                )
            } else {
                apply_lines(
                    orig,
                    at + 1,
                    lines,
                    k + 1,
                    if other is Context {
                        out.push(other.payload())
                    } else {
                        out
                    },
                )
            },
        }
    }
}

/// Where a hunk starts, with `at` lines consumed: at its own position, or
/// where the hunk before it ended if that is further on.
pub open spec fn hunk_start(at: int, h: HunkView) -> int {
    if at + 1 < h.orig_pos {
        h.orig_pos - 1
    } else {
        at
    }
}

/// Applies the hunks from index `n` on, with `at` lines of the original file
/// consumed and `out` written so far: the original lines up to the start of
/// a hunk are copied, then the hunk is applied; behind the last hunk the rest
/// of the file is copied. A hunk that starts behind the end of the file is a
/// conflict.
pub open spec fn apply_hunks(
    orig: Seq<Seq<u8>>,
    at: int,
    hunks: Seq<HunkView>,
    n: int,
    out: Seq<Seq<u8>>,
) -> Result<Seq<Seq<u8>>, ConflictView>
    decreases hunks.len() - n,
{
    if n < 0 || n >= hunks.len() {
        Ok(out + orig.subrange(at, orig.len() as int))
    } else if at < 0 || at > orig.len() {
        Ok(out)
    } else {
        let start = hunk_start(at, hunks[n]);
        if start > orig.len() {
            Err(
                ConflictView {
                    line_no: orig.len() as int + 2,
                    orig_line: Seq::empty(),
                    patch_line: Seq::empty(),
                },
            )
        } else {
            match apply_lines(orig, start, hunks[n].lines, 0, out + orig.subrange(at, start)) {
                Err(c) => Err(c),
                Ok((end, written)) => apply_hunks(orig, end, hunks, n + 1, written),
            }
        }
    }
}

/// What applying `hunks` to the lines `orig` gives.
pub open spec fn patched(orig: Seq<Seq<u8>>, hunks: Seq<HunkView>) -> Result<
    Seq<Seq<u8>>,
    ConflictView,
> {
    apply_hunks(orig, 0, hunks, 0, Seq::empty())
}

/// The payloads of the context lines and removals, in order: what a hunk
/// expects to find in the original file.
pub open spec fn old_side(lines: Seq<LineView>) -> Seq<Seq<u8>>
    decreases lines.len(),
{
    if lines.len() == 0 {
        Seq::empty()
    } else if lines.last().in_orig() {
        old_side(lines.drop_last()).push(lines.last().payload())
    } else {
        old_side(lines.drop_last())
    }
}

/// The payloads of the context lines and insertions, in order: what a hunk
/// leaves in the modified file.
pub open spec fn new_side(lines: Seq<LineView>) -> Seq<Seq<u8>>
    decreases lines.len(),
{
    if lines.len() == 0 {
        Seq::empty()
    } else if lines.last().in_mod() {
        new_side(lines.drop_last()).push(lines.last().payload())
    } else {
        new_side(lines.drop_last())
    }
}

/// The original file holds, from line `at` on, what `expected` says.
pub open spec fn matches_at(orig: Seq<Seq<u8>>, at: int, expected: Seq<Seq<u8>>) -> bool {
    0 <= at && at + expected.len() <= orig.len() && orig.subrange(
        at,
        at + expected.len(),
    ) == expected
}

/// Every hunk from index `n` on starts within the file and finds there the
/// lines that it expects.
pub open spec fn hunks_match(orig: Seq<Seq<u8>>, at: int, hunks: Seq<HunkView>, n: int) -> bool
    decreases hunks.len() - n,
{
    if n < 0 || n >= hunks.len() {
        true
    } else {
        let start = hunk_start(at, hunks[n]);
        matches_at(orig, start, old_side(hunks[n].lines)) && hunks_match(
            orig,
            start + old_side(hunks[n].lines).len(),
            hunks,
            n + 1,
        )
    }
}

/// The lines that the hunks from index `n` on add to the file, less those
/// that they take away.
pub open spec fn growth(hunks: Seq<HunkView>, n: int) -> int
    decreases hunks.len() - n,
{
    if n < 0 || n >= hunks.len() {
        0
    } else {
        mod_count(hunks[n].lines) - orig_count(hunks[n].lines) + growth(hunks, n + 1)
    }
}

/// The sum, over the hunks from index `n` on, of the modified count less
/// the original count of the header.
pub open spec fn header_growth(hunks: Seq<HunkView>, n: int) -> int
    decreases hunks.len() - n,
{
    if n < 0 || n >= hunks.len() {
        0
    } else {
        hunks[n].mod_range - hunks[n].orig_range + header_growth(hunks, n + 1)
    }
}

proof fn lemma_side_lengths(lines: Seq<LineView>)
    ensures
        old_side(lines).len() == orig_count(lines),
        new_side(lines).len() == mod_count(lines),
    decreases lines.len(),
{
    if lines.len() > 0 {
        lemma_side_lengths(lines.drop_last());
    }
}

/// The old side of the first `k` lines, extended by line `k`.
proof fn lemma_sides_step(lines: Seq<LineView>, k: int)
    requires
        0 <= k < lines.len(),
    ensures
        old_side(lines.subrange(0, k + 1)) == if lines[k].in_orig() {
            old_side(lines.subrange(0, k)).push(lines[k].payload())
        } else {
            old_side(lines.subrange(0, k))
        },
        new_side(lines.subrange(0, k + 1)) == if lines[k].in_mod() {
            new_side(lines.subrange(0, k)).push(lines[k].payload())
        } else {
            new_side(lines.subrange(0, k))
        },
{
    assert(lines.subrange(0, k + 1).drop_last() =~= lines.subrange(0, k));
    assert(lines.subrange(0, k + 1).last() == lines[k]);
}

/// The lines of a hunk apply exactly where the original file holds their
/// old side; they then consume the old side and write the new side.
proof fn lemma_apply_lines(
    orig: Seq<Seq<u8>>,
    at: int,
    lines: Seq<LineView>,
    k: int,
    out: Seq<Seq<u8>>,
    from: int,
    base: Seq<Seq<u8>>,
)
    requires
        0 <= k <= lines.len(),
        0 <= from,
        at == from + old_side(lines.subrange(0, k)).len(),
        at <= orig.len(),
        matches_at(orig, from, old_side(lines.subrange(0, k))),
        out == base + new_side(lines.subrange(0, k)),
    ensures
        apply_lines(orig, at, lines, k, out) is Ok <==> matches_at(orig, from, old_side(lines)),
        apply_lines(orig, at, lines, k, out) is Ok ==> apply_lines(orig, at, lines, k, out)
            == Ok::<(int, Seq<Seq<u8>>), ConflictView>(
            (from + old_side(lines).len(), base + new_side(lines)),
        ),
    decreases lines.len() - k,
{
    if k >= lines.len() {
        assert(lines.subrange(0, k) =~= lines);
    } else {
        lemma_sides_step(lines, k);
        let done = old_side(lines.subrange(0, k));
        let next = old_side(lines.subrange(0, k + 1));
        lemma_old_side_prefix(lines, k + 1);
        match lines[k] {
            LineView::Insert(p) => {
                assert(base + new_side(lines.subrange(0, k)).push(p) =~= out.push(p));
                lemma_apply_lines(orig, at, lines, k + 1, out.push(p), from, base);
            },
            other => {
                let whole = old_side(lines);
                assert(whole[done.len() as int] == other.payload()) by {
                    assert(next[done.len() as int] == other.payload());
                    assert(whole.subrange(0, next.len() as int) == next);
                    assert(whole.subrange(0, next.len() as int)[done.len() as int]
                        == whole[done.len() as int]);
                }
                if at >= orig.len() {
                    assert(!matches_at(orig, from, whole));
                } else if orig[at] != other.payload() {
                    if matches_at(orig, from, whole) {
                        assert(orig.subrange(from, from + whole.len())[done.len() as int]
                            == orig[at]);
                    }
                } else {
                    assert(orig.subrange(from, from + next.len()) =~= next) by {
                        assert(orig.subrange(from, from + done.len()) == done);
                        assert forall|i: int| 0 <= i < next.len() implies orig.subrange(
                            from,
                            from + next.len(),
                        )[i] == next[i] by {
                            if i < done.len() {
                                assert(orig.subrange(from, from + done.len())[i] == orig[from
                                    + i]);
                            }
                        }
                    }
                    let written = if other is Context {
                        out.push(other.payload())
                    } else {
                        out
                    };
                    assert(written =~= base + new_side(lines.subrange(0, k + 1)));
                    lemma_apply_lines(orig, at + 1, lines, k + 1, written, from, base);
                }
            },
        }
    }
}

/// The old side of the first `k` lines is the beginning of the old side of
/// all lines.
proof fn lemma_old_side_prefix(lines: Seq<LineView>, k: int)
    requires
        0 <= k <= lines.len(),
    ensures
        old_side(lines.subrange(0, k)).len() <= old_side(lines).len(),
        old_side(lines).subrange(0, old_side(lines.subrange(0, k)).len() as int) == old_side(
            lines.subrange(0, k),
        ),
    decreases lines.len() - k,
{
    if k == lines.len() {
        assert(lines.subrange(0, k) =~= lines);
        assert(old_side(lines).subrange(0, old_side(lines).len() as int) =~= old_side(lines));
    } else {
        lemma_old_side_prefix(lines, k + 1);
        lemma_sides_step(lines, k);
        let a = old_side(lines.subrange(0, k));
        let b = old_side(lines.subrange(0, k + 1));
        assert(old_side(lines).subrange(0, a.len() as int) =~= old_side(lines).subrange(
            0,
            b.len() as int,
        ).subrange(0, a.len() as int));
        assert(b.subrange(0, a.len() as int) =~= a);
    }
}

/// Exact application succeeds if and only if every hunk finds, where it
/// starts, the payloads of its context lines and removals in the original
/// file. The result then has as many lines as the original file, more or
/// less what the hunks add or take away.
pub proof fn lemma_apply_agreement(
    orig: Seq<Seq<u8>>,
    at: int,
    hunks: Seq<HunkView>,
    n: int,
    out: Seq<Seq<u8>>,
)
    requires
        0 <= at <= orig.len(),
        0 <= n <= hunks.len(),
    ensures
        apply_hunks(orig, at, hunks, n, out) is Ok <==> hunks_match(orig, at, hunks, n),
        match apply_hunks(orig, at, hunks, n, out) {
            Ok(lines) => lines.len() == out.len() + (orig.len() - at) + growth(hunks, n),
            Err(_) => true,
        },
    decreases hunks.len() - n,
{
    if n < hunks.len() {
        let h = hunks[n];
        let start = hunk_start(at, h);
        if start <= orig.len() {
            let base = out + orig.subrange(at, start);
            assert(h.lines.subrange(0, 0) =~= Seq::<LineView>::empty());
            assert(orig.subrange(start, start + 0) =~= Seq::<Seq<u8>>::empty());
            assert(base + Seq::<Seq<u8>>::empty() =~= base);
            lemma_apply_lines(orig, start, h.lines, 0, base, start, base);
            lemma_side_lengths(h.lines);
            match apply_lines(orig, start, h.lines, 0, base) {
                Err(_) => {},
                Ok((end, written)) => {
                    lemma_apply_agreement(orig, end, hunks, n + 1, written);
                },
            }
        }
    }
}

/// For hunks whose headers count their lines rightly, the lines that they
/// add are those that their headers announce.
pub proof fn lemma_growth_of_well_formed(hunks: Seq<HunkView>, n: int)
    requires
        0 <= n <= hunks.len(),
        forall|i: int| 0 <= i < hunks.len() ==> (#[trigger] hunks[i]).well_formed(),
    ensures
        growth(hunks, n) == header_growth(hunks, n),
    decreases hunks.len() - n,
{
    if n < hunks.len() {
        assert(hunks[n].well_formed());
        lemma_growth_of_well_formed(hunks, n + 1);
    }
}

/// Applies the lines of `hunk` to `orig` from line `at` on and appends what
/// they write to `out`.
fn apply_hunk_lines(
    orig: &[Vec<u8>],
    at: usize,
    hunk: &Hunk,
    out: &mut Vec<Vec<u8>>,
) -> (r: Result<usize, PatchConflict>)
    requires
        at <= orig@.len(),
        orig@.len() < usize::MAX,
    ensures
        match apply_lines(vec_views(orig@), at as int, hunk@.lines, 0, vec_views(old(out)@)) {
            Ok((end, written)) => r is Ok && r.unwrap() == end && vec_views(final(out)@)
                == written && end <= orig@.len(),
            Err(c) => r is Err && r.unwrap_err()@ == c,
        },
{
    let ghost start_out = vec_views(out@);
    let mut pos: usize = at;
    let mut k: usize = 0;
    while k < hunk.lines.len()
        invariant
            k <= hunk.lines.len(),
            pos <= orig@.len(),
            orig@.len() < usize::MAX,
            start_out == vec_views(old(out)@),
            apply_lines(vec_views(orig@), at as int, hunk@.lines, 0, start_out) == apply_lines(
                vec_views(orig@),
                pos as int,
                hunk@.lines,
                k as int,
                vec_views(out@),
            ),
        decreases hunk.lines.len() - k,
    {
        assert(hunk@.lines[k as int] == hunk.lines@[k as int]@);
        let ghost before = out@;
        match &hunk.lines[k] {
            HunkLine::InsertLine(bytes) => {
                out.push(to_vec(bytes.as_slice()));
                assert(vec_views(out@) =~= vec_views(before).push(bytes@));
            },
            HunkLine::ContextLine(bytes) => {
                assert(hunk@.lines[k as int] == LineView::Context(bytes@));
                if pos >= orig.len() {
                    return Err(
                        PatchConflict {
                            line_no: pos + 1,
                            orig_line: Vec::new(),
                            patch_line: to_vec(bytes.as_slice()),
                        },
                    );
                }
                assert(vec_views(orig@)[pos as int] == orig@[pos as int]@);
                if !equal(orig[pos].as_slice(), bytes.as_slice()) {
                    return Err(
                        PatchConflict {
                            line_no: pos + 1,
                            orig_line: to_vec(orig[pos].as_slice()),
                            patch_line: to_vec(bytes.as_slice()),
                        },
                    );
                }
                pos += 1;
                out.push(to_vec(bytes.as_slice()));
                assert(vec_views(out@) =~= vec_views(before).push(bytes@));
            },
            HunkLine::RemoveLine(bytes) => {
                assert(hunk@.lines[k as int] == LineView::Remove(bytes@));
                if pos >= orig.len() {
                    return Err(
                        PatchConflict {
                            line_no: pos + 1,
                            orig_line: Vec::new(),
                            patch_line: to_vec(bytes.as_slice()),
                        },
                    );
                }
                assert(vec_views(orig@)[pos as int] == orig@[pos as int]@);
                if !equal(orig[pos].as_slice(), bytes.as_slice()) {
                    return Err(
                        PatchConflict {
                            line_no: pos + 1,
                            orig_line: to_vec(orig[pos].as_slice()),
                            patch_line: to_vec(bytes.as_slice()),
                        },
                    );
                }
                pos += 1;
            },
        }
        k += 1;
    }
    Ok(pos)
}

/// Appends copies of the lines `from..to` of `orig` to `out`.
fn copy_lines(orig: &[Vec<u8>], from: usize, to: usize, out: &mut Vec<Vec<u8>>)
    requires
        from <= to <= orig@.len(),
    ensures
        vec_views(final(out)@) == vec_views(old(out)@) + vec_views(orig@).subrange(
            from as int,
            to as int,
        ),
{
    let mut i: usize = from;
    assert(vec_views(out@) + vec_views(orig@).subrange(from as int, from as int) =~= vec_views(
        out@,
    ));
    while i < to
        invariant
            from <= i <= to <= orig@.len(),
            vec_views(out@) == vec_views(old(out)@) + vec_views(orig@).subrange(
                from as int,
                i as int,
            ),
        decreases to - i,
    {
        let ghost before = out@;
        out.push(to_vec(orig[i].as_slice()));
        assert(vec_views(out@) =~= vec_views(before).push(orig@[i as int]@));
        assert(vec_views(orig@).subrange(from as int, i + 1) =~= vec_views(orig@).subrange(
            from as int,
            i as int,
        ).push(orig@[i as int]@));
        i += 1;
    }
}

/// Iterate through a series of lines with a patch applied.
///
/// This handles a single file, and does exact, not fuzzy patching.
///
/// Args:
///   orig_lines: The original lines of the file.
///   hunks: The hunks to apply to the file.
pub fn iter_exact_patched_from_hunks(orig_lines: &[Vec<u8>], hunks: &[Hunk]) -> (r: Result<
    Vec<Vec<u8>>,
    PatchConflict,
>)
    requires
        orig_lines@.len() + 2 <= usize::MAX,
    ensures
        match patched(vec_views(orig_lines@), hunk_views(hunks@)) {
            Ok(lines) => r is Ok && vec_views(r.unwrap()@) == lines,
            Err(c) => r is Err && r.unwrap_err()@ == c,
        },
        r is Ok <==> hunks_match(vec_views(orig_lines@), 0, hunk_views(hunks@), 0),
        r is Ok ==> r.unwrap()@.len() == orig_lines@.len() + growth(hunk_views(hunks@), 0),
{
    let ghost orig = vec_views(orig_lines@);
    let ghost views = hunk_views(hunks@);
    proof {
        lemma_apply_agreement(orig, 0, views, 0, Seq::empty());
    }
    let mut out: Vec<Vec<u8>> = Vec::new();
    let mut pos: usize = 0;
    let mut n: usize = 0;
    assert(vec_views(out@) =~= Seq::<Seq<u8>>::empty());
    while n < hunks.len()
        invariant
            n <= hunks.len(),
            pos <= orig_lines@.len(),
            orig == vec_views(orig_lines@),
            views == hunk_views(hunks@),
            orig_lines@.len() + 2 <= usize::MAX,
            patched(orig, views) is Ok <==> hunks_match(orig, 0, views, 0),
            patched(orig, views) == apply_hunks(orig, pos as int, views, n as int, vec_views(out@)),
        decreases hunks.len() - n,
    {
        let hunk = &hunks[n];
        assert(views[n as int] == hunk@);
        let start = if hunk.orig_pos > 0 && pos < hunk.orig_pos - 1 {
            hunk.orig_pos - 1
        } else {
            pos
        };
        if start > orig_lines.len() {
            return Err(
                PatchConflict {
                    line_no: orig_lines.len() + 2,
                    orig_line: Vec::new(),
                    patch_line: Vec::new(),
                },
            );
        }
        copy_lines(orig_lines, pos, start, &mut out);
        match apply_hunk_lines(orig_lines, start, hunk, &mut out) {
            Ok(end) => {
                pos = end;
            },
            Err(conflict) => {
                return Err(conflict);
            },
        }
        n += 1;
    }
    copy_lines(orig_lines, pos, orig_lines.len(), &mut out);
    Ok(out)
}

/// Find the index of the first character that differs between two texts
pub fn difference_index(atext: &[u8], btext: &[u8]) -> (r: Option<usize>)
    ensures
        match r {
            Some(i) => i < atext@.len() && i < btext@.len() && atext@[i as int] != btext@[i as int]
                && forall|k: int| 0 <= k < i ==> atext@[k] == btext@[k],
            None => forall|k: int|
                0 <= k < atext@.len() && k < btext@.len() ==> atext@[k] == btext@[k],
        },
{
    let length = if atext.len() < btext.len() {
        atext.len()
    } else {
        btext.len()
    };
    let mut i: usize = 0;
    while i < length
        invariant
            i <= length,
            length <= atext@.len(),
            length <= btext@.len(),
            forall|k: int| 0 <= k < i ==> atext@[k] == btext@[k],
        decreases length - i,
    {
        if atext[i] != btext[i] {
            return Some(i);
        }
        i += 1;
    }
    None
}

impl ContentPatch for UnifiedPatch {
    /// The contents whose line numbers fit into `usize`.
    open spec fn can_apply(&self, orig: Seq<u8>) -> bool {
        orig.len() + 2 <= usize::MAX
    }

    /// The lines of `orig` with the hunks applied, put together again; or
    /// the first conflict in words.
    open spec fn outcome(&self, orig: Seq<u8>) -> Result<Seq<u8>, ApplyFault> {
        match patched(split_lines(orig), self@.hunks) {
            Ok(lines) => Ok(concat(lines)),
            Err(c) => Err(ApplyFault::Conflict(conflict_text(c.line_no, c.orig_line, c.patch_line))),
        }
    }

    /// Apply this patch to a file
    fn apply_exact(&self, orig: &[u8]) -> (r: Result<Vec<u8>, ApplyError>) {
        let lines = splitlines(orig);
        proof {
            lemma_split_lines_count(orig@);
        }
        let orig_lines = own_lines(lines.as_slice());
        match iter_exact_patched_from_hunks(orig_lines.as_slice(), self.hunks.as_slice()) {
            Ok(patched_lines) => Ok(concat_vecs(&patched_lines)),
            Err(conflict) => Err(ApplyError::Conflict(conflict.message())),
        }
    }
}

impl SingleFilePatch for UnifiedPatch {
    open spec fn old_name(&self) -> Seq<u8> {
        self.orig_name@
    }

    open spec fn new_name(&self) -> Seq<u8> {
        self.mod_name@
    }

    /// Old file name
    fn oldname(&self) -> (r: &[u8]) {
        self.orig_name.as_slice()
    }

    /// New file name
    fn newname(&self) -> (r: &[u8]) {
        self.mod_name.as_slice()
    }
}

impl ContentPatch for BinaryPatch {
    open spec fn can_apply(&self, orig: Seq<u8>) -> bool {
        true
    }

    /// A binary patch says that two files differ, not how: it cannot be
    /// applied.
    open spec fn outcome(&self, orig: Seq<u8>) -> Result<Seq<u8>, ApplyFault> {
        Err(ApplyFault::Unapplyable)
    }

    fn apply_exact(&self, orig: &[u8]) -> (r: Result<Vec<u8>, ApplyError>) {
        Err(ApplyError::Unapplyable)
    }
}

impl SingleFilePatch for BinaryPatch {
    open spec fn old_name(&self) -> Seq<u8> {
        self.0@
    }

    open spec fn new_name(&self) -> Seq<u8> {
        self.1@
    }

    fn oldname(&self) -> (r: &[u8]) {
        self.0.as_slice()
    }

    fn newname(&self) -> (r: &[u8]) {
        self.1.as_slice()
    }
}

impl ContentPatch for PlainOrBinaryPatch {
    open spec fn can_apply(&self, orig: Seq<u8>) -> bool {
        match self {
            PlainOrBinaryPatch::Plain(patch) => patch.can_apply(orig),
            PlainOrBinaryPatch::Binary(patch) => patch.can_apply(orig),
        }
    }

    open spec fn outcome(&self, orig: Seq<u8>) -> Result<Seq<u8>, ApplyFault> {
        match self {
            PlainOrBinaryPatch::Plain(patch) => patch.outcome(orig),
            PlainOrBinaryPatch::Binary(patch) => patch.outcome(orig),
        }
    }

    fn apply_exact(&self, orig: &[u8]) -> (r: Result<Vec<u8>, ApplyError>) {
        match self {
            PlainOrBinaryPatch::Plain(patch) => patch.apply_exact(orig),
            PlainOrBinaryPatch::Binary(_) => Err(ApplyError::Unapplyable),
        }
    }
}

impl SingleFilePatch for PlainOrBinaryPatch {
    open spec fn old_name(&self) -> Seq<u8> {
        match self {
            PlainOrBinaryPatch::Plain(patch) => patch.orig_name@,
            PlainOrBinaryPatch::Binary(patch) => patch.0@,
        }
    }

    open spec fn new_name(&self) -> Seq<u8> {
        match self {
            PlainOrBinaryPatch::Plain(patch) => patch.mod_name@,
            PlainOrBinaryPatch::Binary(patch) => patch.1@,
        }
    }

    fn oldname(&self) -> (r: &[u8]) {
        match self {
            PlainOrBinaryPatch::Plain(patch) => patch.orig_name.as_slice(),
            PlainOrBinaryPatch::Binary(patch) => patch.0.as_slice(),
        }
    }

    fn newname(&self) -> (r: &[u8]) {
        match self {
            PlainOrBinaryPatch::Plain(patch) => patch.mod_name.as_slice(),
            PlainOrBinaryPatch::Binary(patch) => patch.1.as_slice(),
        }
    }
}

} // verus!
