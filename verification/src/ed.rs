//! Parsing of ed-style patches
use crate::bytes::{
    concat, decimal_value, equal, has_prefix, is_digit, own_lines, parse_decimal, slice_views,
    starts_with, to_vec, LF,
};
use crate::text::{decimal_chars, push_decimal, push_quoted, quoted_bytes};
use crate::unified::parse::split_lines;
use crate::{ApplyError, ApplyFault, ContentPatch};
use vstd::prelude::*;
use vstd::string::StringExecFns;
use vstd::slice::slice_subrange;

pub use crate::unified::parse::splitlines;

verus! {

/// What introduces a line that an ed script adds: `> `.
pub const ADDED_PREFIX: [u8; 2] = [0x3e, 0x20];

/// What introduces a line that an ed script removes: `< `.
pub const REMOVED_PREFIX: [u8; 2] = [0x3c, 0x20];

/// The line between the old and the new text of a change: `---`.
pub const CHANGE_SEPARATOR: [u8; 4] = [0x2d, 0x2d, 0x2d, 0x0a];

/// A patch in the ed format.
#[derive(Clone, Debug, PartialEq, Eq)]
pub struct EdPatch {
    /// The hunks in the patch.
    pub hunks: Vec<EdHunk>,
}

/// A hunk in an ed patch.
#[derive(Clone, Debug, PartialEq, Eq)]
pub enum EdHunk {
    /// Add lines.
    Add(usize, usize, Vec<u8>),
    /// Remove lines.
    Remove(usize, usize, Vec<u8>),
    /// Change lines
    Change(usize, usize, Vec<u8>, Vec<u8>),
}

/// A hunk of an ed patch as a mathematical value.
pub enum EdHunkView {
    Add(nat, nat, Seq<u8>),
    Remove(nat, nat, Seq<u8>),
    Change(nat, nat, Seq<u8>, Seq<u8>),
}

impl EdHunkView {
    /// The first line number of the command.
    pub open spec fn start(self) -> nat {
        match self {
            EdHunkView::Add(s, _, _) => s,
            EdHunkView::Remove(s, _, _) => s,
            EdHunkView::Change(s, _, _, _) => s,
        }
    }

    /// The second line number of the command.
    pub open spec fn end(self) -> nat {
        match self {
            EdHunkView::Add(_, e, _) => e,
            EdHunkView::Remove(_, e, _) => e,
            EdHunkView::Change(_, e, _, _) => e,
        }
    }

    /// The index at which the command works. Line numbers count from 1. A
    /// removal and a change work on the line with the number. An addition
    /// puts its line in behind the line with the number, which is at the
    /// index that equals the number; 0 puts it before the first line.
    pub open spec fn index(self) -> int {
        match self {
            EdHunkView::Add(start, _, _) => start as int,
            _ => if self.start() == 0 {
                0
            } else {
                self.start() - 1
            },
        }
    }
}

impl View for EdHunk {
    type V = EdHunkView;

    open spec fn view(&self) -> EdHunkView {
        match self {
            EdHunk::Add(s, e, a) => EdHunkView::Add(*s as nat, *e as nat, a@),
            EdHunk::Remove(s, e, r) => EdHunkView::Remove(*s as nat, *e as nat, r@),
            EdHunk::Change(s, e, r, a) => EdHunkView::Change(*s as nat, *e as nat, r@, a@),
        }
    }
}

/// The views of a sequence of ed hunks.
pub open spec fn ed_hunk_views(hunks: Seq<EdHunk>) -> Seq<EdHunkView> {
    hunks.map_values(|h: EdHunk| h@)
}

/// The index of the first byte of `s` at or after `from` that is no digit.
pub open spec fn digits_end(s: Seq<u8>, from: int) -> int
    decreases s.len() - from,
{
    if from < 0 || from >= s.len() || !is_digit(s[from]) {
        from
    } else {
        digits_end(s, from + 1)
    }
}

/// What a command line says: a number, one of the letters `a`, `d` and `c`,
/// a second number and a line feed, from the beginning of the line. Both
/// numbers are in decimal and within `usize`.
pub open spec fn ed_header(line: Seq<u8>) -> Option<(u8, nat, nat)> {
    let k = digits_end(line, 0);
    let m = digits_end(line, k + 1);
    if 0 < k < line.len() && (line[k] == 0x61 || line[k] == 0x63 || line[k] == 0x64) && k + 1 < m
        < line.len() && line[m] == LF && decimal_value(line.subrange(0, k)) <= usize::MAX
        && decimal_value(line.subrange(k + 1, m)) <= usize::MAX {
        Some((line[k], decimal_value(line.subrange(0, k)), decimal_value(line.subrange(k + 1, m))))
    } else {
        None
    }
}

/// The end of the run of digits that starts at `from`.
fn scan_digits(s: &[u8], from: usize) -> (r: usize)
    requires
        from <= s@.len(),
    ensures
        r == digits_end(s@, from as int),
        from <= r <= s@.len(),
        forall|i: int| from <= i < r ==> is_digit(#[trigger] s@[i]),
{
    let mut i: usize = from;
    while i < s.len() && s[i] >= 0x30 && s[i] <= 0x39
        invariant
            from <= i <= s@.len(),
            digits_end(s@, from as int) == digits_end(s@, i as int),
            forall|k: int| from <= k < i ==> is_digit(#[trigger] s@[k]),
        decreases s.len() - i,
    {
        i += 1;
    }
    i
}

/// Parse a hunk header.
pub fn parse_hunk_header(line: &[u8]) -> (r: Option<(char, usize, usize)>)
    ensures
        match ed_header(line@) {
            Some((cmd, start, end)) => r == Some((cmd as char, start as usize, end as usize)),
            None => r is None,
        },
{
    let k = scan_digits(line, 0);
    if k == 0 || k >= line.len() {
        return None;
    }
    let cmd = line[k];
    if !(cmd == 0x61 || cmd == 0x63 || cmd == 0x64) {
        return None;
    }
    let m = scan_digits(line, k + 1);
    if m == k + 1 || m >= line.len() || line[m] != LF {
        return None;
    }
    let first = slice_subrange(line, 0, k);
    let second = slice_subrange(line, k + 1, m);
    assert forall|i: int| 0 <= i < first@.len() implies is_digit(#[trigger] first@[i]) by {
        assert(first@[i] == line@[i]);
    }
    assert forall|i: int| 0 <= i < second@.len() implies is_digit(#[trigger] second@[i]) by {
        assert(second@[i] == line@[k + 1 + i]);
    }
    match (parse_decimal(first), parse_decimal(second)) {
        (Some(start), Some(end)) => Some((cmd as char, start, end)),
        _ => None,
    }
}

/// Parse a line in a hunk.
pub fn parse_hunk_line<'a>(prefix: &[u8], line: &'a [u8]) -> (r: Option<&'a [u8]>)
    ensures
        match r {
            Some(rest) => has_prefix(line@, prefix@) && rest@ == line@.subrange(
                prefix@.len() as int,
                line@.len() as int,
            ),
            None => !has_prefix(line@, prefix@),
        },
{
    if starts_with(line, prefix) {
        Some(slice_subrange(line, prefix.len(), line.len()))
    } else {
        None
    }
}

/// What follows a command line.
pub enum EdBody {
    /// The hunk, and the index of the line behind it.
    Hunk(EdHunkView, int),
    /// The line that cannot be read as part of the hunk.
    Bad(Seq<u8>),
}

/// The text behind a prefix, if the line has the prefix.
pub open spec fn after_prefix(prefix: Seq<u8>, line: Seq<u8>) -> Option<Seq<u8>> {
    if has_prefix(line, prefix) {
        Some(line.subrange(prefix.len() as int, line.len() as int))
    } else {
        None
    }
}

/// Reads the body of the command on line `i`: one `> ` line for `a`, one
/// `< ` line for `d`, and a `< ` line, `---` and a `> ` line for `c`. Where
/// the text ends too early the line before the end is reported, else the line
/// that does not fit.
pub open spec fn ed_body(lines: Seq<Seq<u8>>, i: int, cmd: u8, start: nat, end: nat) -> EdBody {
    if i + 1 >= lines.len() {
        EdBody::Bad(lines[i])
    } else if cmd == 0x61 {
        match after_prefix(ADDED_PREFIX@, lines[i + 1]) {
            Some(data) => EdBody::Hunk(EdHunkView::Add(start, end, data), i + 2),
            None => EdBody::Bad(lines[i + 1]),
        }
    } else if cmd == 0x64 {
        match after_prefix(REMOVED_PREFIX@, lines[i + 1]) {
            Some(data) => EdBody::Hunk(EdHunkView::Remove(start, end, data), i + 2),
            None => EdBody::Bad(lines[i + 1]),
        }
    } else {
        match after_prefix(REMOVED_PREFIX@, lines[i + 1]) {
            None => EdBody::Bad(lines[i + 1]),
            Some(old) => if i + 2 >= lines.len() {
                EdBody::Bad(lines[i + 1])
            } else if lines[i + 2] != CHANGE_SEPARATOR@ {
                EdBody::Bad(lines[i + 2])
            } else if i + 3 >= lines.len() {
                EdBody::Bad(lines[i + 1])
            } else {
                match after_prefix(ADDED_PREFIX@, lines[i + 3]) {
                    Some(new) => EdBody::Hunk(EdHunkView::Change(start, end, old, new), i + 4),
                    None => EdBody::Bad(lines[i + 3]),
                }
            },
        }
    }
}

/// The hunks that the lines from index `i` on hold, or the first line that
/// cannot be read.
pub open spec fn ed_hunks_from(lines: Seq<Seq<u8>>, i: int) -> Result<Seq<EdHunkView>, Seq<u8>>
    decreases lines.len() - i,
{
    if i < 0 || i >= lines.len() {
        Ok(Seq::empty())
    } else {
        match ed_header(lines[i]) {
            None => Err(lines[i]),
            Some((cmd, start, end)) => match ed_body(lines, i, cmd, start, end) {
                EdBody::Bad(line) => Err(line),
                EdBody::Hunk(hunk, next) => match ed_hunks_from(lines, next) {
                    Ok(rest) => Ok(seq![hunk] + rest),
                    Err(line) => Err(line),
                },
            },
        }
    }
}

/// What an ed script says: its hunks, or the first line that cannot be read.
pub open spec fn ed_patch_spec(patch: Seq<u8>) -> Result<Seq<EdHunkView>, Seq<u8>> {
    ed_hunks_from(split_lines(patch), 0)
}

/// The text that reports a line that the file does not have: the words
/// `line `, the number in decimal, and ` does not exist`.
pub open spec fn missing_line_text(start: nat) -> Seq<char> {
    "line "@ + decimal_chars(start) + " does not exist"@
}

/// The text that reports a line that is not what the hunk expects: the
/// number of the line, what the file holds there and what the hunk expects,
/// both read as UTF-8 and quoted.
pub open spec fn mismatch_text(start: nat, existing: Seq<u8>, expected: Seq<u8>) -> Seq<char> {
    "line "@ + decimal_chars(start) + " does not match expected: "@ + quoted_bytes(existing)
        + " != "@ + quoted_bytes(expected)
}

/// The text that reports a line that the file does not have.
fn describe_missing_line(start: usize) -> (r: String)
    ensures
        r@ == missing_line_text(start as nat),
{
    let mut text = String::from_str("line ");
    push_decimal(&mut text, start as u64);
    text.append(" does not exist");
    text
}

/// The text that reports a line that is not what the hunk expects.
fn describe_mismatch(start: usize, existing: &[u8], expected: &[u8]) -> (r: String)
    ensures
        r@ == mismatch_text(start as nat, existing@, expected@),
{
    let mut text = String::from_str("line ");
    push_decimal(&mut text, start as u64);
    text.append(" does not match expected: ");
    push_quoted(&mut text, existing);
    text.append(" != ");
    push_quoted(&mut text, expected);
    text
}

/// Applies the hunks from index `k` on to the lines `data`, one after
/// another, each to what the one before it left. A removal and a change
/// need their line to be there and to be what they expect; they take it out,
/// and a change puts its new line in its place. An addition puts its line in
/// behind the line that it names.
pub open spec fn ed_apply_from(hunks: Seq<EdHunkView>, k: int, data: Seq<Seq<u8>>) -> Result<
    Seq<Seq<u8>>,
    Seq<char>,
>
    decreases hunks.len() - k,
{
    if k < 0 || k >= hunks.len() {
        Ok(data)
    } else {
        let at = hunks[k].index();
        match hunks[k] {
            EdHunkView::Add(start, _, added) => ed_apply_from(hunks, k + 1, data.insert(at, added)),
            EdHunkView::Remove(start, _, expected) => if start == 0 || at >= data.len() {
                Err(missing_line_text(start))
            } else if data[at] != expected {
                Err(mismatch_text(start, data[at], expected))
            } else {
                ed_apply_from(hunks, k + 1, data.remove(at))
            },
            EdHunkView::Change(start, _, expected, added) => if start == 0 || at >= data.len() {
                Err(missing_line_text(start))
            } else if data[at] != expected {
                Err(mismatch_text(start, data[at], expected))
            } else {
                ed_apply_from(hunks, k + 1, data.remove(at).insert(at, added))
            },
        }
    }
}

/// The hunks from index `k` on can be applied to `data`: as far as the
/// application gets, every hunk names one line only (its two numbers are
/// equal), and every addition names a place that the file has.
pub open spec fn ed_applicable(hunks: Seq<EdHunkView>, k: int, data: Seq<Seq<u8>>) -> bool
    decreases hunks.len() - k,
{
    if k < 0 || k >= hunks.len() {
        true
    } else {
        let at = hunks[k].index();
        hunks[k].start() == hunks[k].end() && match hunks[k] {
            EdHunkView::Add(_, _, added) => at <= data.len() && ed_applicable(
                hunks,
                k + 1,
                data.insert(at, added),
            ),
            EdHunkView::Remove(start, _, expected) => start == 0 || at >= data.len() || data[at]
                != expected || ed_applicable(hunks, k + 1, data.remove(at)),
            EdHunkView::Change(start, _, expected, added) => start == 0 || at >= data.len()
                || data[at] != expected || ed_applicable(
                hunks,
                k + 1,
                data.remove(at).insert(at, added),
            ),
        }
    }
}

/// A patch without hunks can be applied to every file, and leaves it as it
/// is.
pub proof fn lemma_empty_patch_is_identity(data: Seq<Seq<u8>>)
    ensures
        ed_applicable(Seq::empty(), 0, data),
        ed_apply_from(Seq::empty(), 0, data) == Ok::<Seq<Seq<u8>>, Seq<char>>(data),
{
}

impl EdPatch {
    /// Apply the patch to the data.
    pub fn apply(&self, data: &[&[u8]]) -> (r: Result<Vec<u8>, String>)
        requires
            ed_applicable(ed_hunk_views(self.hunks@), 0, slice_views(data@)),
        ensures
            match ed_apply_from(ed_hunk_views(self.hunks@), 0, slice_views(data@)) {
                Ok(lines) => r is Ok && r.unwrap()@ == concat(lines),
                Err(text) => r is Err && r.unwrap_err()@ == text,
            },
            self.hunks@.len() == 0 ==> r is Ok && r.unwrap()@ == concat(slice_views(data@)),
    {
        let ghost hunks = ed_hunk_views(self.hunks@);
        let mut lines = own_lines(data);
        let mut k: usize = 0;
        while k < self.hunks.len()
            invariant
                k <= self.hunks.len(),
                hunks == ed_hunk_views(self.hunks@),
                ed_applicable(hunks, k as int, crate::bytes::vec_views(lines@)),
                ed_apply_from(hunks, 0, slice_views(data@)) == ed_apply_from(
                    hunks,
                    k as int,
                    crate::bytes::vec_views(lines@),
                ),
            decreases self.hunks.len() - k,
        {
            assert(hunks[k as int] == self.hunks@[k as int]@);
            let ghost before = lines@;
            match &self.hunks[k] {
                EdHunk::Add(start, _, added) => {
                    let at = *start;
                    lines.insert(at, to_vec(added.as_slice()));
                    assert(crate::bytes::vec_views(lines@) =~= crate::bytes::vec_views(
                        before,
                    ).insert(at as int, added@));
                },
                EdHunk::Remove(start, _, expected) => {
                    if *start == 0 || *start - 1 >= lines.len() {
                        return Err(describe_missing_line(*start));
                    }
                    let at = *start - 1;
                    assert(crate::bytes::vec_views(before)[at as int] == before[at as int]@);
                    if !equal(lines[at].as_slice(), expected.as_slice()) {
                        return Err(
                            describe_mismatch(*start, lines[at].as_slice(), expected.as_slice()),
                        );
                    }
                    lines.remove(at);
                    assert(crate::bytes::vec_views(lines@) =~= crate::bytes::vec_views(
                        before,
                    ).remove(at as int));
                },
                EdHunk::Change(start, _, expected, added) => {
                    if *start == 0 || *start - 1 >= lines.len() {
                        return Err(describe_missing_line(*start));
                    }
                    let at = *start - 1;
                    assert(crate::bytes::vec_views(before)[at as int] == before[at as int]@);
                    if !equal(lines[at].as_slice(), expected.as_slice()) {
                        return Err(
                            describe_mismatch(*start, lines[at].as_slice(), expected.as_slice()),
                        );
                    }
                    lines.remove(at);
                    lines.insert(at, to_vec(added.as_slice()));
                    assert(crate::bytes::vec_views(lines@) =~= crate::bytes::vec_views(
                        before,
                    ).remove(at as int).insert(at as int, added@));
                },
            }
            k += 1;
        }
        Ok(crate::bytes::concat_vecs(&lines))
    }

    /// Whether the patch can be applied to the data: as far as the
    /// application gets, every hunk names one line only, and every addition
    /// names a place that the file has.
    pub fn is_applicable(&self, data: &[&[u8]]) -> (r: bool)
        ensures
            r == ed_applicable(ed_hunk_views(self.hunks@), 0, slice_views(data@)),
    {
        let ghost hunks = ed_hunk_views(self.hunks@);
        let mut lines = own_lines(data);
        let mut k: usize = 0;
        while k < self.hunks.len()
            invariant
                k <= self.hunks.len(),
                hunks == ed_hunk_views(self.hunks@),
                ed_applicable(hunks, 0, slice_views(data@)) == ed_applicable(
                    hunks,
                    k as int,
                    crate::bytes::vec_views(lines@),
                ),
            decreases self.hunks.len() - k,
        {
            assert(hunks[k as int] == self.hunks@[k as int]@);
            let ghost before = lines@;
            match &self.hunks[k] {
                EdHunk::Add(start, end, added) => {
                    if *start != *end || *start > lines.len() {
                        return false;
                    }
                    lines.insert(*start, to_vec(added.as_slice()));
                    assert(crate::bytes::vec_views(lines@) =~= crate::bytes::vec_views(
                        before,
                    ).insert(*start as int, added@));
                },
                EdHunk::Remove(start, end, expected) => {
                    if *start != *end {
                        return false;
                    }
                    if *start == 0 || *start - 1 >= lines.len() {
                        return true;
                    }
                    let at = *start - 1;
                    assert(crate::bytes::vec_views(before)[at as int] == before[at as int]@);
                    if !equal(lines[at].as_slice(), expected.as_slice()) {
                        return true;
                    }
                    lines.remove(at);
                    assert(crate::bytes::vec_views(lines@) =~= crate::bytes::vec_views(
                        before,
                    ).remove(at as int));
                },
                EdHunk::Change(start, end, expected, added) => {
                    if *start != *end {
                        return false;
                    }
                    if *start == 0 || *start - 1 >= lines.len() {
                        return true;
                    }
                    let at = *start - 1;
                    assert(crate::bytes::vec_views(before)[at as int] == before[at as int]@);
                    if !equal(lines[at].as_slice(), expected.as_slice()) {
                        return true;
                    }
                    lines.remove(at);
                    lines.insert(at, to_vec(added.as_slice()));
                    assert(crate::bytes::vec_views(lines@) =~= crate::bytes::vec_views(
                        before,
                    ).remove(at as int).insert(at as int, added@));
                },
            }
            k += 1;
        }
        true
    }

    /// Apply the patch to the data, where it can be applied; `None` where
    /// it cannot.
    pub fn try_apply(&self, data: &[&[u8]]) -> (r: Option<Result<Vec<u8>, String>>)
        ensures
            r is Some <==> ed_applicable(ed_hunk_views(self.hunks@), 0, slice_views(data@)),
            r is Some ==> match ed_apply_from(ed_hunk_views(self.hunks@), 0, slice_views(data@)) {
                Ok(lines) => r.unwrap() is Ok && r.unwrap().unwrap()@ == concat(lines),
                Err(text) => r.unwrap() is Err && r.unwrap().unwrap_err()@ == text,
            },
    {
        if self.is_applicable(data) {
            Some(self.apply(data))
        } else {
            None
        }
    }

    /// Parse a patch in the ed format.
    pub fn parse_patch(patch: &[u8]) -> (r: Result<EdPatch, Vec<u8>>)
        ensures
            match ed_patch_spec(patch@) {
                Ok(hunks) => r is Ok && ed_hunk_views(r.unwrap().hunks@) == hunks,
                Err(line) => r is Err && r.unwrap_err()@ == line,
            },
    {
        let lines = splitlines(patch);
        let ghost all = slice_views(lines@);
        let mut hunks: Vec<EdHunk> = Vec::new();
        let mut i: usize = 0;
        assert(ed_hunk_views(hunks@) =~= Seq::empty());
        while i < lines.len()
            invariant
                all == slice_views(lines@),
                all == split_lines(patch@),
                match ed_hunks_from(all, i as int) {
                    Ok(rest) => ed_hunks_from(all, 0) == Ok::<Seq<EdHunkView>, Seq<u8>>(
                        ed_hunk_views(hunks@) + rest,
                    ),
                    Err(line) => ed_hunks_from(all, 0) == Err::<Seq<EdHunkView>, Seq<u8>>(line),
                },
            decreases lines.len() - i,
        {
            let line = lines[i];
            assert(all[i as int] == line@);
            let (cmd, start, end) = match parse_hunk_header(line) {
                Some(header) => header,
                None => {
                    return Err(to_vec(line));
                },
            };
            if i + 1 >= lines.len() {
                return Err(to_vec(line));
            }
            let first = lines[i + 1];
            assert(all[i + 1] == first@);
            let ghost before = hunks@;
            let next: usize;
            if cmd == 'a' {
                match parse_hunk_line(ADDED_PREFIX.as_slice(), first) {
                    Some(data) => {
                        hunks.push(EdHunk::Add(start, end, to_vec(data)));
                        next = i + 2;
                    },
                    None => {
                        return Err(to_vec(first));
                    },
                }
            } else if cmd == 'd' {
                match parse_hunk_line(REMOVED_PREFIX.as_slice(), first) {
                    Some(data) => {
                        hunks.push(EdHunk::Remove(start, end, to_vec(data)));
                        next = i + 2;
                    },
                    None => {
                        return Err(to_vec(first));
                    },
                }
            } else {
                let old = match parse_hunk_line(REMOVED_PREFIX.as_slice(), first) {
                    Some(data) => data,
                    None => {
                        return Err(to_vec(first));
                    },
                };
                if i + 2 >= lines.len() {
                    return Err(to_vec(first));
                }
                let separator = lines[i + 2];
                assert(all[i + 2] == separator@);
                if !equal(separator, CHANGE_SEPARATOR.as_slice()) {
                    return Err(to_vec(separator));
                }
                if i + 3 >= lines.len() {
                    return Err(to_vec(first));
                }
                let last = lines[i + 3];
                assert(all[i + 3] == last@);
                match parse_hunk_line(ADDED_PREFIX.as_slice(), last) {
                    Some(data) => {
                        hunks.push(EdHunk::Change(start, end, to_vec(old), to_vec(data)));
                        next = i + 4;
                    },
                    None => {
                        return Err(to_vec(last));
                    },
                }
            }
            proof {
                let hunk = hunks@[hunks@.len() - 1]@;
                assert(ed_body(all, i as int, cmd as u8, start as nat, end as nat)
                    == EdBody::Hunk(hunk, next as int));
                assert(ed_hunk_views(hunks@) =~= ed_hunk_views(before).push(hunk));
                match ed_hunks_from(all, next as int) {
                    Ok(rest) => {
                        assert(ed_hunk_views(before) + (seq![hunk] + rest) =~= ed_hunk_views(
                            hunks@,
                        ) + rest);
                    },
                    Err(_) => {},
                }
            }
            i = next;
        }
        proof {
            assert(ed_hunk_views(hunks@) + Seq::<EdHunkView>::empty() =~= ed_hunk_views(hunks@));
        }
        Ok(EdPatch { hunks })
    }
}

impl ContentPatch for EdPatch {
    open spec fn can_apply(&self, orig: Seq<u8>) -> bool {
        ed_applicable(ed_hunk_views(self.hunks@), 0, split_lines(orig))
    }

    open spec fn outcome(&self, orig: Seq<u8>) -> Result<Seq<u8>, ApplyFault> {
        match ed_apply_from(ed_hunk_views(self.hunks@), 0, split_lines(orig)) {
            Ok(lines) => Ok(concat(lines)),
            Err(text) => Err(ApplyFault::Conflict(text)),
        }
    }

    fn apply_exact(&self, orig: &[u8]) -> (r: Result<Vec<u8>, ApplyError>) {
        let lines = splitlines(orig);
        match self.apply(lines.as_slice()) {
            Ok(bytes) => Ok(bytes),
            Err(text) => Err(ApplyError::Conflict(text)),
        }
    }
}

} // verus!
