//! Splitting a stream of lines into the patches of single files, with what
//! stands between them.
use crate::bytes::{has_prefix, starts_with, to_vec, vec_views, HASH, MINUS, PLUS, SP};
use crate::text::{push_quoted, push_quoted_lines, quoted_bytes, quoted_lines};
use crate::unified::hunk::{malformed_header_text, parse_header_spec, Hunk};
use crate::unified::parse::{
    binary_file_names, binary_names, parse_patch, patch_spec, NEW_PREFIX, OLD_PREFIX,
};
use crate::unified::patch::{AnyPatchView, Error, ErrorView, PlainOrBinaryPatch, UnifiedPatch};
use vstd::prelude::*;
use vstd::string::StringExecFns;

verus! {

/// What introduces a line of version-control metadata: `=== `.
pub const META_PREFIX: [u8; 4] = [0x3d, 0x3d, 0x3d, 0x20];

/// What introduces a comment line of the other kind: `*** `.
pub const STARS_PREFIX: [u8; 4] = [0x2a, 0x2a, 0x2a, 0x20];

/// What introduces a hunk header: `@@`.
pub const HUNK_PREFIX: [u8; 2] = [0x40, 0x40];

/// Parse a patch file
#[derive(Debug, PartialEq, Eq)]
pub enum FileEntry {
    /// Non-patch data
    Junk(Vec<Vec<u8>>),
    /// A meta entry
    Meta(Vec<u8>),
    /// A patch entry
    Patch(Vec<Vec<u8>>),
}

/// An entry of a stream as a mathematical value.
pub enum EntryView {
    Junk(Seq<Seq<u8>>),
    Meta(Seq<u8>),
    Patch(Seq<Seq<u8>>),
}

impl View for FileEntry {
    type V = EntryView;

    open spec fn view(&self) -> EntryView {
        match self {
            FileEntry::Junk(lines) => EntryView::Junk(vec_views(lines@)),
            FileEntry::Meta(line) => EntryView::Meta(line@),
            FileEntry::Patch(lines) => EntryView::Patch(vec_views(lines@)),
        }
    }
}

/// What the splitter remembers between two lines.
pub struct SplitState {
    /// The lines of the entry that is being collected.
    pub saved: Seq<Seq<u8>>,
    /// Whether those lines are no patch.
    pub dirty: bool,
    /// The lines of the original file that the current hunk still expects.
    pub orig_left: nat,
    /// The lines of the modified file that the current hunk still expects.
    pub mod_left: nat,
}

impl EntryView {
    /// The entry as it is shown: its kind, and its lines as text in
    /// quotes.
    pub open spec fn shown(self) -> Seq<char> {
        match self {
            EntryView::Junk(lines) => "Junk["@ + quoted_lines(lines) + "]"@,
            EntryView::Meta(line) => "Meta("@ + quoted_bytes(line) + ")"@,
            EntryView::Patch(lines) => "Patch["@ + quoted_lines(lines) + "]"@,
        }
    }
}

impl FileEntry {
    /// The entry as it is shown.
    pub fn describe(&self) -> (r: String)
        ensures
            r@ == self@.shown(),
    {
        match self {
            FileEntry::Junk(lines) => {
                let mut text = String::from_str("Junk[");
                push_quoted_lines(&mut text, lines.as_slice());
                text.append("]");
                text
            },
            FileEntry::Meta(line) => {
                let mut text = String::from_str("Meta(");
                push_quoted(&mut text, line.as_slice());
                text.append(")");
                text
            },
            FileEntry::Patch(lines) => {
                let mut text = String::from_str("Patch[");
                push_quoted_lines(&mut text, lines.as_slice());
                text.append("]");
                text
            },
        }
    }
}

impl SplitState {
    /// The state before the first line.
    pub open spec fn start() -> SplitState {
        SplitState { saved: Seq::empty(), dirty: false, orig_left: 0, mod_left: 0 }
    }

    /// The entry that the collected lines make, if there are any.
    pub open spec fn entry(self) -> Option<Result<EntryView, ErrorView>> {
        if self.saved.len() == 0 {
            None
        } else if self.dirty {
            Some(Ok(EntryView::Junk(self.saved)))
        } else {
            Some(Ok(EntryView::Patch(self.saved)))
        }
    }

    /// The state after `line`, and what the line makes the splitter give
    /// out, in the order of the input.
    ///
    /// A `=== ` line ends the entry before it, which is given out first,
    /// and is given out as metadata. Any other line gives out at most one
    /// entry, as `step_inside` says.
    pub open spec fn step(self, line: Seq<u8>) -> (
        SplitState,
        Seq<Result<EntryView, ErrorView>>,
    ) {
        if has_prefix(line, META_PREFIX@) {
            (SplitState::start(), given(self.entry()).push(Ok(EntryView::Meta(line))))
        } else {
            (self.step_inside(line).0, given(self.step_inside(line).1))
        }
    }

    /// The state after a line that is no metadata, and what the line makes
    /// the splitter give out.
    ///
    /// `*** ` and `#` lines are dropped. Inside a hunk every line is kept
    /// and counted down. A `--- ` line, or one that reports binary files,
    /// ends the entry before it and starts a patch. A `+++ ` line joins a
    /// patch, and so does a hunk header, which also sets the counts; a
    /// malformed header is reported. Any other line ends a patch before it
    /// and starts or extends junk.
    pub open spec fn step_inside(self, line: Seq<u8>) -> (
        SplitState,
        Option<Result<EntryView, ErrorView>>,
    ) {
        if has_prefix(line, STARS_PREFIX@) || has_prefix(line, seq![HASH]) {
            (self, None)
        } else if self.orig_left > 0 || self.mod_left > 0 {
            let in_orig = has_prefix(line, seq![MINUS]) || has_prefix(line, seq![SP]);
            let in_mod = has_prefix(line, seq![PLUS]) || has_prefix(line, seq![SP]);
            (
                SplitState {
                    saved: self.saved.push(line),
                    orig_left: if in_orig && self.orig_left > 0 {
                        (self.orig_left - 1) as nat
                    } else {
                        self.orig_left
                    },
                    mod_left: if in_mod && self.mod_left > 0 {
                        (self.mod_left - 1) as nat
                    } else {
                        self.mod_left
                    },
                    ..self
                },
                None,
            )
        } else if has_prefix(line, OLD_PREFIX@) || binary_names(line) is Some {
            (SplitState { saved: seq![line], dirty: false, ..self }, self.entry())
        } else if has_prefix(line, NEW_PREFIX@) && !self.dirty {
            (SplitState { saved: self.saved.push(line), ..self }, None)
        } else if has_prefix(line, HUNK_PREFIX@) {
            match parse_header_spec(line) {
                Err(fault) => (
                    self,
                    Some(
                        Err(
                            ErrorView::MalformedHunkHeader(
                                malformed_header_text(fault.message(), line),
                                line,
                            ),
                        ),
                    ),
                ),
                Ok(h) => (
                    SplitState {
                        saved: self.saved.push(line),
                        orig_left: h.orig_range,
                        mod_left: h.mod_range,
                        ..self
                    },
                    None,
                ),
            }
        } else if self.dirty {
            (SplitState { saved: self.saved.push(line), ..self }, None)
        } else {
            (SplitState { saved: seq![line], dirty: true, ..self }, self.entry())
        }
    }
}

/// What there is to give out, as a sequence.
pub open spec fn given<T>(item: Option<T>) -> Seq<T> {
    match item {
        Some(e) => seq![e],
        None => Seq::empty(),
    }
}

/// The entries that the lines from index `i` on make, from state `st`.
pub open spec fn split_from(lines: Seq<Seq<u8>>, i: int, st: SplitState) -> Seq<
    Result<EntryView, ErrorView>,
>
    decreases lines.len() - i,
{
    if i < 0 || i >= lines.len() {
        given(st.entry())
    } else {
        st.step(lines[i]).1 + split_from(lines, i + 1, st.step(lines[i]).0)
    }
}

/// The entries of a stream of lines.
pub open spec fn split_stream(lines: Seq<Seq<u8>>) -> Seq<Result<EntryView, ErrorView>> {
    split_from(lines, 0, SplitState::start())
}

/// The view of what the splitter gives out.
pub open spec fn item_view(item: Result<FileEntry, Error>) -> Result<EntryView, ErrorView> {
    match item {
        Ok(e) => Ok(e@),
        Err(e) => Err(e@),
    }
}

/// The views of a sequence of such items.
pub open spec fn item_views(items: Seq<Result<FileEntry, Error>>) -> Seq<
    Result<EntryView, ErrorView>,
> {
    items.map_values(|r: Result<FileEntry, Error>| item_view(r))
}

/// The splitter: the lines of the entry that is being collected, and the
/// counts of the hunk that is being read.
pub struct FileEntryIter {
    saved_lines: Vec<Vec<u8>>,
    is_dirty: bool,
    orig_range: usize,
    mod_range: usize,
}

impl View for FileEntryIter {
    type V = SplitState;

    closed spec fn view(&self) -> SplitState {
        SplitState {
            saved: vec_views(self.saved_lines@),
            dirty: self.is_dirty,
            orig_left: self.orig_range as nat,
            mod_left: self.mod_range as nat,
        }
    }
}

impl FileEntryIter {
    /// A splitter before the first line.
    pub fn new() -> (r: Self)
        ensures
            r@ == SplitState::start(),
    {
        let r = FileEntryIter {
            saved_lines: Vec::new(),
            is_dirty: false,
            orig_range: 0,
            mod_range: 0,
        };
        assert(vec_views(r.saved_lines@) =~= Seq::empty());
        r
    }

    /// Takes the collected lines out as an entry, if there are any.
    pub fn entry(&mut self) -> (r: Option<FileEntry>)
        ensures
            match old(self)@.entry() {
                Some(e) => r is Some && Ok::<EntryView, ErrorView>(r.unwrap()@) == e,
                None => r is None,
            },
            final(self)@ == (SplitState { saved: Seq::empty(), ..old(self)@ }),
    {
        if self.saved_lines.len() > 0 {
            let mut lines: Vec<Vec<u8>> = Vec::new();
            std::mem::swap(&mut self.saved_lines, &mut lines);
            assert(vec_views(self.saved_lines@) =~= Seq::empty());
            if self.is_dirty {
                Some(FileEntry::Junk(lines))
            } else {
                Some(FileEntry::Patch(lines))
            }
        } else {
            assert(vec_views(self.saved_lines@) =~= Seq::empty());
            None
        }
    }

    /// Takes one line in, and gives out what the line completes, in the
    /// order of the input.
    pub fn feed(&mut self, line: &[u8]) -> (r: Vec<Result<FileEntry, Error>>)
        ensures
            final(self)@ == old(self)@.step(line@).0,
            item_views(r@) == old(self)@.step(line@).1,
    {
        let mut out: Vec<Result<FileEntry, Error>> = Vec::new();
        if starts_with(line, META_PREFIX.as_slice()) {
            let entry = self.entry();
            self.is_dirty = false;
            self.orig_range = 0;
            self.mod_range = 0;
            if let Some(e) = entry {
                out.push(Ok(e));
            }
            out.push(Ok(FileEntry::Meta(to_vec(line))));
            assert(item_views(out@) =~= given(old(self)@.entry()).push(
                Ok(EntryView::Meta(line@)),
            ));
            return out;
        }
        if let Some(item) = self.feed_inside(line) {
            out.push(item);
        }
        assert(item_views(out@) =~= given(old(self)@.step_inside(line@).1));
        out
    }

    /// Takes in one line that is no metadata, and gives out what the line
    /// completes.
    fn feed_inside(&mut self, line: &[u8]) -> (r: Option<Result<FileEntry, Error>>)
        requires
            !has_prefix(line@, META_PREFIX@),
        ensures
            final(self)@ == old(self)@.step_inside(line@).0,
            match old(self)@.step_inside(line@).1 {
                Some(item) => r is Some && item_view(r.unwrap()) == item,
                None => r is None,
            },
    {
        let ghost before = self.saved_lines@;
        if starts_with(line, STARS_PREFIX.as_slice()) {
            return None;
        }
        let first: Option<u8> = if line.len() > 0 {
            Some(line[0])
        } else {
            None
        };
        proof {
            if line@.len() > 0 {
                assert(line@.subrange(0, 1) =~= seq![line@[0]]);
                assert(seq![line@[0]][0] == line@[0]);
            }
            assert(has_prefix(line@, seq![HASH]) <==> first == Some(HASH)) by {
                if has_prefix(line@, seq![HASH]) {
                    assert(line@.subrange(0, 1)[0] == HASH);
                }
            }
            assert(has_prefix(line@, seq![MINUS]) <==> first == Some(MINUS)) by {
                if has_prefix(line@, seq![MINUS]) {
                    assert(line@.subrange(0, 1)[0] == MINUS);
                }
            }
            assert(has_prefix(line@, seq![PLUS]) <==> first == Some(PLUS)) by {
                if has_prefix(line@, seq![PLUS]) {
                    assert(line@.subrange(0, 1)[0] == PLUS);
                }
            }
            assert(has_prefix(line@, seq![SP]) <==> first == Some(SP)) by {
                if has_prefix(line@, seq![SP]) {
                    assert(line@.subrange(0, 1)[0] == SP);
                }
            }
        }
        if first == Some(HASH) {
            return None;
        }
        if self.orig_range > 0 || self.mod_range > 0 {
            if (first == Some(MINUS) || first == Some(SP)) && self.orig_range > 0 {
                self.orig_range -= 1;
            }
            if (first == Some(PLUS) || first == Some(SP)) && self.mod_range > 0 {
                self.mod_range -= 1;
            }
            self.saved_lines.push(to_vec(line));
            assert(vec_views(self.saved_lines@) =~= vec_views(before).push(line@));
            None
        } else if starts_with(line, OLD_PREFIX.as_slice()) || binary_file_names(line).is_some() {
            let entry = self.entry();
            self.is_dirty = false;
            self.saved_lines.push(to_vec(line));
            assert(vec_views(self.saved_lines@) =~= seq![line@]);
            match entry {
                Some(e) => Some(Ok(e)),
                None => None,
            }
        } else if starts_with(line, NEW_PREFIX.as_slice()) && !self.is_dirty {
            self.saved_lines.push(to_vec(line));
            assert(vec_views(self.saved_lines@) =~= vec_views(before).push(line@));
            None
        } else if starts_with(line, HUNK_PREFIX.as_slice()) {
            match Hunk::from_header(line) {
                Ok(hunk) => {
                    self.orig_range = hunk.orig_range;
                    self.mod_range = hunk.mod_range;
                    self.saved_lines.push(to_vec(line));
                    assert(vec_views(self.saved_lines@) =~= vec_views(before).push(line@));
                    None
                },
                Err(e) => {
                    let text = e.message();
                    Some(Err(Error::MalformedHunkHeader(text, to_vec(line))))
                },
            }
        } else if self.is_dirty {
            self.saved_lines.push(to_vec(line));
            assert(vec_views(self.saved_lines@) =~= vec_views(before).push(line@));
            None
        } else {
            let entry = self.entry();
            self.saved_lines.push(to_vec(line));
            self.is_dirty = true;
            assert(vec_views(self.saved_lines@) =~= seq![line@]);
            match entry {
                Some(e) => Some(Ok(e)),
                None => None,
            }
        }
    }
}

/// Iterate through a series of lines.
///
/// # Arguments
/// * `orig` - The original lines of the file.
pub fn iter_file_patch(orig: &[Vec<u8>]) -> (r: Vec<Result<FileEntry, Error>>)
    ensures
        item_views(r@) == split_stream(vec_views(orig@)),
{
    let ghost all = vec_views(orig@);
    let mut state = FileEntryIter::new();
    let mut out: Vec<Result<FileEntry, Error>> = Vec::new();
    let mut i: usize = 0;
    assert(item_views(out@) + split_stream(all) =~= split_stream(all));
    while i < orig.len()
        invariant
            i <= orig.len(),
            all == vec_views(orig@),
            split_stream(all) == item_views(out@) + split_from(all, i as int, state@),
        decreases orig.len() - i,
    {
        let ghost before = out@;
        let ghost st = state@;
        assert(all[i as int] == orig@[i as int]@);
        let mut items = state.feed(orig[i].as_slice());
        let ghost fed = items@;
        out.append(&mut items);
        assert(item_views(out@) =~= item_views(before) + item_views(fed));
        assert(item_views(before) + (st.step(all[i as int]).1 + split_from(all, i + 1, state@))
            =~= item_views(before) + st.step(all[i as int]).1 + split_from(all, i + 1, state@));
        i += 1;
    }
    let ghost before = out@;
    let ghost st = state@;
    match state.entry() {
        Some(e) => {
            out.push(Ok(e));
            assert(item_views(out@) =~= item_views(before) + given(st.entry()));
        },
        None => {
            assert(item_views(out@) =~= item_views(before) + given(st.entry()));
        },
    }
    out
}

/// What a stream entry becomes when its patches are read: a patch entry
/// gives what `read` makes of its lines, junk and metadata give nothing, an
/// error stays.
pub open spec fn patch_of(
    item: Result<EntryView, ErrorView>,
    read: spec_fn(Seq<Seq<u8>>) -> Result<AnyPatchView, ErrorView>,
) -> Option<Result<AnyPatchView, ErrorView>> {
    match item {
        Ok(EntryView::Patch(lines)) => Some(read(lines)),
        Ok(_) => None,
        Err(e) => Some(Err(e)),
    }
}

/// The patches of the first `n` entries.
pub open spec fn patches_of(
    items: Seq<Result<EntryView, ErrorView>>,
    n: int,
    read: spec_fn(Seq<Seq<u8>>) -> Result<AnyPatchView, ErrorView>,
) -> Seq<Result<AnyPatchView, ErrorView>>
    decreases n,
{
    if n <= 0 || n > items.len() {
        Seq::empty()
    } else {
        patches_of(items, n - 1, read) + given(patch_of(items[n - 1], read))
    }
}

/// Reading the lines of one patch, as a function.
pub open spec fn patch_spec_fn() -> spec_fn(Seq<Seq<u8>>) -> Result<AnyPatchView, ErrorView> {
    |l: Seq<Seq<u8>>| patch_spec(l)
}

/// The view of a patch or an error.
pub open spec fn patch_view(item: Result<PlainOrBinaryPatch, Error>) -> Result<
    AnyPatchView,
    ErrorView,
> {
    match item {
        Ok(p) => Ok(p@),
        Err(e) => Err(e@),
    }
}

/// The views of a sequence of patches or errors.
pub open spec fn patch_views(items: Seq<Result<PlainOrBinaryPatch, Error>>) -> Seq<
    Result<AnyPatchView, ErrorView>,
> {
    items.map_values(|r: Result<PlainOrBinaryPatch, Error>| patch_view(r))
}

/// The lines of an entry as slices.
fn as_slices<'a>(lines: &'a Vec<Vec<u8>>) -> (r: Vec<&'a [u8]>)
    ensures
        crate::bytes::slice_views(r@) == vec_views(lines@),
{
    let mut r: Vec<&'a [u8]> = Vec::new();
    let mut i: usize = 0;
    while i < lines.len()
        invariant
            i <= lines.len(),
            crate::bytes::slice_views(r@) == vec_views(lines@).subrange(0, i as int),
        decreases lines.len() - i,
    {
        let ghost before = r@;
        r.push(lines[i].as_slice());
        assert(crate::bytes::slice_views(r@) =~= crate::bytes::slice_views(before).push(
            lines@[i as int]@,
        ));
        assert(vec_views(lines@).subrange(0, i + 1) =~= vec_views(lines@).subrange(
            0,
            i as int,
        ).push(lines@[i as int]@));
        i += 1;
    }
    assert(vec_views(lines@).subrange(0, lines@.len() as int) =~= vec_views(lines@));
    r
}

/// Parse a patch file
///
/// Each patch of the stream is read on its own: one that cannot be read
/// gives an error in its place and does not end the reading.
///
/// # Arguments
/// * `lines`: the lines of the stream
pub fn parse_patches(lines: &[Vec<u8>]) -> (r: Vec<Result<PlainOrBinaryPatch, Error>>)
    ensures
        patch_views(r@) == patches_of(
            split_stream(vec_views(lines@)),
            split_stream(vec_views(lines@)).len() as int,
            patch_spec_fn(),
        ),
{
    let entries = iter_file_patch(lines);
    let ghost items = item_views(entries@);
    let ghost read = patch_spec_fn();
    let mut out: Vec<Result<PlainOrBinaryPatch, Error>> = Vec::new();
    let mut entries = entries;
    let mut i: usize = 0;
    let n = entries.len();
    assert(patch_views(out@) =~= patches_of(items, 0, read));
    while i < n
        invariant
            i <= n,
            n == entries@.len(),
            items == item_views(entries@),
            read == patch_spec_fn(),
            patch_views(out@) == patches_of(items, i as int, read),
        decreases n - i,
    {
        let ghost before = out@;
        assert(items[i as int] == item_view(entries@[i as int]));
        match &entries[i] {
            Ok(FileEntry::Patch(patch_lines)) => {
                let slices = as_slices(patch_lines);
                let parsed = parse_patch(slices.as_slice());
                assert(patch_view(parsed) == read(vec_views(patch_lines@)));
                out.push(parsed);
                assert(patch_views(out@) =~= patch_views(before) + given(
                    patch_of(items[i as int], read),
                ));
            },
            Ok(_) => {
                assert(patch_views(out@) =~= patch_views(before) + given(
                    patch_of(items[i as int], read),
                ));
            },
            Err(e) => {
                out.push(Err(copy_error(e)));
                assert(patch_views(out@) =~= patch_views(before) + given(
                    patch_of(items[i as int], read),
                ));
            },
        }
        i += 1;
    }
    out
}

/// A copy of an error.
fn copy_error(e: &Error) -> (r: Error)
    ensures
        r@ == e@,
{
    match e {
        Error::BinaryFiles(a, b) => Error::BinaryFiles(to_vec(a.as_slice()), to_vec(b.as_slice())),
        Error::PatchSyntax(m, l) => Error::PatchSyntax(m, to_vec(l.as_slice())),
        Error::MalformedPatchHeader(m, l) => Error::MalformedPatchHeader(m, to_vec(l.as_slice())),
        Error::MalformedHunkHeader(m, l) => Error::MalformedHunkHeader(
            m.clone(),
            to_vec(l.as_slice()),
        ),
    }
}

/// The patches up to the first error, or that error.
pub open spec fn all_or_first_error(
    items: Seq<Result<AnyPatchView, ErrorView>>,
    n: int,
) -> Result<Seq<AnyPatchView>, ErrorView>
    decreases n,
{
    if n <= 0 || n > items.len() {
        Ok(Seq::empty())
    } else {
        match all_or_first_error(items, n - 1) {
            Err(e) => Err(e),
            Ok(done) => match items[n - 1] {
                Ok(p) => Ok(done.push(p)),
                Err(e) => Err(e),
            },
        }
    }
}

/// The views of a sequence of patches.
pub open spec fn any_patch_views(patches: Seq<PlainOrBinaryPatch>) -> Seq<AnyPatchView> {
    patches.map_values(|p: PlainOrBinaryPatch| p@)
}

impl UnifiedPatch {
    /// Parse a unified patch file
    ///
    /// All patches of the stream, or the first error. A report of binary
    /// files is a binary patch, no error.
    ///
    /// # Arguments
    /// * `lines`: the lines of the stream
    pub fn parse_patches(lines: &[Vec<u8>]) -> (r: Result<Vec<PlainOrBinaryPatch>, Error>)
        ensures
            match all_or_first_error(
                patches_of(
                    split_stream(vec_views(lines@)),
                    split_stream(vec_views(lines@)).len() as int,
                    patch_spec_fn(),
                ),
                patches_of(
                    split_stream(vec_views(lines@)),
                    split_stream(vec_views(lines@)).len() as int,
                    patch_spec_fn(),
                ).len() as int,
            ) {
                Ok(patches) => r is Ok && any_patch_views(r.unwrap()@) == patches,
                Err(e) => r is Err && r.unwrap_err()@ == e,
            },
    {
        let entries = iter_file_patch(lines);
        let ghost items = item_views(entries@);
        let ghost read = patch_spec_fn();
        let mut out: Vec<PlainOrBinaryPatch> = Vec::new();
        let mut i: usize = 0;
        let n = entries.len();
        assert(any_patch_views(out@) =~= Seq::empty());
        while i < n
            invariant
                i <= n,
                n == entries@.len(),
                items == item_views(entries@),
                read == patch_spec_fn(),
                items == split_stream(vec_views(lines@)),
                all_or_first_error(
                    patches_of(items, i as int, read),
                    patches_of(items, i as int, read).len() as int,
                ) == Ok::<Seq<AnyPatchView>, ErrorView>(any_patch_views(out@)),
            decreases n - i,
        {
            let ghost before = out@;
            let ghost done = patches_of(items, i as int, read);
            let ghost next = patches_of(items, i + 1, read);
            assert(items[i as int] == item_view(entries@[i as int]));
            assert(next == done + given(patch_of(items[i as int], read)));
            let step: Option<Result<PlainOrBinaryPatch, Error>> = match &entries[i] {
                Ok(FileEntry::Patch(patch_lines)) => {
                    let slices = as_slices(patch_lines);
                    Some(parse_patch(slices.as_slice()))
                },
                Ok(_) => None,
                Err(e) => Some(Err(copy_error(e))),
            };
            match step {
                None => {
                    assert(next =~= done);
                },
                Some(item) => {
                    assert(patch_view(item) == patch_of(items[i as int], read).unwrap());
                    assert(next =~= done.push(patch_view(item)));
                    assert(next.len() == done.len() + 1);
                    assert(all_or_first_error(next, next.len() - 1) == all_or_first_error(
                        done,
                        done.len() as int,
                    )) by {
                        assert(next.subrange(0, done.len() as int) =~= done);
                        lemma_all_or_first_error_prefix(done, next, done.len() as int);
                    }
                    match item {
                        Ok(patch) => {
                            out.push(patch);
                            assert(any_patch_views(out@) =~= any_patch_views(before).push(
                                patch@,
                            ));
                        },
                        Err(e) => {
                            proof {
                                let whole = patches_of(items, n as int, read);
                                assert(next[next.len() - 1] == Err::<AnyPatchView, ErrorView>(e@));
                                assert(all_or_first_error(next, next.len() as int) == Err::<
                                    Seq<AnyPatchView>,
                                    ErrorView,
                                >(e@));
                                lemma_patches_of_prefix(items, i + 1, n as int, read);
                                lemma_all_or_first_error_prefix(next, whole, next.len() as int);
                                lemma_first_error_stays(whole, next.len() as int);
                            }
                            return Err(e);
                        },
                    }
                },
            }
            i += 1;
        }
        Ok(out)
    }
}

/// The first entries give the first patches.
proof fn lemma_patches_of_prefix(
    items: Seq<Result<EntryView, ErrorView>>,
    k: int,
    n: int,
    read: spec_fn(Seq<Seq<u8>>) -> Result<AnyPatchView, ErrorView>,
)
    requires
        0 <= k <= n <= items.len(),
    ensures
        patches_of(items, k, read).len() <= patches_of(items, n, read).len(),
        patches_of(items, n, read).subrange(0, patches_of(items, k, read).len() as int)
            == patches_of(items, k, read),
    decreases n - k,
{
    if k == n {
        assert(patches_of(items, n, read).subrange(0, patches_of(items, n, read).len() as int)
            =~= patches_of(items, n, read));
    } else {
        lemma_patches_of_prefix(items, k, n - 1, read);
        let a = patches_of(items, k, read);
        let b = patches_of(items, n - 1, read);
        let c = patches_of(items, n, read);
        assert(c.subrange(0, a.len() as int) =~= b.subrange(0, a.len() as int));
    }
}

/// Collecting the first `n` items looks at no item behind them.
proof fn lemma_all_or_first_error_prefix(
    a: Seq<Result<AnyPatchView, ErrorView>>,
    b: Seq<Result<AnyPatchView, ErrorView>>,
    n: int,
)
    requires
        0 <= n <= a.len() <= b.len(),
        b.subrange(0, a.len() as int) == a,
    ensures
        all_or_first_error(a, n) == all_or_first_error(b, n),
    decreases n,
{
    if n > 0 {
        lemma_all_or_first_error_prefix(a, b, n - 1);
        assert(b.subrange(0, a.len() as int)[n - 1] == b[n - 1]);
    }
}

/// An error among the first `k` items is the result for every longer run.
proof fn lemma_first_error_stays(items: Seq<Result<AnyPatchView, ErrorView>>, k: int)
    requires
        0 <= k <= items.len(),
        all_or_first_error(items, k) is Err,
    ensures
        all_or_first_error(items, items.len() as int) == all_or_first_error(items, k),
    decreases items.len() - k,
{
    if k < items.len() {
        lemma_first_error_stays(items, k + 1);
    }
}

} // verus!
