//! Quilt patch management
use crate::bytes::{equal, extend, first_index_from, has_prefix, starts_with, LF, SP, own_lines};
use crate::edit::lex::slice;
use crate::unified::patch::{
    AnyPatchView, Error, ErrorView, PatchView, PlainOrBinaryPatch, UnifiedPatch,
};
use crate::unified::parse::{split_lines, splitlines};
use crate::unified::stream::{parse_patches, patch_spec_fn, patches_of, split_stream};
use vstd::prelude::*;
use vstd::string::{StringExecFns, StringSliceAdditionalSpecFns};
use vstd::utf8::encode_utf8;

verus! {

/// The default directory for patches
pub const DEFAULT_PATCHES_DIR: &'static str = "patches";

/// The default series file name
pub const DEFAULT_SERIES_FILE: &'static str = "series";

/// `series`
pub const SERIES_NAME: [u8; 6] = [0x73, 0x65, 0x72, 0x69, 0x65, 0x73];

/// `00list`
pub const LIST_NAME: [u8; 6] = [0x30, 0x30, 0x6c, 0x69, 0x73, 0x74];

/// `README`
pub const README_PREFIX: [u8; 6] = [0x52, 0x45, 0x41, 0x44, 0x4d, 0x45];

/// The suffix of a file name: what stands from its first dot on, or nothing
/// where it has no dot.
pub open spec fn suffix_of(name: Seq<u8>) -> Seq<u8> {
    name.subrange(first_index_from(name, 0x2e, 0), name.len() as int)
}

/// Whether a file name counts as the name of a patch: `series`, `00list`
/// and what starts with `README` do not.
pub open spec fn counts(name: Seq<u8>) -> bool {
    name != SERIES_NAME@ && name != LIST_NAME@ && !has_prefix(name, README_PREFIX@)
}

/// The number of names among the first `n` that count and have the suffix
/// `suffix`.
pub open spec fn suffix_count(names: Seq<Seq<u8>>, suffix: Seq<u8>, n: int) -> int
    decreases n,
{
    if n <= 0 || n > names.len() {
        0
    } else {
        suffix_count(names, suffix, n - 1) + if counts(names[n - 1]) && suffix_of(names[n - 1])
            == suffix {
            1int
        } else {
            0int
        }
    }
}

/// The bytes of each name.
pub open spec fn names_bytes(names: Seq<&str>) -> Seq<Seq<u8>> {
    names.map_values(|n: &str| n.spec_bytes())
}

/// Whether a file name counts as the name of a patch.
fn is_counted(name: &str) -> (r: bool)
    ensures
        r == counts(name.spec_bytes()),
{
    let bytes = name.as_bytes();
    !equal(bytes, SERIES_NAME.as_slice()) && !equal(bytes, LIST_NAME.as_slice()) && !starts_with(
        bytes,
        README_PREFIX.as_slice(),
    )
}

/// The suffix of a file name.
fn suffix<'a>(name: &'a str) -> (r: &'a str)
    ensures
        r.spec_bytes() == suffix_of(name.spec_bytes()),
{
    let bytes = name.as_bytes();
    let dot = crate::bytes::find_byte(bytes, 0x2e, 0);
    proof {
        crate::bytes::lemma_first_index_from(bytes@, 0x2e, 0);
    }
    slice(name, dot, bytes.len())
}

/// The number of names that count and have the suffix `suffix`.
fn count_suffix(names: &[&str], wanted: &str) -> (r: usize)
    ensures
        r == suffix_count(names_bytes(names@), wanted.spec_bytes(), names@.len() as int),
{
    let ghost all = names_bytes(names@);
    let mut count: usize = 0;
    let mut i: usize = 0;
    while i < names.len()
        invariant
            i <= names.len(),
            count <= i,
            all == names_bytes(names@),
            count == suffix_count(all, wanted.spec_bytes(), i as int),
        decreases names.len() - i,
    {
        assert(all[i as int] == names@[i as int].spec_bytes());
        if is_counted(names[i]) && equal(suffix(names[i]).as_bytes(), wanted.as_bytes()) {
            count += 1;
        }
        i += 1;
    }
    count
}

/// Find the common prefix to use for patches
///
/// # Arguments
/// * `names` - The names of the files
///
/// # Returns
/// A suffix that no other suffix is more common than, among the names
/// that count as names of patches, or `None` if no name counts
pub fn find_common_patch_suffix<'a>(names: &[&'a str]) -> (r: Option<&'a str>)
    ensures
        match r {
            Some(best) => {
                let all = names_bytes(names@);
                &&& exists|k: int|
                    0 <= k < all.len() && counts(#[trigger] all[k]) && suffix_of(all[k])
                        == best.spec_bytes()
                &&& forall|j: int|
                    0 <= j < all.len() && counts(#[trigger] all[j]) ==> suffix_count(
                        all,
                        suffix_of(all[j]),
                        all.len() as int,
                    ) <= suffix_count(all, best.spec_bytes(), all.len() as int)
            },
            None => forall|k: int|
                0 <= k < names@.len() ==> !counts(#[trigger] names_bytes(names@)[k]),
        },
{
    let ghost all = names_bytes(names@);
    let mut best: Option<&'a str> = None;
    let mut best_count: usize = 0;
    let mut i: usize = 0;
    while i < names.len()
        invariant
            i <= names.len(),
            all == names_bytes(names@),
            match best {
                Some(b) => {
                    &&& best_count == suffix_count(all, b.spec_bytes(), all.len() as int)
                    &&& exists|k: int|
                        0 <= k < i && counts(#[trigger] all[k]) && suffix_of(all[k])
                            == b.spec_bytes()
                    &&& forall|j: int|
                        0 <= j < i && counts(#[trigger] all[j]) ==> suffix_count(
                            all,
                            suffix_of(all[j]),
                            all.len() as int,
                        ) <= best_count
                },
                None => forall|k: int| 0 <= k < i ==> !counts(#[trigger] all[k]),
            },
        decreases names.len() - i,
    {
        assert(all[i as int] == names@[i as int].spec_bytes());
        if is_counted(names[i]) {
            let candidate = suffix(names[i]);
            let count = count_suffix(names, candidate);
            let better = match best {
                Some(_) => count >= best_count,
                None => true,
            };
            if better {
                best = Some(candidate);
                best_count = count;
                assert(counts(all[i as int]) && suffix_of(all[i as int])
                    == candidate.spec_bytes());
            }
        }
        i += 1;
    }
    best
}

/// A entry in a series file
#[derive(Debug, PartialEq, Eq)]
pub enum SeriesEntry {
    /// A patch entry
    Patch {
        /// The name of the patch
        name: String,
        /// The options for patch
        options: Vec<String>,
    },
    /// A comment entry
    Comment(String),
}

/// An entry of a series as a mathematical value.
pub enum SeriesEntryView {
    Patch(Seq<u8>, Seq<Seq<u8>>),
    Comment(Seq<u8>),
}

/// The bytes of each text.
pub open spec fn strings_bytes(texts: Seq<String>) -> Seq<Seq<u8>> {
    texts.map_values(|t: String| encode_utf8(t@))
}

impl View for SeriesEntry {
    type V = SeriesEntryView;

    open spec fn view(&self) -> SeriesEntryView {
        match self {
            SeriesEntry::Patch { name, options } => SeriesEntryView::Patch(
                encode_utf8(name@),
                strings_bytes(options@),
            ),
            SeriesEntry::Comment(text) => SeriesEntryView::Comment(encode_utf8(text@)),
        }
    }
}

impl SeriesEntryView {
    /// Whether the entry is a patch with the name `name`.
    pub open spec fn is_named(self, name: Seq<u8>) -> bool {
        match self {
            SeriesEntryView::Patch(n, _) => n == name,
            SeriesEntryView::Comment(_) => false,
        }
    }

    /// The options as a line writes them: a space before each.
    pub open spec fn options_text(options: Seq<Seq<u8>>) -> Seq<u8>
        decreases options.len(),
    {
        if options.len() == 0 {
            Seq::empty()
        } else {
            Self::options_text(options.drop_last()) + seq![SP] + options.last()
        }
    }

    /// The line of the entry in a series file: a patch as its name and its
    /// options with a space before each, a comment as `# ` and its text; each
    /// with a line feed.
    pub open spec fn line(self) -> Seq<u8> {
        match self {
            SeriesEntryView::Patch(name, options) => name + Self::options_text(options) + seq![LF],
            SeriesEntryView::Comment(text) => seq![0x23u8, SP] + text + seq![LF],
        }
    }
}

/// The views of a sequence of entries.
pub open spec fn entry_views(entries: Seq<SeriesEntry>) -> Seq<SeriesEntryView> {
    entries.map_values(|e: SeriesEntry| e@)
}

/// The lines of the entries, one after another.
pub open spec fn series_text(entries: Seq<SeriesEntryView>) -> Seq<u8>
    decreases entries.len(),
{
    if entries.len() == 0 {
        Seq::empty()
    } else {
        series_text(entries.drop_last()) + entries.last().line()
    }
}

/// Whether an entry is a patch.
pub open spec fn is_patch() -> spec_fn(SeriesEntryView) -> bool {
    |e: SeriesEntryView| e is Patch
}

/// Whether an entry is no patch with the name `name`.
pub open spec fn not_named(name: Seq<u8>) -> spec_fn(SeriesEntryView) -> bool {
    |e: SeriesEntryView| !e.is_named(name)
}

/// The names of the patches among the entries, in order.
pub open spec fn patch_names(entries: Seq<SeriesEntryView>) -> Seq<Seq<u8>>
    decreases entries.len(),
{
    if entries.len() == 0 {
        Seq::empty()
    } else {
        match entries.last() {
            SeriesEntryView::Patch(name, _) => patch_names(entries.drop_last()).push(name),
            SeriesEntryView::Comment(_) => patch_names(entries.drop_last()),
        }
    }
}

/// A quilt series file
#[derive(Debug)]
pub struct Series {
    /// The entries in the series file
    pub entries: Vec<SeriesEntry>,
}

impl View for Series {
    type V = Seq<SeriesEntryView>;

    open spec fn view(&self) -> Seq<SeriesEntryView> {
        entry_views(self.entries@)
    }
}

/// A line of a series file that holds neither a comment nor the name of a
/// patch.
#[derive(Debug, Clone, Copy, PartialEq, Eq)]
pub struct MissingPatchName;

/// White space, as Unicode has it: the characters with the property
/// `White_Space`.
pub open spec fn is_white_space(c: char) -> bool {
    let n = c as u32;
    (0x09 <= n <= 0x0d) || n == 0x20 || n == 0x85 || n == 0xa0 || n == 0x1680 || (0x2000 <= n
        <= 0x200a) || n == 0x2028 || n == 0x2029 || n == 0x202f || n == 0x205f || n == 0x3000
}

/// The text without the white space at its start.
pub open spec fn trimmed_start(text: Seq<char>) -> Seq<char>
    decreases text.len(),
{
    if text.len() > 0 && is_white_space(text[0]) {
        trimmed_start(text.drop_first())
    } else {
        text
    }
}

/// The text without the white space at its end.
pub open spec fn trimmed_end(text: Seq<char>) -> Seq<char>
    decreases text.len(),
{
    if text.len() > 0 && is_white_space(text.last()) {
        trimmed_end(text.drop_last())
    } else {
        text
    }
}

/// What `str::trim` gives: the text without the white space at its start
/// and at its end.
pub open spec fn trimmed(text: Seq<char>) -> Seq<char> {
    trimmed_end(trimmed_start(text))
}

/// The index at or behind `i` of the first white space, or the length of
/// the text where there is none: where the word at `i` ends.
pub open spec fn word_end(text: Seq<char>, i: int) -> int
    decreases text.len() - i,
{
    if i < 0 || i >= text.len() || is_white_space(text[i]) {
        i
    } else {
        word_end(text, i + 1)
    }
}

/// A word ends at or behind its start, within the text.
pub proof fn lemma_word_end(text: Seq<char>, i: int)
    requires
        0 <= i <= text.len(),
    ensures
        i <= word_end(text, i) <= text.len(),
    decreases text.len() - i,
{
    if i < text.len() && !is_white_space(text[i]) {
        lemma_word_end(text, i + 1);
    }
}

/// The words of a text from index `i` on: the runs of characters that
/// are no white space, in order.
pub open spec fn words_from(text: Seq<char>, i: int) -> Seq<Seq<char>>
    decreases text.len() - i,
{
    if i < 0 || i >= text.len() {
        Seq::empty()
    } else if is_white_space(text[i]) {
        words_from(text, i + 1)
    } else {
        proof {
            lemma_word_end(text, i + 1);
        }
        seq![text.subrange(i, word_end(text, i))] + words_from(text, word_end(text, i))
    }
}

/// What `str::split_whitespace` gives: the words of a text, which white
/// space parts.
pub open spec fn words_of(text: Seq<char>) -> Seq<Seq<char>> {
    words_from(text, 0)
}

/// The texts as sequences of characters.
pub open spec fn strs_chars(texts: Seq<&str>) -> Seq<Seq<char>> {
    texts.map_values(|t: &str| t@)
}

/// `str::trim`: the text without the white space at its start and at its
/// end, where white space is what Unicode calls so.
#[verifier::external_body]
fn trim<'a>(text: &'a str) -> (r: &'a str)
    ensures
        r@ == trimmed(text@),
{
    text.trim()
}

/// `str::split_whitespace`, with the words gathered in a vector: the
/// runs of characters that are no white space, in order.
#[verifier::external_body]
fn split_whitespace<'a>(text: &'a str) -> (r: Vec<&'a str>)
    ensures
        strs_chars(r@) == words_of(text@),
{
    text.split_whitespace().collect()
}

/// The bytes of each word.
pub open spec fn words_bytes(words: Seq<Seq<char>>) -> Seq<Seq<u8>> {
    words.map_values(|w: Seq<char>| encode_utf8(w))
}

/// What a line of a series file says, whose text is `line` and whose
/// words are `words`: a line that starts with `#` is a comment, the whole of
/// it; any other line names a patch with its first word and gives its
/// options with the others; a line without a word says nothing.
pub open spec fn entry_of(line: Seq<char>, words: Seq<Seq<char>>) -> Option<SeriesEntryView> {
    let bytes = encode_utf8(line);
    if bytes.len() > 0 && bytes[0] == 0x23 {
        Some(SeriesEntryView::Comment(bytes))
    } else if words.len() == 0 {
        None
    } else {
        Some(
            SeriesEntryView::Patch(
                encode_utf8(words[0]),
                words_bytes(words.subrange(1, words.len() as int)),
            ),
        )
    }
}

/// What a line of a series file says, as it was read: without the white
/// space around it.
pub open spec fn line_entry(line: Seq<char>) -> Option<SeriesEntryView> {
    entry_of(trimmed(line), words_of(trimmed(line)))
}

/// What the lines of a series file say: an entry for each line that
/// holds a comment or the name of a patch, in order. A line that holds
/// neither, such as an empty line, gives no entry.
pub open spec fn entries_of(lines: Seq<Seq<char>>) -> Seq<SeriesEntryView>
    decreases lines.len(),
{
    if lines.len() == 0 {
        Seq::empty()
    } else {
        match line_entry(lines.last()) {
            Some(entry) => entries_of(lines.drop_last()).push(entry),
            None => entries_of(lines.drop_last()),
        }
    }
}

/// The texts of the lines.
pub open spec fn lines_chars(lines: Seq<String>) -> Seq<Seq<char>> {
    lines.map_values(|l: String| l@)
}

/// The entry of a line whose text is `line` and whose words are `words`.
pub fn entry_from(line: &str, words: &[&str]) -> (r: Result<SeriesEntry, MissingPatchName>)
    ensures
        match entry_of(line@, strs_chars(words@)) {
            Some(entry) => r is Ok && r.unwrap()@ == entry,
            None => r is Err,
        },
{
    let bytes = line.as_bytes();
    if bytes.len() > 0 && bytes[0] == 0x23 {
        return Ok(SeriesEntry::Comment(String::from_str(line)));
    }
    if words.len() == 0 {
        return Err(MissingPatchName);
    }
    let ghost all = strs_chars(words@);
    let mut options: Vec<String> = Vec::new();
    let mut i: usize = 1;
    while i < words.len()
        invariant
            1 <= i <= words.len(),
            all == strs_chars(words@),
            strings_bytes(options@) == words_bytes(all.subrange(1, i as int)),
        decreases words.len() - i,
    {
        let ghost before = options@;
        options.push(String::from_str(words[i]));
        proof {
            assert(all[i as int] == words@[i as int]@);
            assert(strings_bytes(options@) =~= strings_bytes(before).push(
                encode_utf8(all[i as int]),
            ));
            assert(words_bytes(all.subrange(1, i + 1)) =~= words_bytes(
                all.subrange(1, i as int),
            ).push(encode_utf8(all[i as int])));
        }
        i += 1;
    }
    proof {
        assert(all[0] == words@[0]@);
    }
    Ok(SeriesEntry::Patch { name: String::from_str(words[0]), options })
}

/// The entry of a line of a series file.
pub fn parse_line(line: &str) -> (r: Result<SeriesEntry, MissingPatchName>)
    ensures
        match line_entry(line@) {
            Some(entry) => r is Ok && r.unwrap()@ == entry,
            None => r is Err,
        },
{
    let line = trim(line);
    let words = split_whitespace(line);
    entry_from(line, words.as_slice())
}

impl Series {
    /// Read a series file from its lines
    ///
    /// Every line that holds a comment or the name of a patch gives an
    /// entry. Empty lines and lines of white space are passed over.
    pub fn read(lines: &[String]) -> (r: Self)
        ensures
            r@ == entries_of(lines_chars(lines@)),
    {
        let ghost all = lines_chars(lines@);
        let mut series = Self::new();
        let mut i: usize = 0;
        assert(all.subrange(0, 0) =~= Seq::<Seq<char>>::empty());
        while i < lines.len()
            invariant
                i <= lines.len(),
                all == lines_chars(lines@),
                entries_of(all.subrange(0, i as int)) == series@,
            decreases lines.len() - i,
        {
            let ghost before = series@;
            proof {
                assert(all[i as int] == lines@[i as int]@);
                assert(all.subrange(0, i + 1).drop_last() =~= all.subrange(0, i as int));
                assert(all.subrange(0, i + 1).last() == all[i as int]);
            }
            match parse_line(lines[i].as_str()) {
                Ok(entry) => {
                    series.entries.push(entry);
                    assert(series@ =~= before.push(entry@));
                },
                Err(_) => {},
            }
            i += 1;
        }
        assert(all.subrange(0, lines@.len() as int) =~= all);
        series
    }

    /// Create a new series file
    pub fn new() -> (r: Self)
        ensures
            r@ == Seq::<SeriesEntryView>::empty(),
    {
        let r = Self { entries: Vec::new() };
        assert(r@ =~= Seq::<SeriesEntryView>::empty());
        r
    }

    /// Get the number of patches in the series file
    pub fn len(&self) -> (r: usize)
        ensures
            r == self@.filter(is_patch()).len(),
    {
        let ghost all = self@;
        let mut count: usize = 0;
        let mut i: usize = 0;
        assert(all.subrange(0, 0).filter(is_patch()) =~= Seq::empty());
        while i < self.entries.len()
            invariant
                i <= self.entries.len(),
                count <= i,
                all == self@,
                count == all.subrange(0, i as int).filter(is_patch()).len(),
            decreases self.entries.len() - i,
        {
            proof {
                let done = all.subrange(0, i as int);
                assert(all.subrange(0, i + 1) =~= done.push(all[i as int]));
                done.lemma_filter_push(all[i as int], is_patch());
                assert(all[i as int] == self.entries@[i as int]@);
            }
            match &self.entries[i] {
                SeriesEntry::Patch { .. } => {
                    count += 1;
                },
                SeriesEntry::Comment(_) => {},
            }
            i += 1;
        }
        assert(all.subrange(0, all.len() as int) =~= all);
        count
    }

    /// Check if the series file is empty
    pub fn is_empty(&self) -> (r: bool)
        ensures
            r == (self@.filter(is_patch()).len() == 0),
    {
        self.len() == 0
    }

    /// Check if the series file contains a patch
    pub fn contains(&self, name: &str) -> (r: bool)
        ensures
            r == exists|i: int| 0 <= i < self@.len() && (#[trigger] self@[i]).is_named(name.spec_bytes()),
    {
        let ghost all = self@;
        let mut i: usize = 0;
        while i < self.entries.len()
            invariant
                i <= self.entries.len(),
                all == self@,
                forall|k: int| 0 <= k < i ==> !(#[trigger] all[k]).is_named(name.spec_bytes()),
            decreases self.entries.len() - i,
        {
            assert(all[i as int] == self.entries@[i as int]@);
            let found = match &self.entries[i] {
                SeriesEntry::Patch { name: entry_name, .. } => equal(
                    entry_name.as_str().as_bytes(),
                    name.as_bytes(),
                ),
                SeriesEntry::Comment(_) => false,
            };
            if found {
                assert(all[i as int].is_named(name.spec_bytes()));
                return true;
            }
            i += 1;
        }
        false
    }

    /// Remove a patch from the series file
    ///
    /// Every patch with the name is removed.
    pub fn remove(&mut self, name: &str)
        ensures
            final(self)@ == old(self)@.filter(not_named(name.spec_bytes())),
    {
        let ghost all = self@;
        let ghost pred = not_named(name.spec_bytes());
        let mut kept: Vec<SeriesEntry> = Vec::new();
        let mut rest: Vec<SeriesEntry> = Vec::new();
        std::mem::swap(&mut self.entries, &mut rest);
        // the entries are taken from the back, and put in order again
        let mut reversed: Vec<SeriesEntry> = Vec::new();
        while rest.len() > 0
            invariant
                entry_views(rest@) + entry_views(reversed@).reverse() == all,
            decreases rest.len(),
        {
            let ghost a = rest@;
            let ghost b = reversed@;
            let e = rest.pop().unwrap();
            reversed.push(e);
            assert(entry_views(rest@) + entry_views(reversed@).reverse() =~= entry_views(a)
                + entry_views(b).reverse());
        }
        assert(entry_views(reversed@).reverse() =~= all);
        let ghost mut done: Seq<SeriesEntryView> = Seq::empty();
        assert(done.filter(pred) =~= Seq::empty());
        while reversed.len() > 0
            invariant
                pred == not_named(name.spec_bytes()),
                done + entry_views(reversed@).reverse() == all,
                entry_views(kept@) == done.filter(pred),
            decreases reversed.len(),
        {
            let ghost b = reversed@;
            let ghost before = kept@;
            let e = reversed.pop().unwrap();
            let ghost view = e@;
            proof {
                done.lemma_filter_push(view, pred);
                assert(done.push(view) + entry_views(reversed@).reverse() =~= done
                    + entry_views(b).reverse());
            }
            let named = match &e {
                SeriesEntry::Patch { name: entry_name, .. } => equal(
                    entry_name.as_str().as_bytes(),
                    name.as_bytes(),
                ),
                SeriesEntry::Comment(_) => false,
            };
            if !named {
                kept.push(e);
                assert(entry_views(kept@) =~= entry_views(before).push(view));
            }
            proof {
                done = done.push(view);
            }
        }
        assert(done =~= all);
        self.entries = kept;
    }

    /// Get the patch names in the series file
    pub fn patches(&self) -> (r: Vec<&str>)
        ensures
            names_bytes(r@) == patch_names(self@),
    {
        let ghost all = self@;
        let mut names: Vec<&str> = Vec::new();
        let mut i: usize = 0;
        assert(names_bytes(names@) =~= patch_names(all.subrange(0, 0)));
        while i < self.entries.len()
            invariant
                i <= self.entries.len(),
                all == self@,
                names_bytes(names@) == patch_names(all.subrange(0, i as int)),
            decreases self.entries.len() - i,
        {
            let ghost before = names@;
            proof {
                assert(all.subrange(0, i + 1).drop_last() =~= all.subrange(0, i as int));
                assert(all.subrange(0, i + 1).last() == self.entries@[i as int]@);
            }
            match &self.entries[i] {
                SeriesEntry::Patch { name, .. } => {
                    names.push(name.as_str());
                    assert(names_bytes(names@) =~= names_bytes(before).push(encode_utf8(name@)));
                },
                SeriesEntry::Comment(_) => {},
            }
            i += 1;
        }
        assert(all.subrange(0, all.len() as int) =~= all);
        names
    }

    /// Append a patch to the series file
    pub fn append(&mut self, name: &str, options: Option<&[String]>)
        ensures
            final(self)@ == old(self)@.push(
                SeriesEntryView::Patch(
                    name.spec_bytes(),
                    match options {
                        Some(o) => strings_bytes(o@),
                        None => Seq::empty(),
                    },
                ),
            ),
    {
        let ghost before = self@;
        let mut copies: Vec<String> = Vec::new();
        match options {
            Some(o) => {
                let mut i: usize = 0;
                while i < o.len()
                    invariant
                        i <= o.len(),
                        strings_bytes(copies@) == strings_bytes(o@).subrange(0, i as int),
                    decreases o.len() - i,
                {
                    let ghost so_far = copies@;
                    copies.push(o[i].clone());
                    assert(strings_bytes(copies@) =~= strings_bytes(so_far).push(
                        encode_utf8(o@[i as int]@),
                    ));
                    assert(strings_bytes(o@).subrange(0, i + 1) =~= strings_bytes(o@).subrange(
                        0,
                        i as int,
                    ).push(encode_utf8(o@[i as int]@)));
                    i += 1;
                }
                assert(strings_bytes(o@).subrange(0, o@.len() as int) =~= strings_bytes(o@));
            },
            None => {
                assert(strings_bytes(copies@) =~= Seq::<Seq<u8>>::empty());
            },
        }
        let entry = SeriesEntry::Patch { name: String::from_str(name), options: copies };
        self.entries.push(entry);
        assert(self@ =~= before.push(entry@));
    }

    /// Write the series file to a writer
    ///
    /// The lines of the entries are appended to the writer.
    pub fn write(&self, writer: &mut Vec<u8>) -> (r: Result<(), crate::WriteError>)
        ensures
            r is Ok,
            final(writer)@ == old(writer)@ + series_text(self@),
    {
        let ghost all = self@;
        let ghost start = writer@;
        let mut i: usize = 0;
        assert(start + series_text(all.subrange(0, 0)) =~= start);
        while i < self.entries.len()
            invariant
                i <= self.entries.len(),
                all == self@,
                writer@ == start + series_text(all.subrange(0, i as int)),
            decreases self.entries.len() - i,
        {
            let ghost line_start = writer@;
            proof {
                assert(all.subrange(0, i + 1).drop_last() =~= all.subrange(0, i as int));
                assert(all.subrange(0, i + 1).last() == self.entries@[i as int]@);
            }
            match &self.entries[i] {
                SeriesEntry::Patch { name, options } => {
                    extend(writer, name.as_str().as_bytes());
                    let ghost opts = strings_bytes(options@);
                    let mut k: usize = 0;
                    assert(opts.subrange(0, 0) =~= Seq::<Seq<u8>>::empty());
                    assert(writer@ =~= line_start + encode_utf8(name@)
                        + SeriesEntryView::options_text(opts.subrange(0, 0)));
                    while k < options.len()
                        invariant
                            k <= options.len(),
                            opts == strings_bytes(options@),
                            writer@ == line_start + encode_utf8(name@)
                                + SeriesEntryView::options_text(opts.subrange(0, k as int)),
                        decreases options.len() - k,
                    {
                        proof {
                            assert(opts.subrange(0, k + 1).drop_last() =~= opts.subrange(
                                0,
                                k as int,
                            ));
                            assert(opts.subrange(0, k + 1).last() == encode_utf8(
                                options@[k as int]@,
                            ));
                        }
                        writer.push(SP);
                        extend(writer, options[k].as_str().as_bytes());
                        assert(writer@ =~= line_start + encode_utf8(name@)
                            + SeriesEntryView::options_text(opts.subrange(0, k + 1)));
                        k += 1;
                    }
                    assert(opts.subrange(0, opts.len() as int) =~= opts);
                    writer.push(LF);
                    assert(writer@ =~= line_start + all[i as int].line());
                },
                SeriesEntry::Comment(comment) => {
                    writer.push(0x23);
                    writer.push(SP);
                    extend(writer, comment.as_str().as_bytes());
                    writer.push(LF);
                    assert(writer@ =~= line_start + all[i as int].line());
                },
            }
            assert(writer@ =~= start + series_text(all.subrange(0, i + 1)));
            i += 1;
        }
        assert(all.subrange(0, all.len() as int) =~= all);
        Ok(())
    }

    /// Get the entries in the series file
    pub fn iter(&self) -> (r: &[SeriesEntry])
        ensures
            r@ == self.entries@,
    {
        self.entries.as_slice()
    }
}

impl Default for Series {
    fn default() -> (r: Self)
        ensures
            r@ == Seq::<SeriesEntryView>::empty(),
    {
        Self::new()
    }
}

/// A quilt patch
pub struct QuiltPatch {
    /// The name of the patch
    pub name: String,
    /// The options for the patch
    pub options: Vec<String>,
    /// The patch contents
    pub patch: Vec<u8>,
}

/// The unified patches among the patches, or the first error.
pub open spec fn plain_or_first_error(items: Seq<Result<AnyPatchView, ErrorView>>, n: int) -> Result<
    Seq<PatchView>,
    ErrorView,
>
    decreases n,
{
    if n <= 0 || n > items.len() {
        Ok(Seq::empty())
    } else {
        match plain_or_first_error(items, n - 1) {
            Err(e) => Err(e),
            Ok(done) => match items[n - 1] {
                Ok(AnyPatchView::Plain(p)) => Ok(done.push(p)),
                Ok(AnyPatchView::Binary(_, _)) => Ok(done),
                Err(e) => Err(e),
            },
        }
    }
}

/// The views of a sequence of unified patches.
pub open spec fn unified_views(patches: Seq<UnifiedPatch>) -> Seq<PatchView> {
    patches.map_values(|p: UnifiedPatch| p@)
}

impl QuiltPatch {
    /// Get the patch contents as a byte slice
    pub fn as_bytes(&self) -> (r: &[u8])
        ensures
            r@ == self.patch@,
    {
        self.patch.as_slice()
    }

    /// Get the name of the patch
    pub fn name(&self) -> (r: &str)
        ensures
            r@ == self.name@,
    {
        self.name.as_str()
    }

    /// Get the patch options
    pub fn options(&self) -> (r: &[String])
        ensures
            r@ == self.options@,
    {
        self.options.as_slice()
    }

    /// Get the patch contents
    ///
    /// The contents are cut into their lines, each with its line feed, and
    /// the lines are read as a stream of patches: the unified patches among
    /// them are given, or the first error.
    pub fn parse(&self) -> (r: Result<Vec<UnifiedPatch>, Error>)
        ensures
            match plain_or_first_error(
                patches_of(
                    split_stream(split_lines(self.patch@)),
                    split_stream(split_lines(self.patch@)).len() as int,
                    patch_spec_fn(),
                ),
                patches_of(
                    split_stream(split_lines(self.patch@)),
                    split_stream(split_lines(self.patch@)).len() as int,
                    patch_spec_fn(),
                ).len() as int,
            ) {
                Ok(patches) => r is Ok && unified_views(r.unwrap()@) == patches,
                Err(e) => r is Err && r.unwrap_err()@ == e,
            },
    {
        let slices = splitlines(self.patch.as_slice());
        let lines = own_lines(slices.as_slice());
        let mut parsed = parse_patches(lines.as_slice());
        let ghost items = crate::unified::stream::patch_views(parsed@);
        // the patches are taken from the back, and put in order again
        let mut reversed: Vec<Result<PlainOrBinaryPatch, Error>> = Vec::new();
        while parsed.len() > 0
            invariant
                crate::unified::stream::patch_views(parsed@) + crate::unified::stream::patch_views(
                    reversed@,
                ).reverse() == items,
            decreases parsed.len(),
        {
            let ghost a = parsed@;
            let ghost b = reversed@;
            let e = parsed.pop().unwrap();
            reversed.push(e);
            assert(crate::unified::stream::patch_views(parsed@)
                + crate::unified::stream::patch_views(reversed@).reverse()
                =~= crate::unified::stream::patch_views(a) + crate::unified::stream::patch_views(
                b,
            ).reverse());
        }
        let mut out: Vec<UnifiedPatch> = Vec::new();
        let ghost mut n: int = 0;
        assert(crate::unified::stream::patch_views(reversed@).reverse() =~= items);
        assert(unified_views(out@) =~= Seq::<PatchView>::empty());
        while reversed.len() > 0
            invariant
                0 <= n <= items.len(),
                n + reversed@.len() == items.len(),
                items == patches_of(
                    split_stream(split_lines(self.patch@)),
                    split_stream(split_lines(self.patch@)).len() as int,
                    patch_spec_fn(),
                ),
                forall|k: int|
                    0 <= k < reversed@.len() ==> crate::unified::stream::patch_view(
                        #[trigger] reversed@[k],
                    ) == items[items.len() - 1 - k],
                plain_or_first_error(items, n) == Ok::<Seq<PatchView>, ErrorView>(
                    unified_views(out@),
                ),
            decreases reversed.len(),
        {
            let ghost before = out@;
            let item = reversed.pop().unwrap();
            assert(crate::unified::stream::patch_view(item) == items[n]);
            match item {
                Ok(PlainOrBinaryPatch::Plain(patch)) => {
                    out.push(patch);
                    assert(unified_views(out@) =~= unified_views(before).push(patch@));
                },
                Ok(PlainOrBinaryPatch::Binary(_)) => {},
                Err(e) => {
                    proof {
                        lemma_first_error_stays(items, n + 1);
                    }
                    return Err(e);
                },
            }
            proof {
                n = n + 1;
            }
        }
        Ok(out)
    }
}

/// An error among the first `k` items is the result for every longer run.
proof fn lemma_first_error_stays(items: Seq<Result<AnyPatchView, ErrorView>>, k: int)
    requires
        0 <= k <= items.len(),
        plain_or_first_error(items, k) is Err,
    ensures
        plain_or_first_error(items, items.len() as int) == plain_or_first_error(items, k),
    decreases items.len() - k,
{
    if k < items.len() {
        lemma_first_error_stays(items, k + 1);
    }
}

} // verus!
