//! The kinds of tokens and nodes in the syntax tree of a patch file.

use vstd::prelude::*;

verus! {

/// Token types and syntax node kinds for patch files
#[derive(Debug, Clone, Copy, PartialEq, Eq, Hash, Structural)]
#[allow(non_camel_case_types)]
pub enum SyntaxKind {
    /// Minus sign token
    MINUS,
    /// Plus sign token
    PLUS,
    /// At sign token
    AT,
    /// Space character at start of line
    SPACE,
    /// Newline character
    NEWLINE,
    /// Whitespace characters (spaces and tabs)
    WHITESPACE,
    /// Numeric token
    NUMBER,
    /// Comma token
    COMMA,
    /// Colon token
    COLON,
    /// Dot token
    DOT,
    /// Slash token
    SLASH,
    /// File path token
    PATH,
    /// Text content token
    TEXT,
    /// Error token
    ERROR,
    /// Star token (for context diffs)
    STAR,
    /// Exclamation mark (for context diffs)
    EXCLAMATION,
    /// Less than sign (for normal/ed diffs)
    LESS_THAN,
    /// Greater than sign (for normal/ed diffs)
    GREATER_THAN,
    /// Letter 'a' (for ed diff commands)
    LETTER_A,
    /// Letter 'c' (for ed diff commands)
    LETTER_C,
    /// Letter 'd' (for ed diff commands)
    LETTER_D,
    /// Backslash token
    BACKSLASH,
    /// Root node of the syntax tree
    ROOT,
    /// A patch file node (generic, format determined by content)
    PATCH_FILE,
    /// File header node
    FILE_HEADER,
    /// Old file header node (unified)
    OLD_FILE,
    /// New file header node (unified)
    NEW_FILE,
    /// Hunk node (unified)
    HUNK,
    /// Hunk header node (unified)
    HUNK_HEADER,
    /// Hunk range node
    HUNK_RANGE,
    /// Context line node
    CONTEXT_LINE,
    /// Add line node
    ADD_LINE,
    /// Delete line node
    DELETE_LINE,
    /// Context diff file node
    CONTEXT_DIFF_FILE,
    /// Context diff old file header
    CONTEXT_OLD_FILE,
    /// Context diff new file header
    CONTEXT_NEW_FILE,
    /// Context diff hunk
    CONTEXT_HUNK,
    /// Context diff hunk header
    CONTEXT_HUNK_HEADER,
    /// Context diff old section
    CONTEXT_OLD_SECTION,
    /// Context diff new section
    CONTEXT_NEW_SECTION,
    /// Context diff change line (!)
    CONTEXT_CHANGE_LINE,
    /// Ed diff command node
    ED_COMMAND,
    /// Ed diff add command
    ED_ADD_COMMAND,
    /// Ed diff delete command
    ED_DELETE_COMMAND,
    /// Ed diff change command
    ED_CHANGE_COMMAND,
    /// Ed diff content line
    ED_CONTENT_LINE,
    /// Normal diff hunk
    NORMAL_HUNK,
    /// Normal diff change command
    NORMAL_CHANGE_COMMAND,
    /// Normal diff old lines
    NORMAL_OLD_LINES,
    /// Normal diff new lines
    NORMAL_NEW_LINES,
    /// Normal diff separator
    NORMAL_SEPARATOR,
    /// Hunk line node (generic)
    HUNK_LINE,
    /// No newline at end of file line
    NO_NEWLINE_LINE,
}

impl SyntaxKind {
    /// The number that stands for the kind in a tree: its place in the list
    /// of kinds, counted from 0.
    pub open spec fn raw(self) -> u16 {
        match self {
            SyntaxKind::MINUS => 0,
            SyntaxKind::PLUS => 1,
            SyntaxKind::AT => 2,
            SyntaxKind::SPACE => 3,
            SyntaxKind::NEWLINE => 4,
            SyntaxKind::WHITESPACE => 5,
            SyntaxKind::NUMBER => 6,
            SyntaxKind::COMMA => 7,
            SyntaxKind::COLON => 8,
            SyntaxKind::DOT => 9,
            SyntaxKind::SLASH => 10,
            SyntaxKind::PATH => 11,
            SyntaxKind::TEXT => 12,
            SyntaxKind::ERROR => 13,
            SyntaxKind::STAR => 14,
            SyntaxKind::EXCLAMATION => 15,
            SyntaxKind::LESS_THAN => 16,
            SyntaxKind::GREATER_THAN => 17,
            SyntaxKind::LETTER_A => 18,
            SyntaxKind::LETTER_C => 19,
            SyntaxKind::LETTER_D => 20,
            SyntaxKind::BACKSLASH => 21,
            SyntaxKind::ROOT => 22,
            SyntaxKind::PATCH_FILE => 23,
            SyntaxKind::FILE_HEADER => 24,
            SyntaxKind::OLD_FILE => 25,
            SyntaxKind::NEW_FILE => 26,
            SyntaxKind::HUNK => 27,
            SyntaxKind::HUNK_HEADER => 28,
            SyntaxKind::HUNK_RANGE => 29,
            SyntaxKind::CONTEXT_LINE => 30,
            SyntaxKind::ADD_LINE => 31,
            SyntaxKind::DELETE_LINE => 32,
            SyntaxKind::CONTEXT_DIFF_FILE => 33,
            SyntaxKind::CONTEXT_OLD_FILE => 34,
            SyntaxKind::CONTEXT_NEW_FILE => 35,
            SyntaxKind::CONTEXT_HUNK => 36,
            SyntaxKind::CONTEXT_HUNK_HEADER => 37,
            SyntaxKind::CONTEXT_OLD_SECTION => 38,
            SyntaxKind::CONTEXT_NEW_SECTION => 39,
            SyntaxKind::CONTEXT_CHANGE_LINE => 40,
            SyntaxKind::ED_COMMAND => 41,
            SyntaxKind::ED_ADD_COMMAND => 42,
            SyntaxKind::ED_DELETE_COMMAND => 43,
            SyntaxKind::ED_CHANGE_COMMAND => 44,
            SyntaxKind::ED_CONTENT_LINE => 45,
            SyntaxKind::NORMAL_HUNK => 46,
            SyntaxKind::NORMAL_CHANGE_COMMAND => 47,
            SyntaxKind::NORMAL_OLD_LINES => 48,
            SyntaxKind::NORMAL_NEW_LINES => 49,
            SyntaxKind::NORMAL_SEPARATOR => 50,
            SyntaxKind::HUNK_LINE => 51,
            SyntaxKind::NO_NEWLINE_LINE => 52,
        }
    }

    /// The kind that a number stands for, if it stands for one.
    pub open spec fn of_raw(raw: u16) -> Option<SyntaxKind> {
        if raw == 0 {
            Some(SyntaxKind::MINUS)
        } else if raw == 1 {
            Some(SyntaxKind::PLUS)
        } else if raw == 2 {
            Some(SyntaxKind::AT)
        } else if raw == 3 {
            Some(SyntaxKind::SPACE)
        } else if raw == 4 {
            Some(SyntaxKind::NEWLINE)
        } else if raw == 5 {
            Some(SyntaxKind::WHITESPACE)
        } else if raw == 6 {
            Some(SyntaxKind::NUMBER)
        } else if raw == 7 {
            Some(SyntaxKind::COMMA)
        } else if raw == 8 {
            Some(SyntaxKind::COLON)
        } else if raw == 9 {
            Some(SyntaxKind::DOT)
        } else if raw == 10 {
            Some(SyntaxKind::SLASH)
        } else if raw == 11 {
            Some(SyntaxKind::PATH)
        } else if raw == 12 {
            Some(SyntaxKind::TEXT)
        } else if raw == 13 {
            Some(SyntaxKind::ERROR)
        } else if raw == 14 {
            Some(SyntaxKind::STAR)
        } else if raw == 15 {
            Some(SyntaxKind::EXCLAMATION)
        } else if raw == 16 {
            Some(SyntaxKind::LESS_THAN)
        } else if raw == 17 {
            Some(SyntaxKind::GREATER_THAN)
        } else if raw == 18 {
            Some(SyntaxKind::LETTER_A)
        } else if raw == 19 {
            Some(SyntaxKind::LETTER_C)
        } else if raw == 20 {
            Some(SyntaxKind::LETTER_D)
        } else if raw == 21 {
            Some(SyntaxKind::BACKSLASH)
        } else if raw == 22 {
            Some(SyntaxKind::ROOT)
        } else if raw == 23 {
            Some(SyntaxKind::PATCH_FILE)
        } else if raw == 24 {
            Some(SyntaxKind::FILE_HEADER)
        } else if raw == 25 {
            Some(SyntaxKind::OLD_FILE)
        } else if raw == 26 {
            Some(SyntaxKind::NEW_FILE)
        } else if raw == 27 {
            Some(SyntaxKind::HUNK)
        } else if raw == 28 {
            Some(SyntaxKind::HUNK_HEADER)
        } else if raw == 29 {
            Some(SyntaxKind::HUNK_RANGE)
        } else if raw == 30 {
            Some(SyntaxKind::CONTEXT_LINE)
        } else if raw == 31 {
            Some(SyntaxKind::ADD_LINE)
        } else if raw == 32 {
            Some(SyntaxKind::DELETE_LINE)
        } else if raw == 33 {
            Some(SyntaxKind::CONTEXT_DIFF_FILE)
        } else if raw == 34 {
            Some(SyntaxKind::CONTEXT_OLD_FILE)
        } else if raw == 35 {
            Some(SyntaxKind::CONTEXT_NEW_FILE)
        } else if raw == 36 {
            Some(SyntaxKind::CONTEXT_HUNK)
        } else if raw == 37 {
            Some(SyntaxKind::CONTEXT_HUNK_HEADER)
        } else if raw == 38 {
            Some(SyntaxKind::CONTEXT_OLD_SECTION)
        } else if raw == 39 {
            Some(SyntaxKind::CONTEXT_NEW_SECTION)
        } else if raw == 40 {
            Some(SyntaxKind::CONTEXT_CHANGE_LINE)
        } else if raw == 41 {
            Some(SyntaxKind::ED_COMMAND)
        } else if raw == 42 {
            Some(SyntaxKind::ED_ADD_COMMAND)
        } else if raw == 43 {
            Some(SyntaxKind::ED_DELETE_COMMAND)
        } else if raw == 44 {
            Some(SyntaxKind::ED_CHANGE_COMMAND)
        } else if raw == 45 {
            Some(SyntaxKind::ED_CONTENT_LINE)
        } else if raw == 46 {
            Some(SyntaxKind::NORMAL_HUNK)
        } else if raw == 47 {
            Some(SyntaxKind::NORMAL_CHANGE_COMMAND)
        } else if raw == 48 {
            Some(SyntaxKind::NORMAL_OLD_LINES)
        } else if raw == 49 {
            Some(SyntaxKind::NORMAL_NEW_LINES)
        } else if raw == 50 {
            Some(SyntaxKind::NORMAL_SEPARATOR)
        } else if raw == 51 {
            Some(SyntaxKind::HUNK_LINE)
        } else if raw == 52 {
            Some(SyntaxKind::NO_NEWLINE_LINE)
        } else {
            None
        }
    }

    /// The number that stands for the kind in a tree.
    pub fn to_raw(self) -> (r: u16)
        ensures
            r == self.raw(),
            SyntaxKind::of_raw(r) == Some(self),
    {
        match self {
            SyntaxKind::MINUS => 0,
            SyntaxKind::PLUS => 1,
            SyntaxKind::AT => 2,
            SyntaxKind::SPACE => 3,
            SyntaxKind::NEWLINE => 4,
            SyntaxKind::WHITESPACE => 5,
            SyntaxKind::NUMBER => 6,
            SyntaxKind::COMMA => 7,
            SyntaxKind::COLON => 8,
            SyntaxKind::DOT => 9,
            SyntaxKind::SLASH => 10,
            SyntaxKind::PATH => 11,
            SyntaxKind::TEXT => 12,
            SyntaxKind::ERROR => 13,
            SyntaxKind::STAR => 14,
            SyntaxKind::EXCLAMATION => 15,
            SyntaxKind::LESS_THAN => 16,
            SyntaxKind::GREATER_THAN => 17,
            SyntaxKind::LETTER_A => 18,
            SyntaxKind::LETTER_C => 19,
            SyntaxKind::LETTER_D => 20,
            SyntaxKind::BACKSLASH => 21,
            SyntaxKind::ROOT => 22,
            SyntaxKind::PATCH_FILE => 23,
            SyntaxKind::FILE_HEADER => 24,
            SyntaxKind::OLD_FILE => 25,
            SyntaxKind::NEW_FILE => 26,
            SyntaxKind::HUNK => 27,
            SyntaxKind::HUNK_HEADER => 28,
            SyntaxKind::HUNK_RANGE => 29,
            SyntaxKind::CONTEXT_LINE => 30,
            SyntaxKind::ADD_LINE => 31,
            SyntaxKind::DELETE_LINE => 32,
            SyntaxKind::CONTEXT_DIFF_FILE => 33,
            SyntaxKind::CONTEXT_OLD_FILE => 34,
            SyntaxKind::CONTEXT_NEW_FILE => 35,
            SyntaxKind::CONTEXT_HUNK => 36,
            SyntaxKind::CONTEXT_HUNK_HEADER => 37,
            SyntaxKind::CONTEXT_OLD_SECTION => 38,
            SyntaxKind::CONTEXT_NEW_SECTION => 39,
            SyntaxKind::CONTEXT_CHANGE_LINE => 40,
            SyntaxKind::ED_COMMAND => 41,
            SyntaxKind::ED_ADD_COMMAND => 42,
            SyntaxKind::ED_DELETE_COMMAND => 43,
            SyntaxKind::ED_CHANGE_COMMAND => 44,
            SyntaxKind::ED_CONTENT_LINE => 45,
            SyntaxKind::NORMAL_HUNK => 46,
            SyntaxKind::NORMAL_CHANGE_COMMAND => 47,
            SyntaxKind::NORMAL_OLD_LINES => 48,
            SyntaxKind::NORMAL_NEW_LINES => 49,
            SyntaxKind::NORMAL_SEPARATOR => 50,
            SyntaxKind::HUNK_LINE => 51,
            SyntaxKind::NO_NEWLINE_LINE => 52,
        }
    }

    /// The kind that a number stands for, if it stands for one.
    pub fn from_raw(raw: u16) -> (r: Option<SyntaxKind>)
        ensures
            r == SyntaxKind::of_raw(raw),
            r is Some ==> r.unwrap().raw() == raw,
    {
        match raw {
            0 => Some(SyntaxKind::MINUS),
            1 => Some(SyntaxKind::PLUS),
            2 => Some(SyntaxKind::AT),
            3 => Some(SyntaxKind::SPACE),
            4 => Some(SyntaxKind::NEWLINE),
            5 => Some(SyntaxKind::WHITESPACE),
            6 => Some(SyntaxKind::NUMBER),
            7 => Some(SyntaxKind::COMMA),
            8 => Some(SyntaxKind::COLON),
            9 => Some(SyntaxKind::DOT),
            10 => Some(SyntaxKind::SLASH),
            11 => Some(SyntaxKind::PATH),
            12 => Some(SyntaxKind::TEXT),
            13 => Some(SyntaxKind::ERROR),
            14 => Some(SyntaxKind::STAR),
            15 => Some(SyntaxKind::EXCLAMATION),
            16 => Some(SyntaxKind::LESS_THAN),
            17 => Some(SyntaxKind::GREATER_THAN),
            18 => Some(SyntaxKind::LETTER_A),
            19 => Some(SyntaxKind::LETTER_C),
            20 => Some(SyntaxKind::LETTER_D),
            21 => Some(SyntaxKind::BACKSLASH),
            22 => Some(SyntaxKind::ROOT),
            23 => Some(SyntaxKind::PATCH_FILE),
            24 => Some(SyntaxKind::FILE_HEADER),
            25 => Some(SyntaxKind::OLD_FILE),
            26 => Some(SyntaxKind::NEW_FILE),
            27 => Some(SyntaxKind::HUNK),
            28 => Some(SyntaxKind::HUNK_HEADER),
            29 => Some(SyntaxKind::HUNK_RANGE),
            30 => Some(SyntaxKind::CONTEXT_LINE),
            31 => Some(SyntaxKind::ADD_LINE),
            32 => Some(SyntaxKind::DELETE_LINE),
            33 => Some(SyntaxKind::CONTEXT_DIFF_FILE),
            34 => Some(SyntaxKind::CONTEXT_OLD_FILE),
            35 => Some(SyntaxKind::CONTEXT_NEW_FILE),
            36 => Some(SyntaxKind::CONTEXT_HUNK),
            37 => Some(SyntaxKind::CONTEXT_HUNK_HEADER),
            38 => Some(SyntaxKind::CONTEXT_OLD_SECTION),
            39 => Some(SyntaxKind::CONTEXT_NEW_SECTION),
            40 => Some(SyntaxKind::CONTEXT_CHANGE_LINE),
            41 => Some(SyntaxKind::ED_COMMAND),
            42 => Some(SyntaxKind::ED_ADD_COMMAND),
            43 => Some(SyntaxKind::ED_DELETE_COMMAND),
            44 => Some(SyntaxKind::ED_CHANGE_COMMAND),
            45 => Some(SyntaxKind::ED_CONTENT_LINE),
            46 => Some(SyntaxKind::NORMAL_HUNK),
            47 => Some(SyntaxKind::NORMAL_CHANGE_COMMAND),
            48 => Some(SyntaxKind::NORMAL_OLD_LINES),
            49 => Some(SyntaxKind::NORMAL_NEW_LINES),
            50 => Some(SyntaxKind::NORMAL_SEPARATOR),
            51 => Some(SyntaxKind::HUNK_LINE),
            52 => Some(SyntaxKind::NO_NEWLINE_LINE),
            _ => None,
        }
    }
}

} // verus!
