//! Functions for parsing and formatting patch dates.
//!
//! A patch date is written `YYYY-MM-DD HH:MM:SS +HHMM`. The date and the
//! time of day come from the `chrono` crate, and the text is taken apart by
//! the `regex` crate; what this module states of the two is taken on trust
//! from their documentation.
use crate::bytes::{decimal_value, is_decimal, is_digit};
use crate::text::{decimal_chars, digit_str, push_decimal};
use std::fmt::Write;
use vstd::prelude::*;
use vstd::string::{StringExecFns, StringSliceAdditionalSpecFns};

verus! {

/// Error parsing a patch date.
#[derive(Debug, PartialEq, Eq)]
pub enum ParsePatchDateError {
    /// The date string is invalid.
    InvalidDate(String),
    /// The date string is missing a timezone offset.
    MissingTimezoneOffset(String),
    /// The timezone offset is invalid.
    InvalidTimezoneOffset(String),
}

/// Error formatting a patch date.
#[derive(Debug, PartialEq, Eq)]
pub enum FormatPatchDateError {
    /// The timezone offset is invalid.
    InvalidTimezoneOffset(i64),
    /// The time is negative.
    NegativeTime(i64, i64),
}

/// The pattern of a patch date at the end of a text, in three groups:
/// the date with the time of day, the sign with the hours of the offset, and
/// the minutes of the offset.
pub const PATCH_DATE_PATTERN: &'static str =
    "(\\d+-\\d+-\\d+\\s+\\d+:\\d+:\\d+)\\s*([+-]\\d\\d)(\\d\\d)$";

/// The pattern of a date with a time of day and no offset at the end of a
/// text.
pub const DATE_PATTERN: &'static str = "\\d+-\\d+-\\d+\\s+\\d+:\\d+:\\d+$";

/// How the date and the time of day of a patch date are written.
pub const DATE_FORMAT: &'static str = "%Y-%m-%d %H:%M:%S";

/// What `regex` finds of a pattern in a text: the groups of the first
/// match, the whole match first and `None` for a group that took no part;
/// `None` where the pattern matches nowhere, or is no pattern.
pub uninterp spec fn regex_captures(pattern: Seq<char>, text: Seq<char>) -> Option<
    Seq<Option<Seq<char>>>,
>;

/// Whether `regex` finds a pattern in a text; not so where the pattern is
/// no pattern.
pub uninterp spec fn regex_is_match(pattern: Seq<char>, text: Seq<char>) -> bool;

/// The date and the time of day, in UTC, of a number of seconds since the
/// beginning of 1970, as `chrono` writes them in a format; `None` for a
/// number of seconds that `chrono` cannot hold, and for a format that it
/// cannot write.
pub uninterp spec fn chrono_text(secs: int, format: Seq<char>) -> Option<Seq<char>>;

/// The seconds since the beginning of 1970 of a date with a time of day
/// that `chrono` reads in a format, taken as UTC; `None` for a text that is
/// not written in the format.
pub uninterp spec fn chrono_seconds(text: Seq<char>, format: Seq<char>) -> Option<int>;

/// The groups as sequences of characters.
pub open spec fn group_views(groups: Seq<Option<String>>) -> Seq<Option<Seq<char>>> {
    groups.map_values(
        |g: Option<String>|
            match g {
                Some(text) => Some(text@),
                None => None,
            },
    )
}

/// `regex::Regex::new` and `Regex::captures`: the groups of the first
/// match of the pattern in the text, each as a text of its own. The contract
/// names the result, which depends on the pattern and the text alone.
#[verifier::external_body]
fn captures(pattern: &str, text: &str) -> (r: Option<Vec<Option<String>>>)
    ensures
        match regex_captures(pattern@, text@) {
            Some(groups) => r is Some && group_views(r.unwrap()@) == groups,
            None => r is None,
        },
{
    match regex::Regex::new(pattern) {
        Ok(re) => re.captures(text).map(
            |m| m.iter().map(|g| g.map(|g| g.as_str().to_string())).collect(),
        ),
        Err(_) => None,
    }
}

/// `regex::Regex::new` and `Regex::is_match`. The contract names the
/// result, which depends on the pattern and the text alone.
#[verifier::external_body]
fn is_match(pattern: &str, text: &str) -> (r: bool)
    ensures
        r == regex_is_match(pattern@, text@),
{
    match regex::Regex::new(pattern) {
        Ok(re) => re.is_match(text),
        Err(_) => false,
    }
}

/// `chrono::DateTime::from_timestamp` and `DateTime::format`: the date of
/// `secs` seconds since the beginning of 1970, written in the format. The
/// contract names the result, which depends on the number and the format
/// alone.
#[verifier::external_body]
fn utc_text(secs: i64, format: &str) -> (r: Option<String>)
    ensures
        match chrono_text(secs as int, format@) {
            Some(text) => r is Some && r.unwrap()@ == text,
            None => r is None,
        },
{
    let mut out = String::new();
    match chrono::DateTime::from_timestamp(secs, 0) {
        Some(date) => match write!(out, "{}", date.format(format)) {
            Ok(()) => Some(out),
            Err(_) => None,
        },
        None => None,
    }
}

/// `chrono::NaiveDateTime::parse_from_str`, and the seconds since the
/// beginning of 1970 of what it reads, taken as UTC. The contract names the
/// result, which depends on the text and the format alone.
#[verifier::external_body]
fn utc_seconds(text: &str, format: &str) -> (r: Option<i64>)
    ensures
        match chrono_seconds(text@, format@) {
            Some(secs) => r is Some && r.unwrap() == secs,
            None => r is None,
        },
{
    chrono::NaiveDateTime::parse_from_str(text, format).ok().map(
        |date| date.and_utc().timestamp(),
    )
}

/// The date and the time of day, in UTC, of a number of seconds since the
/// beginning of 1970, written `YYYY-MM-DD HH:MM:SS`; `None` for a number of
/// seconds that `chrono` cannot hold.
pub open spec fn utc_date_text(secs: int) -> Option<Seq<char>> {
    chrono_text(secs, DATE_FORMAT@)
}

/// The three parts of a patch date that ends a text: the date with the
/// time of day, the sign with the hours of the offset, and the minutes of the
/// offset; `None` for a text that does not end in a patch date.
pub open spec fn patch_date_parts(text: Seq<char>) -> Option<(Seq<char>, Seq<char>, Seq<char>)> {
    match regex_captures(PATCH_DATE_PATTERN@, text) {
        Some(groups) => if groups.len() >= 4 && groups[1] is Some && groups[2] is Some
            && groups[3] is Some {
            Some((groups[1].unwrap(), groups[2].unwrap(), groups[3].unwrap()))
        } else {
            None
        },
        None => None,
    }
}

/// Whether a text ends in a date with a time of day and no offset.
pub open spec fn ends_in_date(text: Seq<char>) -> bool {
    regex_is_match(DATE_PATTERN@, text)
}

/// The seconds since the beginning of 1970 of a date with a time of day
/// written `YYYY-MM-DD HH:MM:SS`, read as UTC; `None` for a text that is no
/// such date.
pub open spec fn date_seconds(text: Seq<char>) -> Option<int> {
    chrono_seconds(text, DATE_FORMAT@)
}

/// The date of `secs` seconds since the beginning of 1970.
fn utc_date(secs: i64) -> (r: Option<String>)
    ensures
        match utc_date_text(secs as int) {
            Some(text) => r is Some && r.unwrap()@ == text,
            None => r is None,
        },
{
    utc_text(secs, DATE_FORMAT)
}

/// The three parts of the patch date that ends a text.
fn match_patch_date(text: &str) -> (r: Option<(String, String, String)>)
    ensures
        match patch_date_parts(text@) {
            Some(parts) => r is Some && r.unwrap().0@ == parts.0 && r.unwrap().1@ == parts.1
                && r.unwrap().2@ == parts.2,
            None => r is None,
        },
{
    let mut groups = match captures(PATCH_DATE_PATTERN, text) {
        Some(groups) => groups,
        None => {
            return None;
        },
    };
    if groups.len() < 4 {
        return None;
    }
    let ghost views = group_views(groups@);
    assert(views[1] == group_views(groups@)[1]);
    assert(group_views(groups@)[1] is Some == groups@[1] is Some);
    assert(group_views(groups@)[2] is Some == groups@[2] is Some);
    assert(group_views(groups@)[3] is Some == groups@[3] is Some);
    let minutes = groups.remove(3);
    let hours = groups.remove(2);
    let date = groups.remove(1);
    match (date, hours, minutes) {
        (Some(date), Some(hours), Some(minutes)) => Some((date, hours, minutes)),
        _ => None,
    }
}

/// Whether a text ends in a date with a time of day and no offset.
fn match_date_without_offset(text: &str) -> (r: bool)
    ensures
        r == ends_in_date(text@),
{
    is_match(DATE_PATTERN, text)
}

/// The seconds of a date with a time of day, read as UTC.
fn parse_date(text: &str) -> (r: Option<i64>)
    ensures
        match date_seconds(text@) {
            Some(secs) => r is Some && r.unwrap() == secs,
            None => r is None,
        },
{
    utc_seconds(text, DATE_FORMAT)
}

/// A number in two digits or more: with a zero before a single digit.
pub open spec fn two_digits(n: nat) -> Seq<char> {
    if n < 10 {
        seq!['0'] + decimal_chars(n)
    } else {
        decimal_chars(n)
    }
}

/// A patch date: the date with the time of day, a space, the sign of the
/// offset, and its hours and minutes in two digits each.
pub open spec fn patch_date_text(date: Seq<char>, offset: int) -> Seq<char> {
    let size = if offset < 0 {
        -offset
    } else {
        offset
    };
    date + seq![' '] + seq![if offset >= 0 {
        '+'
    } else {
        '-'
    }] + two_digits((size / 3600) as nat) + two_digits(((size / 60) % 60) as nat)
}

/// What formatting a patch date gives, for the date `date` of the seconds.
///
/// The offset must be whole minutes. At the beginning of 1970 itself the
/// offset is taken as 0. Seconds and offset together must not lie before the
/// beginning of 1970.
pub open spec fn format_spec(date: Seq<char>, secs: int, offset: int) -> Result<
    Seq<char>,
    FormatPatchDateError,
> {
    let used = if secs == 0 {
        0
    } else {
        offset
    };
    if offset % 60 != 0 {
        Err(FormatPatchDateError::InvalidTimezoneOffset(offset as i64))
    } else if secs + used < 0 {
        Err(FormatPatchDateError::NegativeTime(secs as i64, used as i64))
    } else {
        Ok(patch_date_text(date, used))
    }
}

/// Appends `n` in two digits or more to `text`.
fn push_two_digits(text: &mut String, n: u64)
    ensures
        final(text)@ == old(text)@ + two_digits(n as nat),
{
    let ghost start = text@;
    if n < 10 {
        text.append(digit_str(0));
    }
    let ghost before = text@;
    push_decimal(text, n);
    proof {
        if n < 10 {
            assert(before + decimal_chars(n as nat) =~= start + (seq!['0'] + decimal_chars(
                n as nat,
            )));
        }
    }
}

/// The patch date of seconds whose date in UTC is written `date`.
pub fn patch_date_from(date: &str, secs: i64, offset: i64) -> (r: Result<
    String,
    FormatPatchDateError,
>)
    ensures
        match format_spec(date@, secs as int, offset as int) {
            Ok(text) => r is Ok && r.unwrap()@ == text,
            Err(e) => r == Err::<String, FormatPatchDateError>(e),
        },
{
    if offset % 60 != 0 {
        return Err(FormatPatchDateError::InvalidTimezoneOffset(offset));
    }
    let used: i64 = if secs == 0 {
        0
    } else {
        offset
    };
    if (secs as i128) + (used as i128) < 0 {
        return Err(FormatPatchDateError::NegativeTime(secs, used));
    }
    let size: u64 = if used >= 0 {
        used as u64
    } else {
        (-(used as i128)) as u64
    };
    let mut text = String::from_str(date);
    proof {
        reveal_strlit(" ");
        reveal_strlit("+");
        reveal_strlit("-");
    }
    text.append(" ");
    if used >= 0 {
        text.append("+");
    } else {
        text.append("-");
    }
    let ghost head = text@;
    assert(head =~= date@ + seq![' '] + seq![if used >= 0 {
        '+'
    } else {
        '-'
    }]);
    push_two_digits(&mut text, size / 3600);
    push_two_digits(&mut text, (size / 60) % 60);
    assert(text@ =~= patch_date_text(date@, used as int));
    Ok(text)
}

/// Whether the seconds and the offset are such that a patch date is to be
/// written, so that the date of the seconds is needed.
pub open spec fn needs_date(secs: int, offset: int) -> bool {
    format_spec(Seq::empty(), secs, offset) is Ok
}

/// Format a patch date.
///
/// Where a date is to be written, `chrono` must be able to hold the seconds.
pub fn format_patch_date(secs: i64, offset: i64) -> (r: Result<String, FormatPatchDateError>)
    requires
        needs_date(secs as int, offset as int) ==> utc_date_text(secs as int) is Some,
    ensures
        match format_spec(
            match utc_date_text(secs as int) {
                Some(date) => date,
                None => Seq::empty(),
            },
            secs as int,
            offset as int,
        ) {
            Ok(text) => r is Ok && r.unwrap()@ == text,
            Err(e) => r == Err::<String, FormatPatchDateError>(e),
        },
{
    let date = match utc_date(secs) {
        Some(date) => date,
        None => String::new(),
    };
    patch_date_from(date.as_str(), secs, offset)
}

/// Format a patch date, where `chrono` can hold the seconds; `None` where
/// a date is to be written and `chrono` cannot hold them.
pub fn try_format_patch_date(secs: i64, offset: i64) -> (r: Option<
    Result<String, FormatPatchDateError>,
>)
    ensures
        match format_spec(
            match utc_date_text(secs as int) {
                Some(date) => date,
                None => Seq::empty(),
            },
            secs as int,
            offset as int,
        ) {
            Ok(text) => if utc_date_text(secs as int) is Some {
                r is Some && r.unwrap() is Ok && r.unwrap().unwrap()@ == text
            } else {
                r is None
            },
            Err(e) => r == Some(Err::<String, FormatPatchDateError>(e)),
        },
{
    let needed = offset % 60 == 0 && (secs == 0 || (secs as i128) + (offset as i128) >= 0);
    if needed && utc_date(secs).is_none() {
        return None;
    }
    Some(format_patch_date(secs, offset))
}

/// What a number with a sign says: a plus or a minus sign or none, and
/// digits whose value fits into 64 bits with a sign.
pub open spec fn signed_value(s: Seq<u8>) -> Option<int> {
    let negative = s.len() > 0 && s[0] == 0x2d;
    let digits = if s.len() > 0 && (s[0] == 0x2d || s[0] == 0x2b) {
        s.subrange(1, s.len() as int)
    } else {
        s
    };
    if !is_decimal(digits) {
        None
    } else if negative {
        if decimal_value(digits) <= 0x8000_0000_0000_0000 {
            Some(-(decimal_value(digits) as int))
        } else {
            None
        }
    } else if decimal_value(digits) <= 0x7fff_ffff_ffff_ffff {
        Some(decimal_value(digits) as int)
    } else {
        None
    }
}

/// Reads digits whose value fits into 64 bits.
fn parse_u64(s: &[u8]) -> (r: Option<u64>)
    ensures
        r is Some <==> is_decimal(s@) && decimal_value(s@) <= u64::MAX,
        r is Some ==> r.unwrap() == decimal_value(s@),
{
    if s.len() == 0 {
        return None;
    }
    let mut value: u64 = 0;
    let mut i: usize = 0;
    while i < s.len()
        invariant
            i <= s.len(),
            value == decimal_value(s@.subrange(0, i as int)),
            forall|k: int| 0 <= k < i ==> is_digit(#[trigger] s@[k]),
        decreases s.len() - i,
    {
        let b = s[i];
        if b < 0x30 || b > 0x39 {
            return None;
        }
        let digit: u64 = (b - 0x30) as u64;
        proof {
            assert(s@.subrange(0, i + 1).drop_last() =~= s@.subrange(0, i as int));
            assert(s@.subrange(0, i + 1).last() == b);
        }
        if value > (u64::MAX - digit) / 10 {
            proof {
                assert(value * 10 + digit > u64::MAX);
                crate::bytes::lemma_decimal_prefix_le(s@, i + 1);
            }
            return None;
        }
        value = value * 10 + digit;
        i += 1;
    }
    assert(s@.subrange(0, s@.len() as int) =~= s@);
    Some(value)
}

/// Reads a number with a sign.
fn parse_signed(text: &str) -> (r: Option<i64>)
    ensures
        match signed_value(text.spec_bytes()) {
            Some(v) => r is Some && r.unwrap() == v,
            None => r is None,
        },
{
    let s = text.as_bytes();
    let negative = s.len() > 0 && s[0] == 0x2d;
    let digits = if s.len() > 0 && (s[0] == 0x2d || s[0] == 0x2b) {
        vstd::slice::slice_subrange(s, 1, s.len())
    } else {
        s
    };
    match parse_u64(digits) {
        None => None,
        Some(v) => {
            if negative {
                if v <= 0x8000_0000_0000_0000 {
                    Some((-(v as i128)) as i64)
                } else {
                    None
                }
            } else if v <= 0x7fff_ffff_ffff_ffff {
                Some(v as i64)
            } else {
                None
            }
        },
    }
}

/// The offset that the hours with their sign and the minutes make, in
/// seconds: the hours less than a day, the minutes less than an hour. The
/// sign before the hours is that of the whole offset, so that `-0530` is
/// five and a half hours behind.
pub open spec fn offset_of(hours: Seq<u8>, minutes: Seq<u8>) -> Option<int> {
    match (signed_value(hours), signed_value(minutes)) {
        (Some(h), Some(m)) => if -24 < h < 24 && 0 <= m < 60 {
            if hours.len() > 0 && hours[0] == 0x2d {
                Some(h * 3600 - m * 60)
            } else {
                Some(h * 3600 + m * 60)
            }
        } else {
            None
        },
        _ => None,
    }
}

/// What a patch date says, given the parts that the text ends in, whether
/// it ends in a date without an offset, and the seconds of its date: the
/// seconds since the beginning of 1970 in UTC, and the offset in seconds.
pub open spec fn parse_spec(
    parts: Option<(Seq<char>, Seq<char>, Seq<char>)>,
    without_offset: bool,
    seconds: Option<int>,
) -> Result<(int, int), PatchDateFault> {
    match parts {
        None => if without_offset {
            Err(PatchDateFault::MissingTimezoneOffset)
        } else {
            Err(PatchDateFault::InvalidDate)
        },
        Some(p) => match offset_of(vstd::utf8::encode_utf8(p.1), vstd::utf8::encode_utf8(p.2)) {
            None => Err(PatchDateFault::InvalidTimezoneOffset),
            Some(offset) => match seconds {
                None => Err(PatchDateFault::InvalidDate),
                Some(s) => if i64::MIN <= s - offset <= i64::MAX {
                    Ok((s - offset, offset))
                } else {
                    Err(PatchDateFault::InvalidDate)
                },
            },
        },
    }
}

/// Why a text is no patch date.
pub enum PatchDateFault {
    InvalidDate,
    MissingTimezoneOffset,
    InvalidTimezoneOffset,
}

impl ParsePatchDateError {
    /// The kind of the error.
    pub open spec fn fault(self) -> PatchDateFault {
        match self {
            ParsePatchDateError::InvalidDate(_) => PatchDateFault::InvalidDate,
            ParsePatchDateError::MissingTimezoneOffset(_) => PatchDateFault::MissingTimezoneOffset,
            ParsePatchDateError::InvalidTimezoneOffset(_) => PatchDateFault::InvalidTimezoneOffset,
        }
    }

    /// The text that the error carries.
    pub open spec fn text(self) -> Seq<char> {
        match self {
            ParsePatchDateError::InvalidDate(t) => t@,
            ParsePatchDateError::MissingTimezoneOffset(t) => t@,
            ParsePatchDateError::InvalidTimezoneOffset(t) => t@,
        }
    }
}

/// What a patch date says, from the parts that the text ends in.
///
/// `parts` is what the text was found to end in, `without_offset` whether it
/// ends in a date without an offset, and `seconds` the seconds of the date of
/// the first part.
pub fn patch_date_of(
    date_str: &str,
    parts: Option<(String, String, String)>,
    without_offset: bool,
    seconds: Option<i64>,
) -> (r: Result<(i64, i64), ParsePatchDateError>)
    ensures
        match parse_spec(
            match parts {
                Some(p) => Some((p.0@, p.1@, p.2@)),
                None => None,
            },
            without_offset,
            match seconds {
                Some(s) => Some(s as int),
                None => None,
            },
        ) {
            Ok((secs, offset)) => r is Ok && r.unwrap().0 == secs && r.unwrap().1 == offset,
            Err(fault) => r is Err && r.unwrap_err().fault() == fault && r.unwrap_err().text()
                == date_str@,
        },
{
    let (hours_str, minutes_str) = match parts {
        None => {
            if without_offset {
                return Err(
                    ParsePatchDateError::MissingTimezoneOffset(String::from_str(date_str)),
                );
            } else {
                return Err(ParsePatchDateError::InvalidDate(String::from_str(date_str)));
            }
        },
        Some(p) => (p.1, p.2),
    };
    let offset_hours = match parse_signed(hours_str.as_str()) {
        Some(h) => h,
        None => {
            return Err(ParsePatchDateError::InvalidTimezoneOffset(String::from_str(date_str)));
        },
    };
    let offset_minutes = match parse_signed(minutes_str.as_str()) {
        Some(m) => m,
        None => {
            return Err(ParsePatchDateError::InvalidTimezoneOffset(String::from_str(date_str)));
        },
    };
    if offset_hours <= -24 || offset_hours >= 24 || offset_minutes < 0 || offset_minutes >= 60 {
        return Err(ParsePatchDateError::InvalidTimezoneOffset(String::from_str(date_str)));
    }
    let sign = hours_str.as_str().as_bytes();
    let offset = if sign.len() > 0 && sign[0] == 0x2d {
        offset_hours * 3600 - offset_minutes * 60
    } else {
        offset_hours * 3600 + offset_minutes * 60
    };
    let secs = match seconds {
        Some(s) => s,
        None => {
            return Err(ParsePatchDateError::InvalidDate(String::from_str(date_str)));
        },
    };
    let utc = (secs as i128) - (offset as i128);
    if utc < -0x8000_0000_0000_0000 || utc > 0x7fff_ffff_ffff_ffff {
        return Err(ParsePatchDateError::InvalidDate(String::from_str(date_str)));
    }
    Ok((utc as i64, offset))
}

/// Parse a patch date.
pub fn parse_patch_date(date_str: &str) -> (r: Result<(i64, i64), ParsePatchDateError>)
    ensures
        match parse_spec(
            patch_date_parts(date_str@),
            ends_in_date(date_str@),
            match patch_date_parts(date_str@) {
                Some(p) => date_seconds(p.0),
                None => None,
            },
        ) {
            Ok((secs, offset)) => r is Ok && r.unwrap().0 == secs && r.unwrap().1 == offset,
            Err(fault) => r is Err && r.unwrap_err().fault() == fault && r.unwrap_err().text()
                == date_str@,
        },
{
    let parts = match_patch_date(date_str);
    let without_offset = match_date_without_offset(date_str);
    let seconds = match &parts {
        Some(p) => parse_date(p.0.as_str()),
        None => None,
    };
    patch_date_of(date_str, parts, without_offset, seconds)
}

} // verus!
