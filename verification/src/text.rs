//! Texts of messages: numbers in decimal, bytes read as text, and text in
//! quotes.
use crate::bytes::vec_views;
use vstd::prelude::*;
use vstd::string::StringExecFns;

verus! {

/// The character of a digit.
pub open spec fn digit_char(d: int) -> char {
    if d == 0 {
        '0'
    } else if d == 1 {
        '1'
    } else if d == 2 {
        '2'
    } else if d == 3 {
        '3'
    } else if d == 4 {
        '4'
    } else if d == 5 {
        '5'
    } else if d == 6 {
        '6'
    } else if d == 7 {
        '7'
    } else if d == 8 {
        '8'
    } else {
        '9'
    }
}

/// The decimal digits of `n`, without leading zeros.
pub open spec fn decimal_chars(n: nat) -> Seq<char>
    decreases n,
{
    if n < 10 {
        seq![digit_char(n as int)]
    } else {
        decimal_chars(n / 10).push(digit_char((n % 10) as int))
    }
}

/// The text of a digit.
pub fn digit_str(d: u64) -> (r: &'static str)
    requires
        d < 10,
    ensures
        r@ == seq![digit_char(d as int)],
{
    proof {
        reveal_strlit("0");
        reveal_strlit("1");
        reveal_strlit("2");
        reveal_strlit("3");
        reveal_strlit("4");
        reveal_strlit("5");
        reveal_strlit("6");
        reveal_strlit("7");
        reveal_strlit("8");
        reveal_strlit("9");
    }
    let r = if d == 0 {
        "0"
    } else if d == 1 {
        "1"
    } else if d == 2 {
        "2"
    } else if d == 3 {
        "3"
    } else if d == 4 {
        "4"
    } else if d == 5 {
        "5"
    } else if d == 6 {
        "6"
    } else if d == 7 {
        "7"
    } else if d == 8 {
        "8"
    } else {
        "9"
    };
    assert(r@ =~= seq![digit_char(d as int)]);
    r
}

/// Appends the decimal digits of `n` to `text`.
pub fn push_decimal(text: &mut String, n: u64)
    ensures
        final(text)@ == old(text)@ + decimal_chars(n as nat),
    decreases n,
{
    if n >= 10 {
        push_decimal(text, n / 10);
    }
    let ghost before = text@;
    text.append(digit_str(n % 10));
    proof {
        if n >= 10 {
            assert(before + seq![digit_char((n % 10) as int)] =~= old(text)@ + decimal_chars(
                (n / 10) as nat,
            ).push(digit_char((n % 10) as int)));
        }
    }
}

/// What `String::from_utf8_lossy` makes of bytes: the text that they
/// hold in UTF-8, with a replacement character for what is no UTF-8.
pub uninterp spec fn lossy_text(bytes: Seq<u8>) -> Seq<char>;

/// What `{:?}` writes for a text: the text between double quotes, with
/// the characters that cannot stand there as they are written as escapes.
pub uninterp spec fn quoted_text(text: Seq<char>) -> Seq<char>;

/// `String::from_utf8_lossy`, with the result as a `String` of its own.
/// The contract names the result, which depends on the bytes alone.
#[verifier::external_body]
pub(crate) fn lossy(bytes: &[u8]) -> (r: String)
    ensures
        r@ == lossy_text(bytes@),
{
    String::from_utf8_lossy(bytes).into_owned()
}

/// A text as `format!` writes it for `{:?}`. The contract names the
/// result, which depends on the text alone.
#[verifier::external_body]
pub(crate) fn quote(text: &str) -> (r: String)
    ensures
        r@ == quoted_text(text@),
{
    format!("{:?}", text)
}

/// Bytes read as text and put in quotes.
pub open spec fn quoted_bytes(bytes: Seq<u8>) -> Seq<char> {
    quoted_text(lossy_text(bytes))
}

/// Appends bytes, read as text and put in quotes, to a text.
pub fn push_quoted(text: &mut String, bytes: &[u8])
    ensures
        final(text)@ == old(text)@ + quoted_bytes(bytes@),
{
    let read = lossy(bytes);
    let quoted = quote(read.as_str());
    text.append(quoted.as_str());
}

/// The numbers of the bytes in decimal, with a comma and a space between
/// each two.
pub open spec fn numbers_text(bytes: Seq<u8>) -> Seq<char>
    decreases bytes.len(),
{
    if bytes.len() == 0 {
        Seq::empty()
    } else if bytes.len() == 1 {
        decimal_chars(bytes[0] as nat)
    } else {
        numbers_text(bytes.drop_last()) + ", "@ + decimal_chars(bytes.last() as nat)
    }
}

/// Bytes as `{:?}` writes them: their numbers between brackets.
pub open spec fn bytes_list(bytes: Seq<u8>) -> Seq<char> {
    "["@ + numbers_text(bytes) + "]"@
}

/// Appends bytes to a text as `{:?}` writes them.
pub fn push_bytes_list(text: &mut String, bytes: &[u8])
    ensures
        final(text)@ == old(text)@ + bytes_list(bytes@),
{
    text.append("[");
    let ghost start = text@;
    let mut i: usize = 0;
    proof {
        assert(bytes@.subrange(0, 0) =~= Seq::<u8>::empty());
        assert(start + numbers_text(bytes@.subrange(0, 0)) =~= start);
    }
    while i < bytes.len()
        invariant
            i <= bytes.len(),
            text@ == start + numbers_text(bytes@.subrange(0, i as int)),
        decreases bytes.len() - i,
    {
        let ghost before = numbers_text(bytes@.subrange(0, i as int));
        proof {
            assert(bytes@.subrange(0, i + 1).drop_last() =~= bytes@.subrange(0, i as int));
            assert(bytes@.subrange(0, i + 1).last() == bytes@[i as int]);
            assert(bytes@.subrange(0, 1)[0] == bytes@[0]);
        }
        if i > 0 {
            text.append(", ");
        }
        push_decimal(text, bytes[i] as u64);
        proof {
            let number = decimal_chars(bytes@[i as int] as nat);
            if i > 0 {
                assert(start + before + ", "@ + number =~= start + (before + ", "@ + number));
            } else {
                assert(before =~= Seq::<char>::empty());
                assert(start + before + number =~= start + number);
            }
        }
        i += 1;
    }
    proof {
        assert(bytes@.subrange(0, bytes@.len() as int) =~= bytes@);
    }
    text.append("]");
    proof {
        assert(start + numbers_text(bytes@) + "]"@ =~= old(text)@ + ("["@ + numbers_text(bytes@)
            + "]"@));
    }
}

/// The lines, each read as text and put in quotes, with a comma and a
/// space between each two.
pub open spec fn quoted_lines(lines: Seq<Seq<u8>>) -> Seq<char>
    decreases lines.len(),
{
    if lines.len() == 0 {
        Seq::empty()
    } else if lines.len() == 1 {
        quoted_bytes(lines[0])
    } else {
        quoted_lines(lines.drop_last()) + ", "@ + quoted_bytes(lines.last())
    }
}

/// Appends lines, each read as text and put in quotes, to a text.
pub fn push_quoted_lines(text: &mut String, lines: &[Vec<u8>])
    ensures
        final(text)@ == old(text)@ + quoted_lines(vec_views(lines@)),
{
    let ghost start = text@;
    let ghost all = vec_views(lines@);
    let mut i: usize = 0;
    proof {
        assert(all.subrange(0, 0) =~= Seq::<Seq<u8>>::empty());
        assert(start + quoted_lines(all.subrange(0, 0)) =~= start);
    }
    while i < lines.len()
        invariant
            i <= lines.len(),
            all == vec_views(lines@),
            text@ == start + quoted_lines(all.subrange(0, i as int)),
        decreases lines.len() - i,
    {
        let ghost before = quoted_lines(all.subrange(0, i as int));
        proof {
            assert(all.subrange(0, i + 1).drop_last() =~= all.subrange(0, i as int));
            assert(all.subrange(0, i + 1).last() == all[i as int]);
            assert(all.subrange(0, 1)[0] == all[0]);
            assert(all[i as int] == lines@[i as int]@);
        }
        if i > 0 {
            text.append(", ");
        }
        push_quoted(text, lines[i].as_slice());
        proof {
            let line = quoted_bytes(all[i as int]);
            if i > 0 {
                assert(start + before + ", "@ + line =~= start + (before + ", "@ + line));
            } else {
                assert(before =~= Seq::<char>::empty());
                assert(start + before + line =~= start + line);
            }
        }
        i += 1;
    }
    proof {
        assert(all.subrange(0, all.len() as int) =~= all);
    }
}

/// The texts, with a line feed between each two.
pub open spec fn joined_lines(texts: Seq<Seq<char>>) -> Seq<char>
    decreases texts.len(),
{
    if texts.len() == 0 {
        Seq::empty()
    } else if texts.len() == 1 {
        texts[0]
    } else {
        joined_lines(texts.drop_last()) + "\n"@ + texts.last()
    }
}

/// The texts as sequences of characters.
pub open spec fn string_views(texts: Seq<String>) -> Seq<Seq<char>> {
    texts.map_values(|t: String| t@)
}

/// The texts, with a line feed between each two.
pub fn join_lines(texts: &[String]) -> (r: String)
    ensures
        r@ == joined_lines(string_views(texts@)),
{
    let mut text = String::from_str("");
    let ghost all = string_views(texts@);
    let mut i: usize = 0;
    proof {
        reveal_strlit("");
        assert(text@ =~= Seq::<char>::empty());
        assert(all.subrange(0, 0) =~= Seq::<Seq<char>>::empty());
    }
    while i < texts.len()
        invariant
            i <= texts.len(),
            all == string_views(texts@),
            text@ == joined_lines(all.subrange(0, i as int)),
        decreases texts.len() - i,
    {
        let ghost before = text@;
        proof {
            assert(all.subrange(0, i + 1).drop_last() =~= all.subrange(0, i as int));
            assert(all.subrange(0, i + 1).last() == all[i as int]);
            assert(all.subrange(0, 1)[0] == all[0]);
            assert(all[i as int] == texts@[i as int]@);
        }
        if i > 0 {
            text.append("\n");
        }
        text.append(texts[i].as_str());
        proof {
            if i == 0 {
                assert(before + all[0] =~= all[0]);
            }
        }
        i += 1;
    }
    proof {
        assert(all.subrange(0, all.len() as int) =~= all);
    }
    text
}

} // verus!
