//! Quoting for the POSIX shell, and what the shell reads back.

use crate::text::replace_all;
use crate::text::{occurs_at, replaced};
use vstd::prelude::*;

verus! {

/// How the shell takes the characters that come next.
pub enum Quoting {
    Unquoted,
    Single,
    Double,
}

/// A shell that reads a word: the quotes it is in, the characters that it has taken literally so
/// far, and whether a character came by that it would not take literally.
pub struct Reader {
    pub quoting: Quoting,
    pub word: Seq<char>,
    pub special: bool,
}

/// What one more character does to the reader. Outside quotes only a quotation mark keeps the
/// reader from treating a character as special; between double quotes `$`, a backquote and a
/// backslash stay special; between single quotes nothing is.
pub open spec fn read_char(reader: Reader, c: char) -> Reader {
    match reader.quoting {
        Quoting::Unquoted => if c == '\'' {
            Reader { quoting: Quoting::Single, ..reader }
        } else if c == '"' {
            Reader { quoting: Quoting::Double, ..reader }
        } else {
            Reader { special: true, ..reader }
        },
        Quoting::Single => if c == '\'' {
            Reader { quoting: Quoting::Unquoted, ..reader }
        } else {
            Reader { word: reader.word.push(c), ..reader }
        },
        Quoting::Double => if c == '"' {
            Reader { quoting: Quoting::Unquoted, ..reader }
        } else if c == '$' || c == '`' || c == '\\' {
            Reader { special: true, ..reader }
        } else {
            Reader { word: reader.word.push(c), ..reader }
        },
    }
}

/// What the characters of `text` do to the reader, one after the other.
pub open spec fn read_text(reader: Reader, text: Seq<char>) -> Reader
    decreases text.len(),
{
    if text.len() == 0 {
        reader
    } else {
        read_text(read_char(reader, text[0]), text.skip(1))
    }
}

/// What stands for a single quotation mark between single quotes: the quotes are closed, the mark
/// follows between double quotes, and the quotes are opened again.
pub open spec fn escaped_mark() -> Seq<char> {
    seq!['\'', '"', '\'', '"', '\'']
}

/// `value` between single quotes, with its quotation marks escaped.
pub open spec fn quoted(value: Seq<char>) -> Seq<char> {
    seq!['\''] + replaced(value, seq!['\''], escaped_mark()) + seq!['\'']
}

/// Quotes `value` for the shell.
pub fn shell_quote(value: &str) -> (result: String)
    ensures
        result@ == quoted(value@),
{
    proof {
        reveal_strlit("'");
        reveal_strlit("'\"'\"'");
        assert("'"@ =~= seq!['\'']);
        assert("'\"'\"'"@ =~= escaped_mark());
    }
    let escaped = replace_all(value, "'", "'\"'\"'");
    let mut result = String::new();
    result.push('\'');
    result.append(escaped.as_str());
    result.push('\'');
    assert(result@ =~= quoted(value@));
    result
}

/// Reading a text and then another is reading both in one.
proof fn read_text_concat(reader: Reader, a: Seq<char>, b: Seq<char>)
    ensures
        read_text(reader, a + b) == read_text(read_text(reader, a), b),
    decreases a.len(),
{
    if a.len() == 0 {
        assert(a + b =~= b);
    } else {
        assert((a + b).skip(1) =~= a.skip(1) + b);
        read_text_concat(read_char(reader, a[0]), a.skip(1), b);
    }
}

/// Between single quotes, the escaped form of `value` adds exactly `value` to the word.
proof fn read_escaped(reader: Reader, value: Seq<char>)
    requires
        reader.quoting is Single,
    ensures
        read_text(reader, replaced(value, seq!['\''], escaped_mark())) == (Reader {
            word: reader.word + value,
            ..reader
        }),
    decreases value.len(),
{
    let mark = seq!['\''];
    if value.len() == 0 {
        assert(reader.word + value =~= reader.word);
    } else {
        let rest = replaced(value.skip(1), mark, escaped_mark());
        let next = Reader { word: reader.word.push(value[0]), ..reader };
        assert(next.word + value.skip(1) =~= reader.word + value);
        read_escaped(next, value.skip(1));
        if value[0] == '\'' {
            assert(value.subrange(0, 1) =~= mark);
            assert(occurs_at(value, mark, 0));
            read_text_concat(reader, escaped_mark(), rest);
            assert(read_text(reader, escaped_mark()) == next) by {
                reveal_with_fuel(read_text, 6);
            }
        } else {
            assert(value.subrange(0, 1)[0] != mark[0]);
            assert(!occurs_at(value, mark, 0));
            read_text_concat(reader, seq![value[0]], rest);
            assert(read_text(reader, seq![value[0]]) == next) by {
                reveal_with_fuel(read_text, 2);
            }
        }
    }
}

/// Wherever a quoted value stands outside other quotes, the shell takes exactly the value, every
/// character of it literally, and is outside quotes again after it.
pub proof fn quoted_reads_back(reader: Reader, value: Seq<char>)
    requires
        reader.quoting is Unquoted,
    ensures
        read_text(reader, quoted(value)) == (Reader { word: reader.word + value, ..reader }),
{
    let mark = seq!['\''];
    let escaped = replaced(value, mark, escaped_mark());
    let opened = Reader { quoting: Quoting::Single, ..reader };
    assert(quoted(value) =~= mark + (escaped + mark));
    read_text_concat(reader, mark, escaped + mark);
    assert(read_text(reader, mark) == opened) by {
        reveal_with_fuel(read_text, 2);
    }
    read_text_concat(opened, escaped, mark);
    read_escaped(opened, value);
    let inside = Reader { word: reader.word + value, ..opened };
    assert(read_text(inside, mark) == (Reader { quoting: Quoting::Unquoted, ..inside })) by {
        reveal_with_fuel(read_text, 2);
    }
}

/// A quoted value in a command line adds exactly the value to what the shell takes, where the text
/// before it leaves the shell outside quotes; the text after it is read as if nothing had been
/// there.
pub proof fn quoted_reads_back_within(
    reader: Reader,
    before: Seq<char>,
    value: Seq<char>,
    after: Seq<char>,
)
    requires
        read_text(reader, before).quoting is Unquoted,
    ensures
        read_text(reader, before + quoted(value) + after) == read_text(
            Reader {
                word: read_text(reader, before).word + value,
                ..read_text(reader, before)
            },
            after,
        ),
{
    read_text_concat(reader, before + quoted(value), after);
    read_text_concat(reader, before, quoted(value));
    quoted_reads_back(read_text(reader, before), value);
}

/// A value without quotation marks is quoted by a mark before it and a mark after it.
pub proof fn quoted_between_marks(value: Seq<char>)
    requires
        !value.contains('\''),
    ensures
        quoted(value) == seq!['\''] + value + seq!['\''],
{
    escaped_without_marks(value, Seq::empty());
    assert(value + Seq::<char>::empty() =~= value);
    assert(replaced(Seq::empty(), seq!['\''], escaped_mark()) =~= Seq::<char>::empty());
}

/// A quotation mark in a value is quoted by a mark that closes, the mark between double quotes,
/// and a mark that opens again; what comes before and after it is quoted as if it stood alone.
pub proof fn quoted_around_a_mark(before: Seq<char>, after: Seq<char>)
    requires
        !before.contains('\''),
    ensures
        quoted(before + seq!['\''] + after) == quoted(before) + seq!['"', '\'', '"'] + quoted(
            after,
        ),
{
    let mark = seq!['\''];
    let rest = mark + after;
    quoted_between_marks(before);
    assert(before + mark + after =~= before + rest);
    escaped_without_marks(before, rest);
    assert(rest.subrange(0, 1) =~= mark);
    assert(occurs_at(rest, mark, 0));
    assert(rest.skip(1) =~= after);
    assert(quoted(before + mark + after) =~= quoted(before) + seq!['"', '\'', '"'] + quoted(after));
}

proof fn escaped_without_marks(value: Seq<char>, rest: Seq<char>)
    requires
        !value.contains('\''),
    ensures
        replaced(value + rest, seq!['\''], escaped_mark()) == value + replaced(
            rest,
            seq!['\''],
            escaped_mark(),
        ),
    decreases value.len(),
{
    let mark = seq!['\''];
    let whole = value + rest;
    if value.len() == 0 {
        assert(whole =~= rest);
        assert(value + replaced(rest, mark, escaped_mark()) =~= replaced(
            rest,
            mark,
            escaped_mark(),
        ));
    } else {
        assert(value.contains(value[0]));
        assert(whole.subrange(0, 1)[0] != mark[0]);
        assert(!occurs_at(whole, mark, 0));
        assert(whole.skip(1) =~= value.skip(1) + rest);
        assert forall|i: int| 0 <= i < value.skip(1).len() implies value.skip(1)[i] != '\'' by {
            assert(value.contains(value[i + 1]));
        }
        escaped_without_marks(value.skip(1), rest);
        assert(seq![whole[0]] + (value.skip(1) + replaced(rest, mark, escaped_mark())) =~= value
            + replaced(rest, mark, escaped_mark()));
    }
}

} // verus!
